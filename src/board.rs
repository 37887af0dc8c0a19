use vstd::prelude::*;

verus! {

/// Number of columns of the playing field (the `x` axis).
pub const CELL_COLUMNS: usize = 4;

/// Number of rows of the playing field (the `y` axis).
pub const CELL_ROWS: usize = 4;

/// The playing field, indexed `grid[x][y]`; `0` marks an empty cell.
pub type Grid = [[u8; CELL_ROWS]; CELL_COLUMNS];

/// The mathematical model of a grid: one sequence of cell values per column.
pub open spec fn board(g: Grid) -> Seq<Seq<u8>> {
    Seq::new(CELL_COLUMNS as nat, |i: int| g[i]@)
}

pub open spec fn in_bounds(i: int, j: int) -> bool {
    0 <= i < CELL_COLUMNS && 0 <= j < CELL_ROWS
}

/// `(i, j)` shares an edge with `(x, y)`.
pub open spec fn is_adjacent(x: int, y: int, i: int, j: int) -> bool {
    (i == x && (j == y - 1 || j == y + 1)) || (j == y && (i == x - 1 || i == x + 1))
}

/// `(i, j)` lies in the 3x3 block centred on `(x, y)`, the centre included.
pub open spec fn in_block(x: int, y: int, i: int, j: int) -> bool {
    x - 1 <= i <= x + 1 && y - 1 <= j <= y + 1
}

/// A value that a cell may hold between moves: empty, or a tile below 128.
pub open spec fn is_cell_value(v: u8) -> bool {
    v == 0 || v == 2 || v == 4 || v == 8 || v == 16 || v == 32 || v == 64
}

/// A 4x4 board whose cells are all empty or tiles below 128.
pub open spec fn valid_board(b: Seq<Seq<u8>>) -> bool {
    &&& b.len() == CELL_COLUMNS
    &&& forall|i: int| 0 <= i < CELL_COLUMNS ==> #[trigger] b[i].len() == CELL_ROWS
    &&& forall|i: int, j: int| in_bounds(i, j) ==> #[trigger] is_cell_value(b[i][j])
}

pub open spec fn all_empty(b: Seq<Seq<u8>>) -> bool {
    forall|i: int, j: int| in_bounds(i, j) ==> #[trigger] b[i][j] == 0
}

/// Some in-bounds neighbour of `(x, y)` that shares an edge with it holds `v`.
pub open spec fn has_match(b: Seq<Seq<u8>>, x: int, y: int, v: int) -> bool {
    exists|i: int, j: int| in_bounds(i, j) && is_adjacent(x, y, i, j) && #[trigger] b[i][j] == v
}

/// The board with every edge-neighbour of `(x, y)` that holds `v` emptied at once.
pub open spec fn cleared_matches(b: Seq<Seq<u8>>, x: int, y: int, v: int) -> Seq<Seq<u8>> {
    Seq::new(
        CELL_COLUMNS as nat,
        |i: int|
            Seq::new(
                CELL_ROWS as nat,
                |j: int|
                    if is_adjacent(x, y, i, j) && b[i][j] == v {
                        0u8
                    } else {
                        b[i][j]
                    },
            ),
    )
}

/// The board with the in-bounds part of the 3x3 block around `(x, y)` emptied.
pub open spec fn cleared_block(b: Seq<Seq<u8>>, x: int, y: int) -> Seq<Seq<u8>> {
    Seq::new(
        CELL_COLUMNS as nat,
        |i: int|
            Seq::new(
                CELL_ROWS as nat,
                |j: int|
                    if in_block(x, y, i, j) {
                        0u8
                    } else {
                        b[i][j]
                    },
            ),
    )
}

/// The board with cell `(i, j)` emptied if it holds `v`.
pub open spec fn cleared_if(b: Seq<Seq<u8>>, i: int, j: int, v: int) -> Seq<Seq<u8>> {
    if 0 <= i < b.len() && 0 <= j < b[i].len() && b[i][j] == v {
        b.update(i, b[i].update(j, 0))
    } else {
        b
    }
}

/// Offsets of the eight neighbours: the four that share an edge first
/// (up, left, down, right), then the four diagonals.
pub open spec fn offset(k: int) -> (int, int) {
    if k == 0 {
        (0, -1)
    } else if k == 1 {
        (-1, 0)
    } else if k == 2 {
        (0, 1)
    } else if k == 3 {
        (1, 0)
    } else if k == 4 {
        (-1, -1)
    } else if k == 5 {
        (1, -1)
    } else if k == 6 {
        (-1, 1)
    } else {
        (1, 1)
    }
}

/// The index `k` with `(x, y) + offset(k) == (i, j)`, or 8 when there is none.
pub open spec fn direction_of(x: int, y: int, i: int, j: int) -> int {
    let dx = i - x;
    let dy = j - y;
    if dx == 0 && dy == -1 {
        0
    } else if dx == -1 && dy == 0 {
        1
    } else if dx == 0 && dy == 1 {
        2
    } else if dx == 1 && dy == 0 {
        3
    } else if dx == -1 && dy == -1 {
        4
    } else if dx == 1 && dy == -1 {
        5
    } else if dx == -1 && dy == 1 {
        6
    } else if dx == 1 && dy == 1 {
        7
    } else {
        8
    }
}

/// The neighbour of `(x, y)` in direction `k`, when it lies inside the grid.
pub fn neighbor(x: usize, y: usize, k: usize) -> (r: Option<(usize, usize)>)
    requires
        x < CELL_COLUMNS,
        y < CELL_ROWS,
        k < 8,
    ensures
        match r {
            Some((i, j)) => in_bounds(i as int, j as int) && i == x + offset(k as int).0 && j == y
                + offset(k as int).1,
            None => !in_bounds(x + offset(k as int).0, y + offset(k as int).1),
        },
{
    let (left, up) = (k == 1 || k == 4 || k == 6, k == 0 || k == 4 || k == 5);
    let (right, down) = (k == 3 || k == 5 || k == 7, k == 2 || k == 6 || k == 7);
    if (left && x == 0) || (up && y == 0) || (right && x + 1 == CELL_COLUMNS) || (down && y + 1
        == CELL_ROWS) {
        return None;
    }
    let i = if left {
        x - 1
    } else if right {
        x + 1
    } else {
        x
    };
    let j = if up {
        y - 1
    } else if down {
        y + 1
    } else {
        y
    };
    Some((i, j))
}

/// Empties, in one scan, every edge-neighbour of `(x, y)` that holds `num`,
/// and tells whether there was one.
pub fn check_neighbors(grid: &mut Grid, x: usize, y: usize, num: u8) -> (found: bool)
    requires
        x < CELL_COLUMNS,
        y < CELL_ROWS,
    ensures
        found == has_match(board(*old(grid)), x as int, y as int, num as int),
        board(*final(grid)) == cleared_matches(board(*old(grid)), x as int, y as int, num as int),
{
    let ghost g0 = *grid;
    let mut found = false;
    let mut k: usize = 0;
    while k < 4
        invariant
            k <= 4,
            x < CELL_COLUMNS,
            y < CELL_ROWS,
            forall|i: int, j: int|
                in_bounds(i, j) ==> #[trigger] grid[i][j] == if direction_of(x as int, y as int, i, j)
                    < k && g0[i][j] == num {
                    0u8
                } else {
                    g0[i][j]
                },
            found ==> has_match(board(g0), x as int, y as int, num as int),
            !found ==> forall|i: int, j: int|
                in_bounds(i, j) && direction_of(x as int, y as int, i, j) < k ==> #[trigger] g0[i][j]
                    != num,
        decreases 4 - k,
    {
        if let Some((i, j)) = neighbor(x, y, k) {
            if grid[i][j] == num {
                assert(board(g0)[i as int][j as int] == num);
                grid[i][j] = 0;
                found = true;
            }
        }
        k = k + 1;
    }
    proof {
        if !found {
            assert forall|i: int, j: int|
                in_bounds(i, j) && is_adjacent(x as int, y as int, i, j) implies #[trigger] board(
                g0,
            )[i][j] != num by {
                assert(direction_of(x as int, y as int, i, j) < 4);
            }
        }
    }
    assert(board(*grid) =~~= cleared_matches(board(g0), x as int, y as int, num as int));
    found
}

/// Empties the cell `(x, y)` and each of its eight neighbours that lies inside the grid.
pub fn clear_block(grid: &mut Grid, x: usize, y: usize)
    requires
        x < CELL_COLUMNS,
        y < CELL_ROWS,
    ensures
        board(*final(grid)) == cleared_block(board(*old(grid)), x as int, y as int),
{
    let ghost g0 = *grid;
    grid[x][y] = 0;
    let mut k: usize = 0;
    while k < 8
        invariant
            k <= 8,
            x < CELL_COLUMNS,
            y < CELL_ROWS,
            forall|i: int, j: int|
                in_bounds(i, j) ==> #[trigger] grid[i][j] == if direction_of(x as int, y as int, i, j)
                    < k || (i == x && j == y) {
                    0u8
                } else {
                    g0[i][j]
                },
        decreases 8 - k,
    {
        if let Some((i, j)) = neighbor(x, y, k) {
            grid[i][j] = 0;
        }
        k = k + 1;
    }
    assert(board(*grid) =~~= cleared_block(board(g0), x as int, y as int));
}

/// Whether every cell of the grid holds a tile.
pub fn game_over(grid: &Grid) -> (r: bool)
    ensures
        r == forall|i: int, j: int| in_bounds(i, j) ==> #[trigger] board(*grid)[i][j] != 0,
{
    for y in 0..CELL_ROWS
        invariant
            forall|i: int, j: int|
                in_bounds(i, j) && j < y ==> #[trigger] board(*grid)[i][j] != 0,
    {
        for x in 0..CELL_COLUMNS
            invariant
                y < CELL_ROWS,
                forall|i: int, j: int|
                    in_bounds(i, j) && (j < y || (j == y && i < x)) ==> #[trigger] board(
                        *grid,
                    )[i][j] != 0,
        {
            if grid[x][y] == 0 {
                assert(board(*grid)[x as int][y as int] == 0);
                return false;
            }
        }
    }
    true
}

/// Clearing a cell that holds `v` does not depend on which cells were cleared
/// before it: the order in which matching cells are emptied never matters.
pub proof fn lemma_clearing_commutes(b: Seq<Seq<u8>>, p: (int, int), q: (int, int), v: int)
    ensures
        cleared_if(cleared_if(b, p.0, p.1, v), q.0, q.1, v) == cleared_if(
            cleared_if(b, q.0, q.1, v),
            p.0,
            p.1,
            v,
        ),
{
    let l = cleared_if(cleared_if(b, p.0, p.1, v), q.0, q.1, v);
    let r = cleared_if(cleared_if(b, q.0, q.1, v), p.0, p.1, v);
    assert(l =~~= r);
}

/// Emptying every matching edge-neighbour at once is the same as emptying them
/// one at a time, up, left, down, right; with `lemma_clearing_commutes`, any
/// other order gives the same board too.
pub proof fn lemma_scan_equals_one_by_one(b: Seq<Seq<u8>>, x: int, y: int, v: int)
    requires
        b.len() == CELL_COLUMNS,
        forall|i: int| 0 <= i < CELL_COLUMNS ==> #[trigger] b[i].len() == CELL_ROWS,
        in_bounds(x, y),
    ensures
        cleared_matches(b, x, y, v) == cleared_if(
            cleared_if(cleared_if(cleared_if(b, x, y - 1, v), x - 1, y, v), x, y + 1, v),
            x + 1,
            y,
            v,
        ),
{
    let b1 = cleared_if(b, x, y - 1, v);
    let b2 = cleared_if(b1, x - 1, y, v);
    let b3 = cleared_if(b2, x, y + 1, v);
    let b4 = cleared_if(b3, x + 1, y, v);
    assert(cleared_matches(b, x, y, v) =~~= b4);
}

} // verus!
