use vstd::prelude::*;

use crate::board::{
    all_empty, board, check_neighbors, clear_block, cleared_block, cleared_matches, game_over,
    has_match, in_bounds, is_adjacent, is_cell_value, valid_board, Grid, CELL_COLUMNS, CELL_ROWS,
};
use crate::tiles::{is_draw_outcome, is_tile, tile_for_draw, value_for_draw, DRAW_MAX, DRAW_MIN};
use rand::rngs::ThreadRng;
use vstd::string::StringExecFns;

verus! {

/// Most merge rounds that one press can make.
pub const MAX_ROUNDS: usize = 4;

/// The tile that clears its surroundings instead of staying on the grid.
pub const STAR: u8 = 128;

#[verifier::external_type_specification]
#[verifier::external_body]
pub struct ExThreadRng(rand::rngs::ThreadRng);

/// Relies on rand::thread_rng: hands out a handle to the lazily seeded
/// generator of the current thread.
pub assume_specification[ rand::thread_rng ]() -> rand::rngs::ThreadRng;

/// Relies on rand::Rng::gen_range with the inclusive range 1..=255: a value
/// drawn uniformly from that range (the range is not empty, so it does not panic).
#[verifier::external_body]
fn draw_uniform(rng: &mut ThreadRng) -> (r: u8)
    ensures
        DRAW_MIN <= r <= DRAW_MAX,
{
    rand::Rng::gen_range(rng, DRAW_MIN..=DRAW_MAX)
}

/// Draws the next tile to place.
pub fn generate_rand(rng: &mut ThreadRng) -> (r: u8)
    ensures
        is_draw_outcome(r as int),
        is_tile(r as int),
{
    let n = draw_uniform(rng);
    let r = value_for_draw(n);
    assert(tile_for_draw(n as int) == r);
    r
}

/// The merge rounds of a press on `(x, y)` with the chain value `v`: while
/// rounds are left and an edge-neighbour holds `v`, all such neighbours are
/// emptied and `v` doubles. Gives the board and the chain value at the end.
pub open spec fn chain(b: Seq<Seq<u8>>, x: int, y: int, v: int, rounds: nat) -> (
    Seq<Seq<u8>>,
    int,
)
    decreases rounds,
{
    if rounds == 0 || !has_match(b, x, y, v) {
        (b, v)
    } else {
        chain(cleared_matches(b, x, y, v), x, y, 2 * v, (rounds - 1) as nat)
    }
}

/// The board after placing `pending` on `(x, y)`: the chain merges, then the
/// 3x3 block is emptied if the chain reached 128, else the cell takes its value.
pub open spec fn pressed(b: Seq<Seq<u8>>, x: int, y: int, pending: int) -> Seq<Seq<u8>> {
    let (c, v) = chain(b, x, y, pending, MAX_ROUNDS as nat);
    if v == STAR {
        cleared_block(c, x, y)
    } else {
        c.update(x, c[x].update(y, v as u8))
    }
}

proof fn lemma_cleared_matches_valid(b: Seq<Seq<u8>>, x: int, y: int, v: int)
    requires
        valid_board(b),
    ensures
        valid_board(cleared_matches(b, x, y, v)),
{
    let c = cleared_matches(b, x, y, v);
    assert forall|i: int, j: int| in_bounds(i, j) implies #[trigger] is_cell_value(c[i][j]) by {
        assert(is_cell_value(b[i][j]));
    }
}

proof fn lemma_chain_valid(b: Seq<Seq<u8>>, x: int, y: int, v: int, rounds: nat)
    requires
        valid_board(b),
        is_tile(v),
    ensures
        valid_board(chain(b, x, y, v, rounds).0),
        is_tile(chain(b, x, y, v, rounds).1),
    decreases rounds,
{
    if rounds > 0 && has_match(b, x, y, v) {
        let (i, j) = choose|i: int, j: int|
            in_bounds(i, j) && is_adjacent(x, y, i, j) && #[trigger] b[i][j] == v;
        assert(is_cell_value(b[i][j]));
        lemma_cleared_matches_valid(b, x, y, v);
        lemma_chain_valid(cleared_matches(b, x, y, v), x, y, 2 * v, (rounds - 1) as nat);
    }
}

/// Every press keeps the board free of 128 and of anything but tiles and empty cells.
pub proof fn lemma_pressed_valid(b: Seq<Seq<u8>>, x: int, y: int, pending: int)
    requires
        valid_board(b),
        is_tile(pending),
        in_bounds(x, y),
    ensures
        valid_board(pressed(b, x, y, pending)),
{
    lemma_chain_valid(b, x, y, pending, MAX_ROUNDS as nat);
    let (c, v) = chain(b, x, y, pending, MAX_ROUNDS as nat);
    let p = pressed(b, x, y, pending);
    assert forall|i: int, j: int| in_bounds(i, j) implies #[trigger] is_cell_value(p[i][j]) by {
        assert(is_cell_value(c[i][j]));
    }
}

/// Places `pending` on `(x, y)` and resolves the merges it triggers.
pub fn press_cell(grid: &mut Grid, x: usize, y: usize, pending: u8)
    requires
        x < CELL_COLUMNS,
        y < CELL_ROWS,
        valid_board(board(*old(grid))),
        is_tile(pending as int),
    ensures
        board(*final(grid)) == pressed(board(*old(grid)), x as int, y as int, pending as int),
        valid_board(board(*final(grid))),
{
    let ghost b0 = board(*grid);
    let mut value = pending;
    let mut round: usize = 0;
    let mut stopped = false;
    while round < MAX_ROUNDS && !stopped
        invariant
            round <= MAX_ROUNDS,
            x < CELL_COLUMNS,
            y < CELL_ROWS,
            valid_board(board(*grid)),
            is_tile(value as int),
            chain(b0, x as int, y as int, pending as int, MAX_ROUNDS as nat) == chain(
                board(*grid),
                x as int,
                y as int,
                value as int,
                (MAX_ROUNDS - round) as nat,
            ),
            stopped ==> !has_match(board(*grid), x as int, y as int, value as int),
        decreases MAX_ROUNDS - round + if stopped {
            0int
        } else {
            1int
        },
    {
        let ghost before = board(*grid);
        if check_neighbors(grid, x, y, value) {
            proof {
                let (i, j) = choose|i: int, j: int|
                    in_bounds(i, j) && is_adjacent(x as int, y as int, i, j)
                        && #[trigger] before[i][j] == value;
                assert(is_cell_value(before[i][j]));
                lemma_cleared_matches_valid(before, x as int, y as int, value as int);
            }
            value = value * 2;
            round = round + 1;
        } else {
            assert(board(*grid) =~~= before);
            stopped = true;
        }
    }
    proof {
        lemma_pressed_valid(b0, x as int, y as int, pending as int);
    }
    if value == STAR {
        clear_block(grid, x, y);
    } else {
        grid[x][y] = value;
        assert(board(*grid) =~~= pressed(b0, x as int, y as int, pending as int));
    }
}

/// What the player can ask for.
#[derive(Clone, Copy, Debug)]
pub enum Message {
    NewGame,
    Press(usize, usize),
}

/// The state of one game: the grid, the tile to place next, and the generator
/// that draws tiles.
pub struct Game {
    pub grid: Grid,
    pub rng: ThreadRng,
    pub next_num: u8,
}

/// The state after a new game: an empty grid and a freshly drawn tile.
pub open spec fn new_game_post(after: Game) -> bool {
    all_empty(board(after.grid)) && is_draw_outcome(after.next_num as int)
}

/// The state after a press on `(x, y)`: on an empty cell inside the grid the
/// pending tile is placed and a new one drawn; any other press changes nothing.
pub open spec fn press_post(before: Game, after: Game, x: int, y: int) -> bool {
    if in_bounds(x, y) && before.grid[x][y] == 0 {
        board(after.grid) == pressed(board(before.grid), x, y, before.next_num as int)
            && is_draw_outcome(after.next_num as int)
    } else {
        after == before
    }
}

impl Game {
    /// Between moves the grid holds only empty cells and tiles below 128, and
    /// the pending value is a tile.
    pub open spec fn wf(&self) -> bool {
        valid_board(board(self.grid)) && is_tile(self.next_num as int)
    }

    fn empty_grid() -> (g: Grid)
        ensures
            all_empty(board(g)),
    {
        [[0;CELL_ROWS];CELL_COLUMNS]
    }

    /// A game on an empty grid with a freshly drawn pending tile.
    pub fn new() -> (g: Game)
        ensures
            g.wf(),
            new_game_post(g),
    {
        let mut rng = rand::thread_rng();
        let next_num = generate_rand(&mut rng);
        Game { grid: Self::empty_grid(), rng, next_num }
    }

    /// Empties the grid and draws a new pending tile.
    pub fn new_game(&mut self)
        ensures
            final(self).wf(),
            new_game_post(*final(self)),
    {
        self.grid = Self::empty_grid();
        self.next_num = generate_rand(&mut self.rng);
    }

    /// Places the pending tile on `(x, y)` if that cell is inside the grid and
    /// empty, then draws the next tile; otherwise does nothing.
    pub fn press(&mut self, x: usize, y: usize)
        requires
            old(self).wf(),
        ensures
            final(self).wf(),
            press_post(*old(self), *final(self), x as int, y as int),
    {
        if x >= CELL_COLUMNS || y >= CELL_ROWS || self.grid[x][y] != 0 {
            return;
        }
        press_cell(&mut self.grid, x, y, self.next_num);
        self.next_num = generate_rand(&mut self.rng);
    }

    pub fn update(&mut self, message: Message)
        requires
            old(self).wf(),
        ensures
            final(self).wf(),
            match message {
                Message::NewGame => new_game_post(*final(self)),
                Message::Press(x, y) => press_post(*old(self), *final(self), x as int, y as int),
            },
    {
        match message {
            Message::NewGame => self.new_game(),
            Message::Press(x, y) => self.press(x, y),
        }
    }

    /// The caption of the game's window.
    pub fn title(&self) -> (r: String)
        ensures
            r@ == "Double to 128"@,
    {
        let r = String::from_str("Double to 128");
        proof {
            reveal_strlit("Double to 128");
        }
        r
    }

    /// Whether the grid is full.
    pub fn is_game_over(&self) -> (r: bool)
        ensures
            r == forall|i: int, j: int| in_bounds(i, j) ==> #[trigger] board(self.grid)[i][j] != 0,
    {
        game_over(&self.grid)
    }
}

/// A press depends only on the grid, the pending tile and the cell: two games
/// that agree on those end with the same grid.
pub proof fn lemma_press_deterministic(a: Game, a2: Game, b: Game, b2: Game, x: int, y: int)
    requires
        board(a.grid) == board(b.grid),
        a.next_num == b.next_num,
        press_post(a, a2, x, y),
        press_post(b, b2, x, y),
    ensures
        board(a2.grid) == board(b2.grid),
{
    if in_bounds(x, y) {
        assert(a.grid[x][y] == board(a.grid)[x][y]);
        assert(b.grid[x][y] == board(b.grid)[x][y]);
    }
}

/// Starting a new game twice leaves the same empty grid as starting it once.
pub proof fn lemma_new_game_twice(once: Game, twice: Game)
    requires
        new_game_post(once),
        new_game_post(twice),
    ensures
        board(once.grid) == board(twice.grid),
        all_empty(board(twice.grid)),
{
    assert(board(once.grid) =~~= board(twice.grid));
}

} // verus!
