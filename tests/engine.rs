use double_to_128::board::{check_neighbors, clear_block, game_over, neighbor, Grid};
use double_to_128::game::{generate_rand, press_cell, Game, Message};
use double_to_128::tiles::{bucket, get_padding, value_for_draw};

const CELL_VALUES: [u8; 7] = [0, 2, 4, 8, 16, 32, 64];
const TILES: [u8; 7] = [2, 4, 8, 16, 32, 64, 128];

fn empty() -> Grid {
    [[0; 4]; 4]
}

fn count_zero(g: &Grid) -> usize {
    g.iter().flatten().filter(|v| **v == 0).count()
}

#[test]
fn merge_one_neighbor_doubles() {
    let mut g = empty();
    g[0][0] = 4;
    g[1][0] = 4;
    press_cell(&mut g, 0, 0, 4);
    let mut want = empty();
    want[0][0] = 8;
    assert_eq!(g, want);
}

#[test]
fn merge_one_neighbor_through_game() {
    let mut game = Game::new();
    game.grid = empty();
    game.grid[1][0] = 4;
    game.next_num = 4;
    game.press(0, 0);
    assert_eq!(game.grid[0][0], 8);
    assert_eq!(game.grid[1][0], 0);
    assert_eq!(count_zero(&game.grid), 15);
    assert!(TILES.contains(&game.next_num));
}

#[test]
fn reaching_128_clears_block() {
    let mut g = empty();
    g[0][0] = 64;
    g[1][0] = 64;
    g[0][1] = 64;
    g[2][2] = 8;
    g[1][2] = 16;
    g[2][1] = 32;
    press_cell(&mut g, 0, 0, 64);
    let mut want = empty();
    want[2][2] = 8;
    want[1][2] = 16;
    want[2][1] = 32;
    assert_eq!(g, want);
}

#[test]
fn reaching_128_clears_whole_block_around_center() {
    let mut g = [[2; 4]; 4];
    g[1][1] = 0;
    g[1][0] = 64;
    press_cell(&mut g, 1, 1, 64);
    for x in 0..4 {
        for y in 0..4 {
            let inside = x <= 2 && y <= 2;
            assert_eq!(g[x][y], if inside { 0 } else { 2 }, "cell ({}, {})", x, y);
        }
    }
}

#[test]
fn pending_128_with_no_match_explodes() {
    let mut g = [[4; 4]; 4];
    g[3][3] = 0;
    press_cell(&mut g, 3, 3, 128);
    for x in 0..4 {
        for y in 0..4 {
            let inside = x >= 2 && y >= 2;
            assert_eq!(g[x][y], if inside { 0 } else { 4 });
        }
    }
}

#[test]
fn chain_merges_in_successive_rounds() {
    let mut g = empty();
    g[1][0] = 2;
    g[0][1] = 4;
    g[3][3] = 8;
    press_cell(&mut g, 0, 0, 2);
    let mut want = empty();
    want[0][0] = 8;
    want[3][3] = 8;
    assert_eq!(g, want);
}

#[test]
fn chain_of_four_rounds_reaches_128() {
    // 8 meets 8, 16 meets 16, 32 meets 32, 64 meets 64.
    let mut g = empty();
    g[1][1] = 0;
    g[0][1] = 8;
    g[1][0] = 16;
    g[2][1] = 32;
    g[1][2] = 64;
    g[3][3] = 2;
    press_cell(&mut g, 1, 1, 8);
    let mut want = empty();
    want[3][3] = 2;
    assert_eq!(g, want);
}

#[test]
fn no_match_places_pending() {
    let mut g = empty();
    g[1][0] = 2;
    g[2][2] = 4;
    let mut want = g;
    want[1][1] = 4;
    press_cell(&mut g, 1, 1, 4);
    assert_eq!(g, want);
}

#[test]
fn diagonal_cells_do_not_merge() {
    let mut g = empty();
    g[1][1] = 4;
    press_cell(&mut g, 0, 0, 4);
    assert_eq!(g[0][0], 4);
    assert_eq!(g[1][1], 4);
}

#[test]
fn check_neighbors_clears_all_matches_in_one_scan() {
    let mut g = empty();
    g[1][0] = 8;
    g[0][1] = 8;
    g[2][1] = 8;
    g[1][2] = 4;
    let found = check_neighbors(&mut g, 1, 1, 8);
    assert!(found);
    let mut want = empty();
    want[1][2] = 4;
    assert_eq!(g, want);
}

#[test]
fn check_neighbors_without_match_changes_nothing() {
    let mut g = empty();
    g[1][0] = 8;
    g[0][3] = 2;
    let before = g;
    assert!(!check_neighbors(&mut g, 3, 2, 2));
    assert_eq!(g, before);
    assert!(check_neighbors(&mut g, 3, 2, 0));
}

#[test]
fn clear_block_at_far_corner_stays_in_bounds() {
    let mut g = [[2; 4]; 4];
    clear_block(&mut g, 3, 3);
    assert_eq!(count_zero(&g), 4);
    assert_eq!(g[2][2], 0);
    assert_eq!(g[3][2], 0);
    assert_eq!(g[2][3], 0);
    assert_eq!(g[3][3], 0);
}

#[test]
fn clear_block_on_edge() {
    let mut g = [[2; 4]; 4];
    clear_block(&mut g, 3, 1);
    assert_eq!(count_zero(&g), 6);
    for y in 0..3 {
        assert_eq!(g[2][y], 0);
        assert_eq!(g[3][y], 0);
    }
}

#[test]
fn neighbor_directions() {
    assert_eq!(neighbor(0, 0, 0), None);
    assert_eq!(neighbor(0, 0, 1), None);
    assert_eq!(neighbor(0, 0, 2), Some((0, 1)));
    assert_eq!(neighbor(0, 0, 3), Some((1, 0)));
    assert_eq!(neighbor(0, 0, 7), Some((1, 1)));
    assert_eq!(neighbor(3, 3, 7), None);
    assert_eq!(neighbor(2, 2, 4), Some((1, 1)));
    assert_eq!(neighbor(2, 2, 5), Some((3, 1)));
    assert_eq!(neighbor(2, 2, 6), Some((1, 3)));
}

#[test]
fn full_grid_is_game_over() {
    let mut g = [[2; 4]; 4];
    g[0][3] = 64;
    g[2][1] = 8;
    assert!(game_over(&g));
    for x in 0..4 {
        for y in 0..4 {
            let mut h = g;
            h[x][y] = 0;
            assert!(!game_over(&h));
        }
    }
    assert!(!game_over(&empty()));
}

#[test]
fn game_reports_game_over() {
    let mut game = Game::new();
    assert!(!game.is_game_over());
    game.grid = [[16; 4]; 4];
    assert!(game.is_game_over());
}

#[test]
fn new_game_starts_empty() {
    let game = Game::new();
    assert_eq!(game.grid, empty());
    assert!(TILES.contains(&game.next_num));
}

#[test]
fn new_game_twice_is_same_grid() {
    let mut game = Game::new();
    game.grid[2][3] = 16;
    game.new_game();
    let first = game.grid;
    assert!(TILES.contains(&game.next_num));
    game.new_game();
    assert_eq!(game.grid, first);
    assert_eq!(game.grid, empty());
    assert!(TILES.contains(&game.next_num));
}

#[test]
fn press_on_occupied_cell_is_noop() {
    let mut game = Game::new();
    game.grid[1][1] = 4;
    game.grid[1][2] = 4;
    game.next_num = 4;
    game.press(1, 1);
    assert_eq!(game.grid[1][1], 4);
    assert_eq!(game.grid[1][2], 4);
    assert_eq!(game.next_num, 4);
}

#[test]
fn press_out_of_bounds_is_noop() {
    let mut game = Game::new();
    game.next_num = 8;
    game.press(4, 0);
    game.press(0, 7);
    assert_eq!(game.grid, empty());
    assert_eq!(game.next_num, 8);
}

#[test]
fn update_dispatches_messages() {
    let mut game = Game::new();
    game.next_num = 2;
    game.update(Message::Press(2, 3));
    assert_eq!(game.grid[2][3], 2);
    game.update(Message::NewGame);
    assert_eq!(game.grid, empty());
}

#[test]
fn random_play_keeps_cells_valid() {
    for _ in 0..200 {
        let mut game = Game::new();
        let mut moves = 0;
        while !game.is_game_over() && moves < 500 {
            let pending = game.next_num;
            let x = (moves * 7 + pending as usize) % 4;
            let y = (moves * 3 + (pending as usize) / 2) % 4;
            let mut placed = false;
            for k in 0..16 {
                let (cx, cy) = ((x + k) % 4, (y + k / 4) % 4);
                if game.grid[cx][cy] == 0 {
                    game.press(cx, cy);
                    placed = true;
                    break;
                }
            }
            assert!(placed);
            for col in game.grid.iter() {
                for v in col.iter() {
                    assert!(CELL_VALUES.contains(v), "cell holds {}", v);
                }
            }
            assert!(TILES.contains(&game.next_num));
            moves += 1;
        }
    }
}

#[test]
fn draw_table_rows() {
    let rows: Vec<(u8, u8)> = (0..7).map(bucket).collect();
    assert_eq!(
        rows,
        vec![(1, 128), (3, 64), (7, 32), (15, 16), (31, 8), (63, 4), (255, 2)]
    );
}

#[test]
fn value_for_draw_bucket_edges() {
    assert_eq!(value_for_draw(1), 128);
    assert_eq!(value_for_draw(2), 64);
    assert_eq!(value_for_draw(3), 64);
    assert_eq!(value_for_draw(4), 32);
    assert_eq!(value_for_draw(7), 32);
    assert_eq!(value_for_draw(8), 16);
    assert_eq!(value_for_draw(15), 16);
    assert_eq!(value_for_draw(16), 8);
    assert_eq!(value_for_draw(31), 8);
    assert_eq!(value_for_draw(32), 4);
    assert_eq!(value_for_draw(63), 4);
    assert_eq!(value_for_draw(64), 2);
    assert_eq!(value_for_draw(255), 2);
}

#[test]
fn draw_counts_per_tile() {
    let mut counts = [0u32; 7];
    for n in 1..=255u8 {
        let v = value_for_draw(n);
        let k = TILES.iter().position(|t| *t == v).unwrap();
        counts[k] += 1;
    }
    assert_eq!(counts, [192, 32, 16, 8, 4, 2, 1]);
}

#[test]
fn generated_tiles_follow_distribution() {
    let mut rng = rand::thread_rng();
    let draws = 255_000u32;
    let mut counts = [0u32; 7];
    for _ in 0..draws {
        let v = generate_rand(&mut rng);
        let k = TILES.iter().position(|t| *t == v).unwrap();
        counts[k] += 1;
    }
    let expected = [192.0, 32.0, 16.0, 8.0, 4.0, 2.0, 1.0];
    for k in 0..7 {
        let freq = counts[k] as f64 / draws as f64;
        let want = expected[k] / 255.0;
        assert!((freq - want).abs() < 0.006 + want * 0.3, "tile {}: {}", TILES[k], freq);
    }
    assert!(counts[0] > counts[1]);
}

#[test]
fn padding_by_digits() {
    assert_eq!(get_padding(2), [0, 20]);
    assert_eq!(get_padding(8), [0, 20]);
    assert_eq!(get_padding(16), [0, 10]);
    assert_eq!(get_padding(64), [0, 10]);
    assert_eq!(get_padding(128), [0, 20]);
}

#[test]
fn window_title() {
    let game = Game::new();
    assert_eq!(game.title(), "Double to 128");
}
