use twenty48::{App, Direction};

fn grid_from_rows(rows: [[u32; 4]; 4]) -> Vec<u32> {
    let mut cells: Vec<u32> = Vec::new();
    for row in rows.iter() {
        for v in row.iter() {
            cells.push(*v);
        }
    }
    cells
}

fn cells_of(app: &App) -> Vec<u32> {
    app.grid().clone()
}

fn sum_of(app: &App) -> u64 {
    app.grid().iter().map(|&v| v as u64).sum()
}

/// Runs the three passes of a move without the terminal checks or the
/// spawner, so the outcome is deterministic.
fn passes(app: &mut App, d: Direction) {
    app.compress(d);
    app.merge(d);
    app.compress(d);
}

#[test]
fn end_to_end_left_move_spawns_one_tile() {
    let mut app = App::new(grid_from_rows([
        [2, 2, 0, 0],
        [0, 0, 0, 0],
        [0, 0, 0, 0],
        [0, 0, 0, 0],
    ]));
    app.move_tiles(Direction::Left);
    let g = cells_of(&app);
    assert_eq!(g[0], 4);
    let fresh: Vec<u32> = g[1..].iter().copied().filter(|&v| v != 0).collect();
    assert_eq!(fresh.len(), 1);
    assert!(fresh[0] == 2 || fresh[0] == 4);
    assert_eq!(app.win_count(), 0);
    assert_eq!(app.loss_count(), 0);
}

#[test]
fn no_double_merge_in_one_move() {
    let mut app = App::new(grid_from_rows([
        [2, 2, 2, 2],
        [0, 0, 0, 0],
        [0, 0, 0, 0],
        [0, 0, 0, 0],
    ]));
    passes(&mut app, Direction::Left);
    let g = cells_of(&app);
    assert_eq!(&g[0..4], &[4, 4, 0, 0]);
}

#[test]
fn no_double_merge_rightward() {
    let mut app = App::new(grid_from_rows([
        [2, 2, 2, 2],
        [0, 0, 0, 0],
        [0, 0, 0, 0],
        [0, 0, 0, 0],
    ]));
    passes(&mut app, Direction::Right);
    let g = cells_of(&app);
    assert_eq!(&g[0..4], &[0, 0, 4, 4]);
}

#[test]
fn compress_slides_without_merging() {
    let mut app = App::new(grid_from_rows([
        [2, 0, 2, 0],
        [0, 4, 0, 8],
        [0, 0, 0, 0],
        [0, 0, 0, 0],
    ]));
    app.compress(Direction::Left);
    let g = cells_of(&app);
    assert_eq!(&g[0..4], &[2, 2, 0, 0]);
    assert_eq!(&g[4..8], &[4, 8, 0, 0]);
}

#[test]
fn compress_right_keeps_order() {
    let mut app = App::new(grid_from_rows([
        [2, 0, 4, 0],
        [0, 0, 0, 0],
        [0, 0, 0, 0],
        [0, 0, 0, 0],
    ]));
    app.compress(Direction::Right);
    let g = cells_of(&app);
    assert_eq!(&g[0..4], &[0, 0, 2, 4]);
}

#[test]
fn merge_cascades_toward_pushed_edge() {
    let mut app = App::new(grid_from_rows([
        [2, 2, 4, 4],
        [4, 4, 8, 0],
        [0, 0, 0, 0],
        [0, 0, 0, 0],
    ]));
    passes(&mut app, Direction::Left);
    let g = cells_of(&app);
    assert_eq!(&g[0..4], &[4, 8, 0, 0]);
    assert_eq!(&g[4..8], &[8, 8, 0, 0]);
}

#[test]
fn vertical_moves_work_on_columns() {
    let mut app = App::new(grid_from_rows([
        [2, 0, 0, 0],
        [2, 0, 0, 0],
        [2, 0, 0, 0],
        [2, 0, 0, 0],
    ]));
    passes(&mut app, Direction::Up);
    let g = cells_of(&app);
    assert_eq!(g[0], 4);
    assert_eq!(g[4], 4);
    assert_eq!(g[8], 0);
    assert_eq!(g[12], 0);

    let mut down = App::new(grid_from_rows([
        [2, 0, 0, 0],
        [2, 0, 0, 0],
        [2, 0, 0, 0],
        [2, 0, 0, 0],
    ]));
    passes(&mut down, Direction::Down);
    let h = cells_of(&down);
    assert_eq!(h[0], 0);
    assert_eq!(h[4], 0);
    assert_eq!(h[8], 4);
    assert_eq!(h[12], 4);
}

#[test]
fn has_tile_value_finds_cells() {
    let app = App::new(grid_from_rows([
        [2, 0, 0, 0],
        [0, 0, 0, 0],
        [0, 0, 0, 0],
        [0, 0, 0, 0],
    ]));
    assert!(app.has_tile_value(2));
    assert!(app.has_tile_value(0));
    assert!(!app.has_tile_value(4));
}

#[test]
fn spawn_on_full_grid_is_a_noop() {
    let rows = [[2, 4, 2, 4], [4, 2, 4, 2], [2, 4, 2, 4], [4, 2, 4, 2]];
    let mut app = App::new(grid_from_rows(rows));
    let before = cells_of(&app);
    app.spawn_tile();
    assert_eq!(cells_of(&app), before);
}

#[test]
fn spawn_fills_exactly_one_empty_cell() {
    let mut rows = [[2u32; 4]; 4];
    rows[1][1] = 0;
    let mut app = App::new(grid_from_rows(rows));
    app.spawn_tile();
    let g = cells_of(&app);
    assert!(g[5] == 2 || g[5] == 4);
    for (k, &v) in g.iter().enumerate() {
        if k != 5 {
            assert_eq!(v, 2);
        }
    }
}

#[test]
fn win_resets_grid_and_counts() {
    let mut app = App::new(grid_from_rows([
        [1024, 1024, 0, 0],
        [0, 0, 0, 0],
        [0, 0, 0, 0],
        [0, 0, 0, 0],
    ]));
    app.move_tiles(Direction::Left);
    assert_eq!(app.win_count(), 1);
    assert_eq!(app.loss_count(), 0);
    assert!(app.grid().iter().all(|&v| v == 0));
}

#[test]
fn loss_on_full_grid_resets_without_spawn() {
    let rows = [[2, 4, 2, 4], [4, 2, 4, 2], [2, 4, 2, 4], [4, 2, 4, 2]];
    let mut app = App::new(grid_from_rows(rows));
    app.move_tiles(Direction::Left);
    assert_eq!(app.loss_count(), 1);
    assert_eq!(app.win_count(), 0);
    assert!(app.grid().iter().all(|&v| v == 0));
}

#[test]
fn full_board_with_winning_tile_counts_as_loss() {
    let rows = [
        [2048, 4, 2, 4],
        [4, 2, 4, 2],
        [2, 4, 2, 4],
        [4, 2, 4, 2],
    ];
    let mut app = App::new(grid_from_rows(rows));
    app.move_tiles(Direction::Left);
    assert_eq!(app.loss_count(), 1);
    assert_eq!(app.win_count(), 0);
    assert!(app.grid().iter().all(|&v| v == 0));
}

#[test]
fn settled_grid_does_not_change_or_spawn() {
    let rows = [[2, 4, 2, 4], [8, 16, 8, 16], [0, 0, 0, 0], [0, 0, 0, 0]];
    let mut app = App::new(grid_from_rows(rows));
    let before = cells_of(&app);
    app.move_tiles(Direction::Left);
    assert_eq!(cells_of(&app), before);
    assert_eq!(app.win_count(), 0);
    assert_eq!(app.loss_count(), 0);
}

#[test]
fn passes_conserve_the_sum() {
    let rows = [[2, 2, 4, 0], [8, 8, 8, 0], [16, 0, 16, 2], [0, 4, 4, 0]];
    let mut app = App::new(grid_from_rows(rows));
    let before = sum_of(&app);
    passes(&mut app, Direction::Left);
    assert_eq!(sum_of(&app), before);
}

#[test]
fn spawning_move_adds_two_or_four_to_sum() {
    let mut app = App::new(grid_from_rows([
        [2, 2, 0, 0],
        [0, 0, 0, 0],
        [0, 0, 0, 0],
        [0, 0, 0, 0],
    ]));
    let before = sum_of(&app);
    app.move_tiles(Direction::Left);
    let delta = sum_of(&app) - before;
    assert!(delta == 2 || delta == 4);
}

#[test]
fn mirrored_grid_moves_the_mirrored_way() {
    let mut left = App::new(grid_from_rows([
        [2, 2, 4, 0],
        [0, 0, 0, 0],
        [0, 0, 0, 0],
        [0, 0, 0, 0],
    ]));
    let mut right = App::new(grid_from_rows([
        [0, 4, 2, 2],
        [0, 0, 0, 0],
        [0, 0, 0, 0],
        [0, 0, 0, 0],
    ]));
    passes(&mut left, Direction::Left);
    passes(&mut right, Direction::Right);
    let lg = cells_of(&left);
    let rg = cells_of(&right);
    for row in 0..4 {
        for col in 0..4 {
            assert_eq!(lg[4 * row + col], rg[4 * row + (3 - col)]);
        }
    }
}

#[test]
fn doubling_works_at_the_top_of_the_range() {
    let mut app = App::new(grid_from_rows([
        [0x4000_0000, 0x4000_0000, 0, 0],
        [0, 0, 0, 0],
        [0, 0, 0, 0],
        [0, 0, 0, 0],
    ]));
    passes(&mut app, Direction::Left);
    assert_eq!(cells_of(&app)[0], 0x8000_0000);
}

#[test]
fn default_session_is_empty() {
    let app = App::default();
    assert!(app.grid().iter().all(|&v| v == 0));
    assert_eq!(app.grid().len(), 16);
    assert_eq!(app.win_count(), 0);
    assert_eq!(app.loss_count(), 0);
}

#[test]
fn reset_grid_empties_cells_and_keeps_counters() {
    let mut app = App::new(grid_from_rows([
        [2, 4, 8, 16],
        [0, 0, 0, 0],
        [0, 0, 0, 0],
        [0, 0, 0, 0],
    ]));
    app.reset_grid();
    assert!(app.grid().iter().all(|&v| v == 0));
    assert_eq!(app.win_count(), 0);
    assert_eq!(app.loss_count(), 0);
}

#[test]
fn new_session_keeps_the_given_layout() {
    let cells = grid_from_rows([
        [2, 2, 0, 16],
        [32, 0, 128, 16],
        [1024, 1024, 0, 0],
        [0, 0, 0, 0],
    ]);
    let app = App::new(cells.clone());
    assert_eq!(app.grid(), &cells);
}
