use golrust::config::{SimConfig, TimerAction, Rect, MIN_TIMEOUT_NS};
use golrust::grid::{GoLRust, get_random_grid};
use golrust::relation::GoLRustFlecs;
use golrust::rules::{next_state, shift, neighbour_offset};

fn grid_from(rows: &[&str]) -> Vec<Vec<bool>> {
    rows.iter().map(|r| r.chars().map(|c| c == '#').collect()).collect()
}

fn flat_cells(g: &GoLRust) -> Vec<Vec<bool>> {
    (0..g.height())
        .map(|y| (0..g.width()).map(|x| g.is_alive(x, y)).collect())
        .collect()
}

fn world_cells(w: &GoLRustFlecs) -> Vec<Vec<bool>> {
    (0..w.height)
        .map(|y| (0..w.width).map(|x| w.is_alive(x, y)).collect())
        .collect()
}

fn flat_with(rows: &[&str]) -> GoLRust {
    let cells = grid_from(rows);
    let mut g = GoLRust::new();
    g.reset_with(cells[0].len(), cells.len(), cells);
    g
}

fn world_with(rows: &[&str]) -> GoLRustFlecs {
    let cells = grid_from(rows);
    let mut w = GoLRustFlecs::new();
    w.reset_with(cells[0].len(), cells.len(), &cells);
    w
}

#[test]
fn lone_center_cell_dies() {
    let rows = ["...", ".#.", "..."];
    let mut g = flat_with(&rows);
    assert_eq!(g.count_alive_neighbors(1, 1), 0);
    g.update_grid();
    assert_eq!(flat_cells(&g), grid_from(&["...", "...", "..."]));
    let mut w = world_with(&rows);
    w.update_grid();
    assert_eq!(world_cells(&w), grid_from(&["...", "...", "..."]));
}

#[test]
fn blinker_oscillates_with_period_two() {
    let horizontal = [".....", ".....", ".###.", ".....", "....."];
    let vertical = [".....", "..#..", "..#..", "..#..", "....."];
    let mut g = flat_with(&horizontal);
    g.update_grid();
    assert_eq!(flat_cells(&g), grid_from(&vertical));
    g.update_grid();
    assert_eq!(flat_cells(&g), grid_from(&horizontal));
    let mut w = world_with(&horizontal);
    w.update_grid();
    assert_eq!(world_cells(&w), grid_from(&vertical));
    w.on_timer_timeout();
    assert_eq!(world_cells(&w), grid_from(&horizontal));
}

#[test]
fn dead_grid_stays_dead() {
    let rows = ["....", "....", "...."];
    let mut g = flat_with(&rows);
    g.update_grid();
    assert_eq!(flat_cells(&g), grid_from(&rows));
    let mut w = world_with(&rows);
    w.update_grid();
    assert_eq!(world_cells(&w), grid_from(&rows));
}

#[test]
fn rule_table() {
    for n in 0..=8usize {
        assert_eq!(next_state(true, n), n == 2 || n == 3, "live with {}", n);
        assert_eq!(next_state(false, n), n == 3, "dead with {}", n);
    }
}

#[test]
fn block_is_still_life() {
    let rows = ["....", ".##.", ".##.", "...."];
    let mut g = flat_with(&rows);
    g.update_grid();
    assert_eq!(flat_cells(&g), grid_from(&rows));
}

#[test]
fn counting_does_not_wrap() {
    // Live cells along the far edges must not count for the near corner.
    let rows = ["...#", "....", "....", "#..#"];
    let g = flat_with(&rows);
    assert_eq!(g.count_alive_neighbors(0, 0), 0);
    assert_eq!(g.count_alive_neighbors(3, 3), 0);
    assert_eq!(g.count_alive_neighbors(2, 2), 1);
    let full = flat_with(&["###", "###", "###"]);
    assert_eq!(full.count_alive_neighbors(0, 0), 3);
    assert_eq!(full.count_alive_neighbors(1, 0), 5);
    assert_eq!(full.count_alive_neighbors(1, 1), 8);
    let w = world_with(&["###", "###", "###"]);
    assert_eq!(w.count_alive_neighbours(0), 3);
    assert_eq!(w.count_alive_neighbours(1), 5);
    assert_eq!(w.count_alive_neighbours(4), 8);
}

#[test]
fn birth_with_three_neighbours() {
    let mut g = flat_with(&["#.#", "...", ".#."]);
    g.update_grid();
    assert_eq!(flat_cells(&g), grid_from(&["...", ".#.", "..."]));
}

#[test]
fn empty_grid_steps_as_no_op() {
    let mut g = GoLRust::new();
    g.reset_with(0, 0, Vec::new());
    g.update_grid();
    assert_eq!(g.width(), 0);
    assert_eq!(g.height(), 0);
    assert!(!g.is_alive(0, 0));
    let mut w = GoLRustFlecs::new();
    w.reset_with(0, 0, &Vec::new());
    w.update_grid();
    assert_eq!(w.cells.len(), 0);
}

#[test]
fn random_grid_has_requested_shape_and_density() {
    let g = get_random_grid(200, 100);
    assert_eq!(g.len(), 100);
    assert!(g.iter().all(|r| r.len() == 200));
    let live = g.iter().flatten().filter(|b| **b).count();
    let ratio = live as f64 / 20000.0;
    assert!(ratio > 0.17 && ratio < 0.23, "ratio {}", ratio);
}

#[test]
fn reset_follows_viewport() {
    let mut g = GoLRust::new();
    g.reset(645, 318);
    assert_eq!(g.width(), 64);
    assert_eq!(g.height(), 31);
    assert_eq!(g.config.grid_width, 64);
    assert_eq!(g.config.grid_height, 31);
    let live = flat_cells(&g).iter().flatten().filter(|b| **b).count();
    assert!(live > 0 && live < 64 * 31);
    let mut w = GoLRustFlecs::new();
    w.reset(645, 318);
    assert_eq!(w.cells.len(), 64 * 31);
    assert_eq!(w.neighbours.len(), 64 * 31);
}

#[test]
fn engines_agree_on_random_grids() {
    for round in 0..20usize {
        let width = 5 + round;
        let height = 3 + round / 2;
        let seed = get_random_grid(width, height);
        let mut g = GoLRust::new();
        g.reset_with(width, height, seed.clone());
        let mut w = GoLRustFlecs::new();
        w.reset_with(width, height, &seed);
        assert_eq!(flat_cells(&g), world_cells(&w));
        for _ in 0..3 {
            g.update_grid();
            w.update_grid();
            assert_eq!(flat_cells(&g), world_cells(&w));
        }
    }
}

#[test]
fn neighbour_edges_are_symmetric_and_bounded() {
    let seed = get_random_grid(7, 4);
    let mut w = GoLRustFlecs::new();
    w.reset_with(7, 4, &seed);
    for (i, targets) in w.neighbours.iter().enumerate() {
        let p = w.cells[i].position;
        let expected = match (p.x == 0 || p.x == 6, p.y == 0 || p.y == 3) {
            (true, true) => 3,
            (true, false) | (false, true) => 5,
            (false, false) => 8,
        };
        assert_eq!(targets.len(), expected);
        for &j in targets {
            assert!(w.neighbours[j].contains(&i));
            let q = w.cells[j].position;
            assert!((p.x as i32 - q.x as i32).abs() <= 1);
            assert!((p.y as i32 - q.y as i32).abs() <= 1);
            assert!(p != q);
        }
    }
    assert_eq!(w.cells[7 * 2 + 3].position.x, 3);
    assert_eq!(w.cells[7 * 2 + 3].position.y, 2);
}

#[test]
fn timeout_threshold() {
    let mut c = SimConfig::new();
    assert_eq!(c.timeout_ns, 500_000_000);
    assert_eq!(c.update_timeout(MIN_TIMEOUT_NS), TimerAction::Stop);
    assert!(!c.on_timer);
    assert_eq!(c.timeout_ns, 500_000_000);
    assert_eq!(c.update_timeout(0), TimerAction::Stop);
    assert_eq!(c.update_timeout(500_000_000), TimerAction::Restart(500_000_000));
    assert!(c.on_timer);
    assert_eq!(c.update_timeout(500_000_000), TimerAction::Keep);
    assert!(c.on_timer);
    assert_eq!(c.update_timeout(MIN_TIMEOUT_NS + 1), TimerAction::Restart(MIN_TIMEOUT_NS + 1));
    assert!(c.on_timer);
    assert_eq!(c.timeout_ns, MIN_TIMEOUT_NS + 1);
}

#[test]
fn timer_ticks_step_and_swap_buffers() {
    let horizontal = [".....", ".....", ".###.", ".....", "....."];
    let vertical = [".....", "..#..", "..#..", "..#..", "....."];
    let mut g = flat_with(&horizontal);
    assert_eq!(g.next_grid, grid_from(&horizontal));
    g.on_timer_timeout();
    assert_eq!(flat_cells(&g), grid_from(&vertical));
    assert_eq!(g.next_grid, grid_from(&horizontal));
    g.on_timer_timeout();
    assert_eq!(flat_cells(&g), grid_from(&horizontal));
    assert_eq!(g.next_grid, grid_from(&vertical));
}

#[test]
fn live_cell_rectangles() {
    let mut g = flat_with(&["#..", "..#"]);
    assert_eq!(
        g.live_rects(),
        vec![
            Rect { x: 0, y: 0, width: 10, height: 10 },
            Rect { x: 20, y: 10, width: 10, height: 10 },
        ]
    );
    g.update_grid();
    assert_eq!(g.live_rects(), Vec::<Rect>::new());
}

#[test]
fn relation_reset_on_degenerate_viewports() {
    let mut w = GoLRustFlecs::new();
    assert_eq!(w.config.cell_size, 10);
    assert_eq!(w.config.timeout_ns, 500_000_000);
    assert!(w.try_reset(5, 1_000_000));
    assert_eq!(w.width, 0);
    assert_eq!(w.height, 100_000);
    assert_eq!(w.cells.len(), 0);
    assert_eq!(w.neighbours.len(), 0);
    assert!(!w.try_reset(700_000, 20));
    assert_eq!(w.height, 100_000);
    assert!(w.try_reset(30, 20));
    assert_eq!((w.width, w.height), (3, 2));
    assert_eq!(w.cells.len(), 6);
}

#[test]
fn unchanged_cell_size_keeps_everything() {
    let mut g = flat_with(&["#.", ".#"]);
    let before = (flat_cells(&g), g.next_grid.clone(), g.config.grid_width, g.config.timeout_ns);
    assert!(!g.update_cell_size(10, 640, 480));
    assert_eq!(before, (flat_cells(&g), g.next_grid.clone(), g.config.grid_width, g.config.timeout_ns));
    assert!(g.update_cell_size(20, 640, 480));
    assert_eq!((g.config.grid_width, g.config.grid_height), (32, 24));
    assert_eq!(g.next_grid, flat_cells(&g));
}

#[test]
fn grid_size_and_cell_size() {
    let mut c = SimConfig::new();
    c.update_grid_size(1024, 600);
    assert_eq!((c.grid_width, c.grid_height), (102, 60));
    assert!(!c.update_cell_size(10));
    assert!(c.update_cell_size(0));
    c.update_grid_size(1024, 600);
    assert_eq!((c.grid_width, c.grid_height), (0, 0));
    let mut g = GoLRust::new();
    assert!(g.update_cell_size(32, 1024, 600));
    assert_eq!((g.width(), g.height()), (32, 18));
    assert!(!g.update_cell_size(32, 100, 100));
    assert_eq!((g.width(), g.height()), (32, 18));
}

#[test]
fn cell_rectangles() {
    let mut c = SimConfig::new();
    assert_eq!(c.cell_rect(3, 7), Rect { x: 30, y: 70, width: 10, height: 10 });
    c.update_cell_size(u32::MAX);
    let r = c.cell_rect(u32::MAX, 2);
    assert_eq!(r.x, (u32::MAX as u64) * (u32::MAX as u64));
    assert_eq!(r.y, 2 * u32::MAX as u64);
}

#[test]
fn offsets_and_shifts() {
    let all: Vec<(isize, isize)> = (0..8).map(neighbour_offset).collect();
    assert_eq!(all, vec![(-1, -1), (0, -1), (1, -1), (-1, 0), (1, 0), (-1, 1), (0, 1), (1, 1)]);
    assert_eq!(shift(0, -1, 5), None);
    assert_eq!(shift(4, 1, 5), None);
    assert_eq!(shift(2, 1, 5), Some(3));
    assert_eq!(shift(2, 0, 5), Some(2));
}
