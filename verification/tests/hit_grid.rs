use bettertui_engine::hit_grid::{HitGrid, HIT_EMPTY};

#[test]
fn hit_grid_new() {
    let grid = HitGrid::new(80, 24);
    assert_eq!(grid.dimensions(), (80, 24));
    assert_eq!(grid.check(0, 0), HIT_EMPTY);
}

#[test]
fn hit_grid_add_and_check() {
    let mut grid = HitGrid::new(80, 24);
    grid.add(5, 5, 10, 10, 42);
    grid.swap();
    assert_eq!(grid.check(5, 5), 42);
    assert_eq!(grid.check(14, 14), 42);
    assert_eq!(grid.check(4, 5), HIT_EMPTY);
    assert_eq!(grid.check(5, 4), HIT_EMPTY);
    assert_eq!(grid.check(15, 14), HIT_EMPTY);
}

#[test]
fn hit_grid_overwrite() {
    let mut grid = HitGrid::new(80, 24);
    grid.add(0, 0, 20, 20, 1);
    grid.add(5, 5, 10, 10, 2);
    grid.swap();
    assert_eq!(grid.check(0, 0), 1);
    assert_eq!(grid.check(5, 5), 2);
    assert_eq!(grid.check(7, 7), 2);
}

#[test]
fn hit_grid_out_of_bounds() {
    let mut grid = HitGrid::new(10, 10);
    assert_eq!(grid.check(10, 10), HIT_EMPTY);
    assert_eq!(grid.check(0, 10), HIT_EMPTY);
}

#[test]
fn hit_grid_swap_detects_changes() {
    let mut grid = HitGrid::new(10, 10);
    assert!(!grid.swap()); // empty -> empty = no change
    grid.add(0, 0, 1, 1, 1);
    assert!(grid.swap()); // has content -> different
    assert!(grid.swap()); // current (data) vs next (empty) -> different
    assert!(!grid.swap()); // both empty -> no change
}

#[test]
fn hit_grid_scissor_clips() {
    let mut grid = HitGrid::new(80, 40);
    grid.push_scissor(10, 10, 20, 20);
    grid.add(5, 5, 30, 30, 1);
    grid.swap();
    assert_eq!(grid.check(9, 9), HIT_EMPTY); // outside scissor
    assert_eq!(grid.check(10, 10), 1); // inside scissor
    assert_eq!(grid.check(29, 29), 1);
    assert_eq!(grid.check(30, 30), HIT_EMPTY); // outside scissor
}

#[test]
fn hit_grid_scissor_nesting() {
    let mut grid = HitGrid::new(80, 40);
    grid.push_scissor(0, 0, 50, 50);
    grid.push_scissor(10, 10, 20, 20);
    grid.add(5, 5, 50, 50, 42);
    grid.swap();
    assert_eq!(grid.check(9, 9), HIT_EMPTY); // outside inner scissor
    assert_eq!(grid.check(10, 10), 42); // inside both
    assert_eq!(grid.check(29, 29), 42);
    assert_eq!(grid.check(30, 30), HIT_EMPTY); // outside inner scissor
}

#[test]
fn hit_grid_resize() {
    let mut grid = HitGrid::new(80, 24);
    grid.add(0, 0, 80, 24, 1);
    grid.swap();
    grid.resize(40, 12);
    assert_eq!(grid.check(0, 0), HIT_EMPTY); // cleared after resize
}

#[test]
fn hit_grid_add_current() {
    let mut grid = HitGrid::new(80, 24);
    grid.add_current(0, 0, 10, 10, 42);
    assert_eq!(grid.check(5, 5), 42);
}

#[test]
fn hit_grid_clear_current() {
    let mut grid = HitGrid::new(10, 10);
    grid.add_current(0, 0, 10, 10, 1);
    assert_eq!(grid.check(5, 5), 1);
    grid.clear_current();
    assert_eq!(grid.check(5, 5), HIT_EMPTY);
}

#[test]
fn hit_grid_negative_origin_is_clipped() {
    let mut grid = HitGrid::new(10, 10);
    grid.add(-3, -2, 5, 4, 7);
    grid.swap();
    assert_eq!(grid.check(0, 0), 7);
    assert_eq!(grid.check(1, 1), 7);
    assert_eq!(grid.check(2, 0), HIT_EMPTY);
    assert_eq!(grid.check(0, 2), HIT_EMPTY);
}

#[test]
fn hit_grid_disjoint_scissor_writes_nothing() {
    let mut grid = HitGrid::new(20, 20);
    grid.push_scissor(0, 0, 5, 5);
    grid.push_scissor(10, 10, 5, 5);
    grid.add(0, 0, 20, 20, 3);
    grid.swap();
    for y in 0..20 {
        for x in 0..20 {
            assert_eq!(grid.check(x, y), HIT_EMPTY);
        }
    }
    grid.pop_scissor();
    grid.add(0, 0, 20, 20, 4);
    grid.swap();
    assert_eq!(grid.check(4, 4), 4);
    assert_eq!(grid.check(5, 5), HIT_EMPTY);
    grid.clear_scissors();
    grid.add(0, 0, 20, 20, 5);
    grid.swap();
    assert_eq!(grid.check(19, 19), 5);
}

#[test]
fn hit_grid_dirty_flag_and_resize() {
    let mut grid = HitGrid::new(4, 4);
    assert!(!grid.is_dirty());
    grid.resize(6, 2);
    assert!(grid.is_dirty());
    assert_eq!(grid.dimensions(), (6, 2));
    assert!(grid.swap());
    assert!(!grid.swap());
    grid.set_dirty(true);
    assert!(grid.is_dirty());
    grid.add(5, 1, 1, 1, 9);
    grid.clear_next();
    assert!(!grid.swap());
    assert_eq!(grid.check(5, 1), HIT_EMPTY);
}

#[test]
fn hit_grid_wide_rows() {
    let mut grid = HitGrid::new(70_000, 2);
    assert_eq!(grid.dimensions(), (70_000, 2));
    grid.add(69_990, 1, 20, 5, 9);
    grid.swap();
    assert_eq!(grid.check(69_999, 1), 9);
    assert_eq!(grid.check(69_989, 1), HIT_EMPTY);
    grid.resize(3, 1);
    assert_eq!(grid.dimensions(), (3, 1));
    assert_eq!(grid.check(0, 0), HIT_EMPTY);
}
