use bettertui_engine::logger::diagnostics::{FrameWindow, MAX_FRAME_SAMPLES};

#[test]
fn new_window_is_empty() {
    let w = FrameWindow::new();
    assert!(w.is_empty());
    assert_eq!(w.len(), 0);
    assert_eq!(w.total_nanos(), 0);
}

#[test]
fn frame_times_add_up() {
    let mut w = FrameWindow::new();
    for _ in 0..10 {
        w.record(16_000_000);
    }
    assert_eq!(w.len(), 10);
    assert_eq!(w.total_nanos(), 160_000_000);
}

#[test]
fn window_keeps_at_most_sixty_frames() {
    let mut w = FrameWindow::default();
    for _ in 0..(MAX_FRAME_SAMPLES + 10) {
        w.record(16_000_000);
    }
    assert_eq!(w.len(), MAX_FRAME_SAMPLES);
}

#[test]
fn window_drops_the_oldest_frames() {
    let mut w = FrameWindow::new();
    for t in 1..=61u64 {
        w.record(t);
    }
    // frames 2..=61 remain
    assert_eq!(w.total_nanos(), (2..=61u64).map(|t| t as u128).sum::<u128>());
}

#[test]
fn clear_forgets_frames() {
    let mut w = FrameWindow::new();
    w.record(5);
    w.clear();
    assert!(w.is_empty());
}
