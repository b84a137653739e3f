use bettertui_engine::framebuffer::Cell;
use bettertui_engine::painter::Painter;

#[test]
fn painter_new() {
    let painter = Painter::new(80, 24);
    assert_eq!(painter.buffer().width(), 80);
    assert_eq!(painter.buffer().height(), 24);
}

#[test]
fn painter_resize_swap_diff() {
    let mut painter = Painter::new(4, 2);
    painter.buffer_mut().set(1, 1, Cell::new('x'));
    assert_eq!(painter.diff(), vec![(1, 1)]);
    painter.swap();
    assert_eq!(painter.buffer().get(1, 1), Cell::new(' '));
    painter.resize(3, 3);
    assert_eq!(painter.buffer().width(), 3);
    assert_eq!(Painter::default().buffer().width(), 0);
}
