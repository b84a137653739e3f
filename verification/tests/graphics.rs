use bettertui_engine::framebuffer::{Cell, CellAttributes, FrameBuffer};
use bettertui_engine::graphics::{DrawStyle, GraphicsContext, Point, Rect};
use bettertui_engine::tree::Color;

#[test]
fn rect_contains() {
    let rect = Rect::new(5, 5, 10, 10);
    assert!(rect.contains(Point::new(5, 5)));
    assert!(rect.contains(Point::new(14, 14)));
    assert!(!rect.contains(Point::new(4, 5)));
    assert!(!rect.contains(Point::new(5, 15)));
}

#[test]
fn rect_edges() {
    let rect = Rect::new(2, 3, 10, 5);
    assert_eq!(rect.right(), 12);
    assert_eq!(rect.bottom(), 8);
}

#[test]
fn draw_style_chain() {
    let style = DrawStyle::new()
        .fg(Color::rgb(255, 0, 0))
        .bg(Color::rgb(0, 0, 0))
        .bold()
        .italic();
    assert!(style.fg.is_some());
    assert!(style.bg.is_some());
    assert!(style.attributes.contains(CellAttributes::BOLD()));
    assert!(style.attributes.contains(CellAttributes::ITALIC()));
}

#[test]
fn graphics_clear() {
    let mut fb = FrameBuffer::new(10, 10);
    fb.set(0, 0, Cell::new('x'));
    let mut gfx = GraphicsContext::new(fb);
    gfx.clear();
    assert!(gfx.buffer().get(0, 0).is_empty());
}

#[test]
fn draw_char() {
    let fb = FrameBuffer::new(10, 10);
    let mut gfx = GraphicsContext::new(fb);
    let style = DrawStyle::new().fg(Color::rgb(255, 0, 0));
    gfx.draw_char(0, 0, 'A', &style);
    assert_eq!(gfx.buffer().get(0, 0).ch, 'A');
}

#[test]
fn draw_str() {
    let fb = FrameBuffer::new(10, 10);
    let mut gfx = GraphicsContext::new(fb);
    let style = DrawStyle::new();
    gfx.draw_str(0, 0, "hello", &style);
    assert_eq!(gfx.buffer().get(0, 0).ch, 'h');
    assert_eq!(gfx.buffer().get(4, 0).ch, 'o');
}

#[test]
fn draw_hline() {
    let fb = FrameBuffer::new(10, 10);
    let mut gfx = GraphicsContext::new(fb);
    let style = DrawStyle::new();
    gfx.draw_hline(2, 0, 5, '-', &style);
    assert_eq!(gfx.buffer().get(2, 0).ch, '-');
    assert_eq!(gfx.buffer().get(6, 0).ch, '-');
    assert!(gfx.buffer().get(7, 0).is_empty());
}

#[test]
fn fill_rect() {
    let fb = FrameBuffer::new(10, 10);
    let mut gfx = GraphicsContext::new(fb);
    let style = DrawStyle::new();
    gfx.fill_rect(Rect::new(1, 1, 3, 3), '#', &style);
    assert_eq!(gfx.buffer().get(1, 1).ch, '#');
    assert_eq!(gfx.buffer().get(3, 3).ch, '#');
    assert!(gfx.buffer().get(0, 0).is_empty());
}

#[test]
fn clear_rect() {
    let fb = FrameBuffer::new(10, 10);
    let mut gfx = GraphicsContext::new(fb);
    let style = DrawStyle::new();
    gfx.fill_rect(Rect::new(0, 0, 10, 10), '#', &style);
    gfx.clear_rect(Rect::new(2, 2, 3, 3));
    assert_eq!(gfx.buffer().get(0, 0).ch, '#');
    assert!(gfx.buffer().get(2, 2).is_empty());
}

#[test]
fn draw_rect_outline_and_box() {
    let fb = FrameBuffer::new(10, 6);
    let mut gfx = GraphicsContext::new(fb);
    let style = DrawStyle::new().underline();
    gfx.draw_rect(Rect::new(1, 1, 4, 3), &style);
    assert_eq!(gfx.buffer().get(1, 1).ch, '+');
    assert_eq!(gfx.buffer().get(4, 1).ch, '+');
    assert_eq!(gfx.buffer().get(2, 1).ch, '-');
    assert_eq!(gfx.buffer().get(1, 2).ch, '|');
    assert_eq!(gfx.buffer().get(4, 3).ch, '+');
    assert!(gfx.buffer().get(2, 2).is_empty());
    assert!(gfx.buffer().get(1, 1).attributes.contains(CellAttributes::UNDERLINE()));
    gfx.draw_box(Rect::new(5, 0, 5, 3), &DrawStyle::default());
    assert_eq!(gfx.buffer().get(5, 0).ch, '\u{250C}');
    assert_eq!(gfx.buffer().get(9, 0).ch, '\u{2510}');
    assert_eq!(gfx.buffer().get(7, 0).ch, '\u{2500}');
    assert_eq!(gfx.buffer().get(5, 1).ch, '\u{2502}');
    assert_eq!(gfx.buffer().get(9, 2).ch, '\u{2518}');
    gfx.draw_box(Rect::new(0, 0, 1, 5), &style);
    assert_eq!(gfx.buffer().get(0, 0).ch, ' ');
}

#[test]
fn draw_str_stops_at_edge_and_vline() {
    let fb = FrameBuffer::new(4, 4);
    let mut gfx = GraphicsContext::new(fb);
    let style = DrawStyle::new().bg(Color::rgb(1, 2, 3));
    gfx.draw_str(2, 0, "abcdef", &style);
    assert_eq!(gfx.buffer().get(2, 0).ch, 'a');
    assert_eq!(gfx.buffer().get(3, 0).ch, 'b');
    assert_eq!(gfx.buffer().get(3, 0).bg, Color::rgb(1, 2, 3));
    gfx.draw_vline(0, 2, 10, '|', &style);
    assert_eq!(gfx.buffer().get(0, 3).ch, '|');
    assert!(gfx.buffer().get(0, 1).is_empty());
    gfx.set_cell(9, 9, Cell::new('z'));
    gfx.buffer_mut().set(1, 1, Cell::new('y'));
    let fb = gfx.into_buffer();
    assert_eq!(fb.get(1, 1).ch, 'y');
}

#[test]
fn draw_rect_clipped_at_the_edge() {
    let mut gfx = GraphicsContext::new(FrameBuffer::new(10, 6));
    let style = DrawStyle::new();
    gfx.draw_rect(Rect::new(8, 4, 5, 5), &style);
    assert_eq!(gfx.buffer().get(8, 4).ch, '+');
    assert_eq!(gfx.buffer().get(9, 4).ch, '-');
    assert_eq!(gfx.buffer().get(8, 5).ch, '|');
    assert!(gfx.buffer().get(9, 5).is_empty());
    assert!(gfx.buffer().get(7, 4).is_empty());
    gfx.draw_rect(Rect::new(2, 1, 1, 1), &style);
    assert_eq!(gfx.buffer().get(2, 1).ch, '+');
    gfx.draw_rect(Rect::new(0, 0, 0, 3), &style);
    assert!(gfx.buffer().get(0, 0).is_empty());
}
