use bettertui_engine::framebuffer::{Cell, CellAttributes, FrameBuffer};
use bettertui_engine::tree::Color;

#[test]
fn framebuffer_new() {
    let fb = FrameBuffer::new(80, 24);
    assert_eq!(fb.width(), 80);
    assert_eq!(fb.height(), 24);
}

#[test]
fn framebuffer_in_bounds() {
    let fb = FrameBuffer::new(80, 24);
    assert!(fb.in_bounds(0, 0));
    assert!(fb.in_bounds(79, 23));
    assert!(!fb.in_bounds(80, 24));
    assert!(!fb.in_bounds(80, 0));
}

#[test]
fn framebuffer_set_get() {
    let mut fb = FrameBuffer::new(10, 5);
    let cell = Cell::new('X');
    fb.set(3, 2, cell);
    assert_eq!(fb.get(3, 2).ch, 'X');
}

#[test]
fn framebuffer_fill_rect() {
    let mut fb = FrameBuffer::new(10, 5);
    let cell = Cell::new('#');
    fb.fill_rect(2, 1, 3, 2, cell);
    assert_eq!(fb.get(2, 1).ch, '#');
    assert_eq!(fb.get(4, 1).ch, '#');
    assert_eq!(fb.get(2, 2).ch, '#');
    assert_eq!(fb.get(5, 1).ch, ' ');
}

#[test]
fn framebuffer_write_str() {
    let mut fb = FrameBuffer::new(10, 5);
    fb.write_str(1, 0, "Hello", Color::Default, Color::Default);
    assert_eq!(fb.get(1, 0).ch, 'H');
    assert_eq!(fb.get(5, 0).ch, 'o');
    assert_eq!(fb.get(6, 0).ch, ' ');
}

#[test]
fn framebuffer_clear() {
    let mut fb = FrameBuffer::new(5, 3);
    fb.set(2, 1, Cell::new('X'));
    fb.clear();
    assert!(fb.get(2, 1).is_empty());
}

#[test]
fn framebuffer_resize() {
    let mut fb = FrameBuffer::new(10, 5);
    fb.set(5, 3, Cell::new('X'));
    fb.resize(20, 10);
    assert_eq!(fb.width(), 20);
    assert_eq!(fb.height(), 10);
    assert!(fb.get(5, 3).is_empty());
}

#[test]
fn framebuffer_diff() {
    let mut fb = FrameBuffer::new(3, 3);
    fb.swap();
    fb.set(1, 1, Cell::new('X'));
    let dirty = fb.diff();
    assert_eq!(dirty.len(), 1);
    assert_eq!(dirty[0], (1, 1));
}

#[test]
fn framebuffer_swap() {
    let mut fb = FrameBuffer::new(3, 3);
    fb.swap();
    fb.set(1, 1, Cell::new('A'));
    let dirty = fb.diff();
    assert_eq!(dirty.len(), 1);
}

#[test]
fn framebuffer_out_of_bounds_is_ignored() {
    let mut fb = FrameBuffer::new(4, 2);
    fb.set(4, 0, Cell::new('Z'));
    fb.set(0, 2, Cell::new('Z'));
    assert!(fb.get(4, 0).is_empty());
    assert!(fb.diff().is_empty());
}

#[test]
fn framebuffer_read_after_write() {
    let mut fb = FrameBuffer::new(6, 3);
    fb.set(2, 1, Cell::new('a'));
    fb.set(3, 1, Cell::new('b'));
    assert_eq!(fb.get(2, 1).ch, 'a');
    assert_eq!(fb.get(3, 1).ch, 'b');
    fb.set(2, 1, Cell::new('c'));
    assert_eq!(fb.get(2, 1).ch, 'c');
    assert_eq!(fb.get(3, 1).ch, 'b');
}

#[test]
fn framebuffer_swap_twice_restores() {
    let mut fb = FrameBuffer::new(3, 2);
    fb.set(0, 0, Cell::new('q'));
    fb.swap();
    assert!(fb.get(0, 0).is_empty());
    fb.swap();
    assert_eq!(fb.get(0, 0).ch, 'q');
}

#[test]
fn framebuffer_diff_order_and_emptiness() {
    let mut fb = FrameBuffer::new(3, 3);
    assert!(fb.diff().is_empty());
    fb.set(2, 0, Cell::new('x'));
    fb.set(0, 2, Cell::new('y'));
    fb.set(1, 0, Cell::new('z'));
    assert_eq!(fb.diff(), vec![(1, 0), (2, 0), (0, 2)]);
}

#[test]
fn framebuffer_clear_rect_and_wide_text() {
    let mut fb = FrameBuffer::new(8, 2);
    fb.fill_rect(0, 0, 8, 2, Cell::new('#'));
    fb.clear_rect(1, 0, 2, 1);
    assert!(fb.get(1, 0).is_empty());
    assert!(fb.get(2, 0).is_empty());
    assert_eq!(fb.get(3, 0).ch, '#');
    fb.write_str(0, 1, "a界b", Color::Default, Color::Default);
    assert_eq!(fb.get(0, 1).ch, 'a');
    assert_eq!(fb.get(1, 1).ch, '界');
    assert_eq!(fb.get(3, 1).ch, 'b');
}

#[test]
fn cell_attributes_flags() {
    let a = CellAttributes::BOLD() | CellAttributes::ITALIC();
    assert!(a.contains(CellAttributes::BOLD()));
    assert!(!a.contains(CellAttributes::UNDERLINE()));
    let mut b = a;
    b.remove(CellAttributes::BOLD());
    assert_eq!(b, CellAttributes::ITALIC());
    let c = Cell::new('k').with_fg(Color::rgb(1, 2, 3)).with_attrs(a);
    assert_eq!(c.fg, Color::Rgb(1, 2, 3));
    assert!(!c.is_empty());
}

#[test]
fn process_region_transforms_clipped_rect() {
    let mut fb = FrameBuffer::new(4, 3);
    fb.process_region(2, 1, 5, 5, |x, y, c: Cell| Cell { ch: if (x + y) % 2 == 0 { 'e' } else { 'o' }, ..c });
    assert_eq!(fb.get(2, 1).ch, 'o');
    assert_eq!(fb.get(3, 1).ch, 'e');
    assert_eq!(fb.get(2, 2).ch, 'e');
    assert_eq!(fb.get(1, 1).ch, ' ');
    assert_eq!(fb.get(2, 0).ch, ' ');
}

#[test]
fn process_cells_and_colors() {
    let mut fb = FrameBuffer::new(2, 2);
    fb.process_cells(|x, _y, c: Cell| Cell { ch: if x == 0 { 'L' } else { 'R' }, ..c });
    assert_eq!(fb.get(0, 1).ch, 'L');
    assert_eq!(fb.get(1, 0).ch, 'R');
    fb.process_fg_colors(|_x, _y, _c| Color::rgb(1, 2, 3));
    fb.process_bg_colors(|x, _y, c| if x == 1 { Color::rgb(9, 9, 9) } else { c });
    assert_eq!(fb.get(1, 1).fg, Color::rgb(1, 2, 3));
    assert_eq!(fb.get(1, 1).bg, Color::rgb(9, 9, 9));
    assert_eq!(fb.get(0, 0).ch, 'L');
}

#[test]
fn framebuffer_write_str_keeps_clusters_in_one_cell() {
    let mut fb = FrameBuffer::new(4, 1);
    fb.write_str(0, 0, "e\u{301}x", Color::Default, Color::Default);
    assert_eq!(fb.get(0, 0).ch, 'e');
    assert_eq!(fb.get(1, 0).ch, 'x');
}

#[test]
fn framebuffer_swap_keeps_diff() {
    let mut fb = FrameBuffer::new(4, 2);
    fb.set(3, 0, Cell::new('a'));
    fb.set(1, 1, Cell::new('b'));
    let before = fb.diff();
    fb.swap();
    assert_eq!(fb.diff(), before);
    assert_eq!(fb.diff(), vec![(3, 0), (1, 1)]);
    fb.swap();
    assert_eq!(fb.get(3, 0).ch, 'a');
    assert_eq!(fb.diff(), before);
    assert_eq!((fb.width(), fb.height()), (4, 2));
}

#[test]
fn cell_is_empty_checks_underline_color() {
    assert!(Cell::new(' ').is_empty());
    assert!(!Cell::new('X').is_empty());
    assert!(!Cell::new(' ').with_attrs(CellAttributes::BOLD()).is_empty());
    let mut c = Cell::new(' ');
    c.underline_color = Color::rgb(255, 0, 0);
    assert!(!c.is_empty());
    c.clear();
    assert!(c.is_empty());
}

#[test]
fn framebuffer_copy_from_overlap_only() {
    let mut small = FrameBuffer::new(2, 2);
    small.set(0, 0, Cell::new('a'));
    small.set(1, 0, Cell::new('b'));
    small.set(0, 1, Cell::new('c'));
    small.set(1, 1, Cell::new('d'));
    let mut big = FrameBuffer::new(3, 3);
    big.set(2, 0, Cell::new('K'));
    big.set(0, 2, Cell::new('L'));
    big.copy_from(&small);
    assert_eq!(big.get(0, 0).ch, 'a');
    assert_eq!(big.get(1, 0).ch, 'b');
    assert_eq!(big.get(0, 1).ch, 'c');
    assert_eq!(big.get(1, 1).ch, 'd');
    assert_eq!(big.get(2, 0).ch, 'K');
    assert_eq!(big.get(0, 2).ch, 'L');
    assert!(big.get(2, 1).is_empty());
    assert_eq!((big.width(), big.height()), (3, 3));

    let mut tiny = FrameBuffer::new(1, 1);
    tiny.copy_from(&big);
    assert_eq!(tiny.get(0, 0).ch, 'a');
    assert_eq!((tiny.width(), tiny.height()), (1, 1));
}
