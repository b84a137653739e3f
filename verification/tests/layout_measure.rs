use bettertui_engine::layout::measure::{lines_of, measure_text};

fn lines(text: &str) -> Vec<String> {
    lines_of(text).into_iter().map(|l| l.into_iter().collect()).collect()
}

#[test]
fn lines_follow_str_lines() {
    for text in ["", "a", "a\n", "\n", "a\nb", "a\r\nb\r\n", "a\r", "x\n\ny", "\n\n"] {
        let expected: Vec<String> = text.lines().map(|l| l.to_string()).collect();
        assert_eq!(lines(text), expected, "text {:?}", text);
    }
}

#[test]
fn single_line_unbounded() {
    assert_eq!(measure_text("hello", None), (5, 1));
}

#[test]
fn empty_text_takes_one_row() {
    assert_eq!(measure_text("", None), (0, 1));
    assert_eq!(measure_text("", Some(10)), (0, 1));
}

#[test]
fn lines_that_fit_take_one_row_each() {
    assert_eq!(measure_text("ab\ncd", Some(10)), (2, 2));
    assert_eq!(measure_text("ab\r\ncd\n", Some(2)), (2, 2));
}

#[test]
fn long_line_wraps_at_available_width() {
    assert_eq!(measure_text("hello world", Some(5)), (11, 3));
}

#[test]
fn empty_lines_count_one_row_when_wrapping() {
    assert_eq!(measure_text("a\n\nbcdef", Some(2)), (5, 5));
}

#[test]
fn zero_width_wraps_at_one_column() {
    assert_eq!(measure_text("abc", Some(0)), (3, 3));
}

#[test]
fn wide_characters_count_two_columns() {
    assert_eq!(measure_text("日本", None), (4, 1));
    assert_eq!(measure_text("日本", Some(3)), (4, 2));
}
