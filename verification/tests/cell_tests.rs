use papergrid::CellInfo;
use papergrid::CharCountWidth;
use papergrid::StrWithWidth;
use papergrid::create_cell_info;
use papergrid::update_cell_info;
use papergrid::cell::split_str_lines;

#[test]
fn single_line_cell_reports_one_line() {
    let c = CellInfo::new("hello", &CharCountWidth);
    assert_eq!(c.count_lines(), 1);
    assert_eq!(c.get_line(0), "hello");
    assert_eq!(c.width(&CharCountWidth), 5);
    assert_eq!(c.line_width(0, &CharCountWidth), 5);
    assert!(!c.is_empty());
}

#[test]
fn empty_cell_reports_one_empty_line() {
    let c = CellInfo::new("", &CharCountWidth);
    assert_eq!(c.count_lines(), 1);
    assert_eq!(c.get_line(0), "");
    assert_eq!(c.width(&CharCountWidth), 0);
    assert!(c.is_empty());
}

#[test]
fn multi_line_cell_measures_each_line() {
    let c = CellInfo::new("ab\ncdef", &CharCountWidth);
    assert_eq!(c.count_lines(), 2);
    assert_eq!(c.get_line(0), "ab");
    assert_eq!(c.get_line(1), "cdef");
    assert_eq!(c.line_width(0, &CharCountWidth), 2);
    assert_eq!(c.line_width(1, &CharCountWidth), 4);
    assert_eq!(c.width(&CharCountWidth), 4);
}

#[test]
fn crlf_and_lf_break_lines_uniformly() {
    let c = CellInfo::new("ab\r\ncd\nef", &CharCountWidth);
    assert_eq!(c.count_lines(), 3);
    assert_eq!(c.get_line(0), "ab");
    assert_eq!(c.get_line(1), "cd");
    assert_eq!(c.get_line(2), "ef");
}

#[test]
fn lone_carriage_return_is_an_ordinary_character() {
    let c = CellInfo::new("a\rb", &CharCountWidth);
    assert_eq!(c.count_lines(), 1);
    assert_eq!(c.get_line(0), "a\rb");
    assert_eq!(c.width(&CharCountWidth), 3);
}

#[test]
fn trailing_line_feed_yields_a_final_empty_line() {
    let c = CellInfo::new("a\n", &CharCountWidth);
    assert_eq!(c.count_lines(), 2);
    assert_eq!(c.get_line(0), "a");
    assert_eq!(c.get_line(1), "");
    assert_eq!(c.width(&CharCountWidth), 1);
}

#[test]
fn wide_characters_count_one_column_under_char_count() {
    let c = CellInfo::new("日本語", &CharCountWidth);
    assert_eq!(c.count_lines(), 1);
    assert_eq!(c.width(&CharCountWidth), 3);
}

#[test]
fn set_replaces_text_and_update_remeasures() {
    let mut c = CellInfo::new("x", &CharCountWidth);
    c.set(String::from("ab\ncdef"));
    assert_eq!(c.as_ref(), "ab\ncdef");
    c.update(&CharCountWidth);
    assert_eq!(c.count_lines(), 2);
    assert_eq!(c.get_line(1), "cdef");
    assert_eq!(c.width(&CharCountWidth), 4);
}

#[test]
fn create_cell_info_matches_new() {
    let c = create_cell_info("one\ntwo", &CharCountWidth);
    assert_eq!(c.count_lines(), 2);
    assert_eq!(c.get_line(0), "one");
    assert_eq!(c.width(&CharCountWidth), 3);
}

#[test]
fn update_cell_info_recomputes_from_scratch() {
    let mut c = CellInfo::new("short", &CharCountWidth);
    c.set(String::from("longer text"));
    update_cell_info(&mut c, &CharCountWidth);
    assert_eq!(c.count_lines(), 1);
    assert_eq!(c.width(&CharCountWidth), 11);
}

#[test]
fn str_with_width_keeps_its_fields() {
    let s = StrWithWidth::new(String::from("ab"), 2);
    assert_eq!(s.text, "ab");
    assert_eq!(s.width, 2);
}

#[test]
fn split_str_lines_splits_on_universal_breaks() {
    let parts = split_str_lines("a\r\nbb\nc");
    assert_eq!(parts, vec![String::from("a"), String::from("bb"), String::from("c")]);
    let whole = split_str_lines("");
    assert_eq!(whole, vec![String::from("")]);
}
