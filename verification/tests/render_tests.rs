use papergrid::CellInfo;
use papergrid::CharCountWidth;
use papergrid::Orientation;
use papergrid::Style;
use papergrid::Value;
use papergrid::WidthFunc;
use papergrid::build_grid;
use papergrid::render;

fn plain_style() -> Style {
    Style { horizontal: '-', vertical: '|', intersection: '+', padding: 1 }
}

fn scalar(s: &str) -> Value {
    Value::Scalar(String::from(s))
}

fn hello_world_seq() -> Value {
    Value::Sequence(vec![scalar("Hello"), scalar("World")])
}

fn map_with_nested_seq() -> Value {
    Value::Mapping(vec![
        (String::from("Hello Key"), scalar("World Value")),
        (String::from("Hello Key 2"), hello_world_seq()),
    ])
}

#[test]
fn test_string() {
    let v = scalar("123456789");
    let out = render(&v, Orientation::Column, Orientation::Column, &plain_style(), &CharCountWidth);
    assert_eq!(
        out,
        "+-----------+\n\
         | 123456789 |\n\
         +-----------+",
    );
}

#[test]
fn test_sequence_0() {
    let v = Value::Sequence(vec![scalar("Hello"), scalar("World")]);
    let out = render(&v, Orientation::Column, Orientation::Column, &plain_style(), &CharCountWidth);
    assert_eq!(
        out,
        "+---------+\n\
         |  Hello  |\n\
         +---------+\n\
         |  World  |\n\
         +---------+",
    );
}

#[test]
fn test_sequence_0_row() {
    let v = Value::Sequence(vec![scalar("Hello"), scalar("World")]);
    let out = render(&v, Orientation::Row, Orientation::Column, &plain_style(), &CharCountWidth);
    assert_eq!(
        out,
        "+---------+---------+\n\
         |  Hello  |  World  |\n\
         +---------+---------+",
    );
}

#[test]
fn test_sequence_1() {
    let v = Value::Sequence(vec![
        hello_world_seq(),
        scalar("Hello"),
        hello_world_seq(),
        scalar("World"),
        hello_world_seq(),
    ]);
    let out = render(&v, Orientation::Column, Orientation::Column, &plain_style(), &CharCountWidth);
    assert_eq!(
        out,
        "+-------------+\n\
         | +---------+ |\n\
         | |  Hello  | |\n\
         | +---------+ |\n\
         | |  World  | |\n\
         | +---------+ |\n\
         +-------------+\n\
         |  Hello      |\n\
         +-------------+\n\
         | +---------+ |\n\
         | |  Hello  | |\n\
         | +---------+ |\n\
         | |  World  | |\n\
         | +---------+ |\n\
         +-------------+\n\
         |  World      |\n\
         +-------------+\n\
         | +---------+ |\n\
         | |  Hello  | |\n\
         | +---------+ |\n\
         | |  World  | |\n\
         | +---------+ |\n\
         +-------------+",
    );
}

#[test]
fn test_sequence_1_row() {
    let v = Value::Sequence(vec![
        hello_world_seq(),
        scalar("Hello"),
        hello_world_seq(),
        scalar("World"),
        hello_world_seq(),
    ]);
    let out = render(&v, Orientation::Row, Orientation::Column, &plain_style(), &CharCountWidth);
    assert_eq!(
        out,
        "+-----------------------+---------+-----------------------+---------+-----------------------+\n\
         | +---------+---------+ |  Hello  | +---------+---------+ |  World  | +---------+---------+ |\n\
         | |  Hello  |  World  | |         | |  Hello  |  World  | |         | |  Hello  |  World  | |\n\
         | +---------+---------+ |         | +---------+---------+ |         | +---------+---------+ |\n\
         +-----------------------+---------+-----------------------+---------+-----------------------+",
    );
}

#[test]
fn test_map_0() {
    let v = Value::Mapping(vec![
        (String::from("Hello Key"), scalar("World Value")),
        (String::from("Hello Key 2"), scalar("Value 1")),
    ]);
    let out = render(&v, Orientation::Column, Orientation::Column, &plain_style(), &CharCountWidth);
    assert_eq!(
        out,
        "+-------------+---------------+\n\
         | Hello Key   |  World Value  |\n\
         +-------------+---------------+\n\
         | Hello Key 2 |  Value 1      |\n\
         +-------------+---------------+",
    );
}

#[test]
fn test_map_0_row() {
    let v = Value::Mapping(vec![
        (String::from("Hello Key"), scalar("World Value")),
        (String::from("Hello Key 2"), scalar("Value 1")),
    ]);
    let out = render(&v, Orientation::Row, Orientation::Row, &plain_style(), &CharCountWidth);
    assert_eq!(
        out,
        "+---------------+-------------+\n\
         | Hello Key     | Hello Key 2 |\n\
         +---------------+-------------+\n\
         |  World Value  |  Value 1    |\n\
         +---------------+-------------+",
    );
}

#[test]
fn test_map_1() {
    let v = Value::Mapping(vec![
        (String::from("Hello Key"), scalar("World Value")),
        (String::from("Hello Key 2"), Value::Sequence(vec![scalar("Hello"), scalar("World")])),
    ]);
    let out = render(&v, Orientation::Column, Orientation::Column, &plain_style(), &CharCountWidth);
    assert_eq!(
        out,
        "+-------------+---------------+\n\
         | Hello Key   |  World Value  |\n\
         +-------------+---------------+\n\
         | Hello Key 2 | +---------+   |\n\
         |             | |  Hello  |   |\n\
         |             | +---------+   |\n\
         |             | |  World  |   |\n\
         |             | +---------+   |\n\
         +-------------+---------------+",
    );
}

#[test]
fn test_map_1_row() {
    let v = Value::Mapping(vec![
        (String::from("Hello Key"), scalar("World Value")),
        (String::from("Hello Key 2"), Value::Sequence(vec![scalar("Hello"), scalar("World")])),
    ]);
    let out = render(&v, Orientation::Row, Orientation::Row, &plain_style(), &CharCountWidth);
    assert_eq!(
        out,
        "+---------------+-----------------------+\n\
         | Hello Key     | Hello Key 2           |\n\
         +---------------+-----------------------+\n\
         |  World Value  | +---------+---------+ |\n\
         |               | |  Hello  |  World  | |\n\
         |               | +---------+---------+ |\n\
         +---------------+-----------------------+",
    );
}

#[test]
fn test_map_1_row_column() {
    let v = Value::Mapping(vec![
        (String::from("Hello Key"), scalar("World Value")),
        (String::from("Hello Key 2"), Value::Sequence(vec![scalar("Hello"), scalar("World")])),
    ]);
    let out = render(&v, Orientation::Column, Orientation::Row, &plain_style(), &CharCountWidth);
    assert_eq!(
        out,
        "+---------------+-------------+\n\
         | Hello Key     | Hello Key 2 |\n\
         +---------------+-------------+\n\
         |  World Value  | +---------+ |\n\
         |               | |  Hello  | |\n\
         |               | +---------+ |\n\
         |               | |  World  | |\n\
         |               | +---------+ |\n\
         +---------------+-------------+",
    );
}

#[test]
fn test_sequence_row_column() {
    let v = Value::Sequence(vec![
        map_with_nested_seq(),
        scalar("Hello Key 2"),
        scalar("Hello"),
        Value::Sequence(vec![scalar("Wold"), scalar("Wod"), scalar("Wo"), scalar("Wo")]),
    ]);
    let out = render(&v, Orientation::Column, Orientation::Row, &plain_style(), &CharCountWidth);
    assert_eq!(
        out,
        "+---------------------------------+\n\
         | +---------------+-------------+ |\n\
         | | Hello Key     | Hello Key 2 | |\n\
         | +---------------+-------------+ |\n\
         | |  World Value  | +---------+ | |\n\
         | |               | |  Hello  | | |\n\
         | |               | +---------+ | |\n\
         | |               | |  World  | | |\n\
         | |               | +---------+ | |\n\
         | +---------------+-------------+ |\n\
         +---------------------------------+\n\
         |  Hello Key 2                    |\n\
         +---------------------------------+\n\
         |  Hello                          |\n\
         +---------------------------------+\n\
         | +--------+                      |\n\
         | |  Wold  |                      |\n\
         | +--------+                      |\n\
         | |  Wod   |                      |\n\
         | +--------+                      |\n\
         | |  Wo    |                      |\n\
         | +--------+                      |\n\
         | |  Wo    |                      |\n\
         | +--------+                      |\n\
         +---------------------------------+",
    );
}

#[test]
fn test_sequence_row_column_1() {
    let v = Value::Sequence(vec![
        map_with_nested_seq(),
        scalar("Hello Key 2"),
        scalar("Hello"),
        Value::Sequence(vec![scalar("Wold"), scalar("Wod"), scalar("Wo"), scalar("Wo")]),
    ]);
    let out = render(&v, Orientation::Row, Orientation::Column, &plain_style(), &CharCountWidth);
    assert_eq!(
        out,
        "+-----------------------------------------+---------------+---------+----------------------------------+\n\
         | +-------------+-----------------------+ |  Hello Key 2  |  Hello  | +--------+-------+------+------+ |\n\
         | | Hello Key   |  World Value          | |               |         | |  Wold  |  Wod  |  Wo  |  Wo  | |\n\
         | +-------------+-----------------------+ |               |         | +--------+-------+------+------+ |\n\
         | | Hello Key 2 | +---------+---------+ | |               |         |                                  |\n\
         | |             | |  Hello  |  World  | | |               |         |                                  |\n\
         | |             | +---------+---------+ | |               |         |                                  |\n\
         | +-------------+-----------------------+ |               |         |                                  |\n\
         +-----------------------------------------+---------------+---------+----------------------------------+",
    );
}

#[test]
fn test_sequence_row_column_2() {
    let v = Value::Sequence(vec![
        map_with_nested_seq(),
        scalar("Hello Key 2"),
        scalar("Hello"),
        Value::Sequence(vec![scalar("Wold"), scalar("Wod"), scalar("Wo"), scalar("Wo")]),
    ]);
    let out = render(&v, Orientation::Row, Orientation::Row, &plain_style(), &CharCountWidth);
    assert_eq!(
        out,
        "+-------------------------------------------+---------------+---------+----------------------------------+\n\
         | +---------------+-----------------------+ |  Hello Key 2  |  Hello  | +--------+-------+------+------+ |\n\
         | | Hello Key     | Hello Key 2           | |               |         | |  Wold  |  Wod  |  Wo  |  Wo  | |\n\
         | +---------------+-----------------------+ |               |         | +--------+-------+------+------+ |\n\
         | |  World Value  | +---------+---------+ | |               |         |                                  |\n\
         | |               | |  Hello  |  World  | | |               |         |                                  |\n\
         | |               | +---------+---------+ | |               |         |                                  |\n\
         | +---------------+-----------------------+ |               |         |                                  |\n\
         +-------------------------------------------+---------------+---------+----------------------------------+",
    );
}

#[test]
fn test_sequence_row_column_3() {
    let v = Value::Sequence(vec![
        map_with_nested_seq(),
        scalar("Hello Key 2"),
        scalar("Hello"),
        Value::Sequence(vec![scalar("Wold"), scalar("Wod"), scalar("Wo"), scalar("Wo")]),
    ]);
    let out = render(&v, Orientation::Column, Orientation::Column, &plain_style(), &CharCountWidth);
    assert_eq!(
        out,
        "+---------------------------------+\n\
         | +-------------+---------------+ |\n\
         | | Hello Key   |  World Value  | |\n\
         | +-------------+---------------+ |\n\
         | | Hello Key 2 | +---------+   | |\n\
         | |             | |  Hello  |   | |\n\
         | |             | +---------+   | |\n\
         | |             | |  World  |   | |\n\
         | |             | +---------+   | |\n\
         | +-------------+---------------+ |\n\
         +---------------------------------+\n\
         |  Hello Key 2                    |\n\
         +---------------------------------+\n\
         |  Hello                          |\n\
         +---------------------------------+\n\
         | +--------+                      |\n\
         | |  Wold  |                      |\n\
         | +--------+                      |\n\
         | |  Wod   |                      |\n\
         | +--------+                      |\n\
         | |  Wo    |                      |\n\
         | +--------+                      |\n\
         | |  Wo    |                      |\n\
         | +--------+                      |\n\
         +---------------------------------+",
    );
}

#[test]
fn rendering_twice_is_byte_identical() {
    let v = map_with_nested_seq();
    let first = render(&v, Orientation::Row, Orientation::Column, &plain_style(), &CharCountWidth);
    let second = render(&v, Orientation::Row, Orientation::Column, &plain_style(), &CharCountWidth);
    assert_eq!(first, second);
}

#[test]
fn empty_sequence_renders_as_the_empty_string() {
    let v = Value::Sequence(vec![]);
    let out = render(&v, Orientation::Row, Orientation::Row, &plain_style(), &CharCountWidth);
    assert_eq!(out, "");
}

#[test]
fn empty_map_renders_as_the_empty_string() {
    let row = render(
        &Value::Mapping(vec![]),
        Orientation::Row,
        Orientation::Row,
        &plain_style(),
        &CharCountWidth,
    );
    let column = render(
        &Value::Mapping(vec![]),
        Orientation::Row,
        Orientation::Column,
        &plain_style(),
        &CharCountWidth,
    );
    assert_eq!(row, "");
    assert_eq!(column, "");
}

#[test]
fn empty_child_adds_no_blank_column() {
    let v = Value::Sequence(vec![scalar("a"), Value::Sequence(vec![]), scalar("b")]);
    let out = render(&v, Orientation::Row, Orientation::Row, &plain_style(), &CharCountWidth);
    assert_eq!(
        out,
        "+-----+-----+\n\
         |  a  |  b  |\n\
         +-----+-----+",
    );
}

#[test]
fn multi_line_scalar_is_padded_to_its_widest_line() {
    let out = render(
        &scalar("ab\ncdef"),
        Orientation::Row,
        Orientation::Row,
        &plain_style(),
        &CharCountWidth,
    );
    assert_eq!(out, "+------+\n\
         | ab   |\n\
         | cdef |\n\
         +------+");
}

#[test]
fn zero_padding_style_draws_tight_boxes() {
    let style = Style { horizontal: '=', vertical: '!', intersection: '*', padding: 0 };
    let out = render(&scalar("ab"), Orientation::Row, Orientation::Row, &style, &CharCountWidth);
    assert_eq!(out, "*==*\n\
         !ab!\n\
         *==*");
}

#[test]
fn build_grid_pads_cells_to_column_width_and_row_height() {
    let style = plain_style();
    let cells = vec![
        vec![CellInfo::new("a", &CharCountWidth), CellInfo::new("bb", &CharCountWidth)],
        vec![CellInfo::new("ccc\nd", &CharCountWidth), CellInfo::new("e", &CharCountWidth)],
    ];
    let out = build_grid(&cells, &style, &CharCountWidth);
    assert_eq!(
        out,
        "+-----+----+\n\
         | a   | bb |\n\
         +-----+----+\n\
         | ccc | e  |\n\
         | d   |    |\n\
         +-----+----+",
    );
}

#[test]
fn build_grid_of_no_cells_renders_empty() {
    let style = plain_style();
    let none: Vec<Vec<CellInfo>> = vec![];
    assert_eq!(build_grid(&none, &style, &CharCountWidth), "");
    let no_columns: Vec<Vec<CellInfo>> = vec![vec![]];
    assert_eq!(build_grid(&no_columns, &style, &CharCountWidth), "");
}

#[test]
fn char_count_width_counts_characters() {
    assert_eq!(CharCountWidth.width("abc"), 3);
    assert_eq!(CharCountWidth.width(""), 0);
    assert_eq!(CharCountWidth.width("日本"), 2);
}

#[test]
fn scalar_alone_renders_as_a_one_row_box() {
    let out = render(
        &scalar("x"),
        Orientation::Row,
        Orientation::Row,
        &plain_style(),
        &CharCountWidth,
    );
    assert_eq!(out, "+---+\n| x |\n+---+");
}
