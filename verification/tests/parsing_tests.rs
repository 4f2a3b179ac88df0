use table::parse_dsv;
use table::Entry::{Nil, Num, Obj};
use table::Table;

fn parse(delimiter: char, data: &str) -> Table<&str> {
    parse_dsv(delimiter, data)
}

fn all_str(rows: Vec<Vec<&str>>) -> Table<&str> {
    let mut repr: Table<&str> = Table::new();
    repr.add_rows(
        rows.into_iter()
            .map(|x| x.into_iter().map(Obj).collect())
            .collect(),
    );
    repr
}

#[test]
fn empty() {
    let s = "";
    assert_eq!(parse(',', s), Table::new());
    let s = "   \t    \t    \n       ";
    let mut repr = Table::new();
    repr.add_row(vec![Nil]);
    repr.add_row(vec![Nil]);
    assert_eq!(parse(',', s), repr);
}

#[test]
fn simple() {
    let repr = all_str(vec![
        vec!["dog", "cat", "mouse"],
        vec!["lion", "hyena", "elephant"],
    ]);

    let s = "dog,cat,mouse
lion,hyena,elephant";
    assert_eq!(parse(',', s), repr);

    let s = "dog|cat|mouse
lion|hyena|elephant";
    assert_eq!(parse('|', s), repr);

    let s = "dog cat mouse
lion hyena elephant";
    assert_eq!(parse(' ', s), repr);
}

#[test]
fn numbers() {
    let mut repr = Table::new();
    repr.add_row(vec![Num(1.into()), Num((-2i8).into())]);
    repr.add_row(vec![Num(3.14e7.into()), Num((-1.1).into())]);

    let s = " 1 ,  -2   
   3.14e7   , -1.1  ";
    assert_eq!(parse(',', s), repr);
}

#[test]
fn test_blanks() {
    let s = "Hello,,world

        whats,,up

        ";

    let mut repr = Table::new();
    repr.add_rows(vec![
        vec![Obj("Hello".into()), Nil, Obj("world".into())],
        vec![],
        vec![Obj("whats".into()), Nil, Obj("up".into())],
        vec![],
        vec![],
    ]);

    assert_eq!(parse(',', s), repr);
}

#[test]
fn complex() {
    let s = r#""Hello, world!", 101, , "Nested " Quote"
        1,2
        ,,,     "last""#;

    let mut repr = Table::new();
    repr.add_rows(vec![
        vec![
            Obj("Hello, world!".into()),
            Num(101.into()),
            Nil,
            Obj("Nested \" Quote".into()),
        ],
        vec![Num(1.into()), Num(2.into())],
        vec![Nil, Nil, Nil, Obj("last".into())],
    ]);

    assert_eq!(parse(',', s), repr);
}

#[test]
fn leading_blanks() {
    let s = ",Missing,Heading
,One,
Two,Three,Four";
    let mut table = Table::new();
    let o = |i| Obj(i);
    table.add_rows(vec![
        vec![Nil, o("Missing"), o("Heading")],
        vec![Nil, o("One"), Nil],
        vec![o("Two"), o("Three"), o("Four")],
    ]);

    assert_eq!(parse(',', s), table);
}

#[test]
fn quoted_new_lines() {
    let s = "\"Hello
world\",Yo";
    let mut table = Table::new();
    let o = |i| Obj(i);
    table.add_rows(vec![vec![o("Hello\nworld"), o("Yo")]]);

    assert_eq!(parse(',', s), table);

    let s = "\"Hello\r\nworld\",Yo";
    let mut table = Table::new();
    let o = |i| Obj(i);
    table.add_rows(vec![vec![o("Hello\r\nworld"), o("Yo")]]);

    assert_eq!(parse(',', s), table);
}

#[test]
fn numeric_classification() {
    let t = parse(',', "3.14e7");
    assert_eq!(t.rows_len(), 1);
    assert_eq!(t.cols_len(), 1);
    assert_eq!(t.data[0][0], Num(3.14e7.into()));

    let t = parse(',', "abc");
    assert_eq!(t.data[0][0], Obj("abc"));

    // an empty field classifies as Nil
    let t = parse(',', ",abc");
    assert_eq!(t.data[0], vec![Nil, Obj("abc")]);
}

#[test]
fn quote_containment() {
    // the quoted field contains the delimiter and stays one cell
    let t = parse(',', "\"Hello, world!\"");
    assert_eq!(t.rows_len(), 1);
    assert_eq!(t.cols_len(), 1);
    assert_eq!(t.data[0][0], Obj("Hello, world!"));
}

#[test]
fn line_priority() {
    // once the opening quote has been matched, a later quote does not
    // resume quoting, so the newline still ends the row
    let t = parse(',', "\"Nested \" Quote\"\nnext");
    let mut repr = Table::new();
    repr.add_rows(vec![vec![Obj("Nested \" Quote")], vec![Obj("next")]]);
    assert_eq!(t, repr);
}

#[test]
fn unicode_trailing_whitespace_trimmed() {
    // trailing trim covers the whole White_Space set, while leading skip
    // is ASCII only
    let t = parse(',', "abc\u{a0}\u{2003},x");
    assert_eq!(t.data[0], vec![Obj("abc"), Obj("x")]);
}

#[test]
fn carriage_return_alone_ends_row() {
    let t = parse(',', "a\rb");
    let mut repr = Table::new();
    repr.add_rows(vec![vec![Obj("a")], vec![Obj("b")]]);
    assert_eq!(t, repr);
}
