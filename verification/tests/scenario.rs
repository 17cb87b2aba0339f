use csv_columns::error::StructuralError;
use csv_columns::parse::{parse, tabulate};
use csv_columns::render::render;

const SAMPLE: &str = "year,make,model,description
1948,Porsche,356,Luxury sports car
1967,Ford,Mustang fastback 1967,American car";

fn names_of(table: &csv_columns::table::Table) -> Vec<String> {
    (0..table.len()).map(|i| table.name(i).to_string()).collect()
}

#[test]
fn sample_columns_by_name() {
    let table = parse(SAMPLE.as_bytes()).unwrap();
    assert_eq!(table.get("year"), Some(&vec![Some(1948), Some(1967)]));
    assert_eq!(table.get("make"), Some(&vec![None, None]));
    assert_eq!(table.get("model"), Some(&vec![Some(356), None]));
    assert_eq!(table.get("description"), Some(&vec![None, None]));
    assert_eq!(table.get("colour"), None);
}

#[test]
fn sample_keys_are_the_header_names_in_sorted_order() {
    let table = parse(SAMPLE.as_bytes()).unwrap();
    assert_eq!(names_of(&table), vec!["description", "make", "model", "year"]);
}

#[test]
fn sample_printed_form() {
    let table = parse(SAMPLE.as_bytes()).unwrap();
    let lines = render(&table);
    assert_eq!(
        lines,
        vec![
            "[description]",
            "None",
            "None",
            "[make]",
            "None",
            "None",
            "[model]",
            "356",
            "None",
            "[year]",
            "1948",
            "1967",
        ]
    );
    let year = lines.iter().position(|line| line == "[year]").unwrap();
    assert_eq!(&lines[year..], ["[year]", "1948", "1967"]);
}

#[test]
fn header_alone_gives_empty_columns() {
    let table = parse(b"a,b,c\n").unwrap();
    assert_eq!(names_of(&table), vec!["a", "b", "c"]);
    for i in 0..table.len() {
        assert!(table.column(i).is_empty());
    }
    assert_eq!(render(&table), vec!["[a]", "[b]", "[c]"]);
}

#[test]
fn rows_keep_their_order() {
    let table = parse(b"n,m\n3,a\n1,b\n2,c\n1,d\n").unwrap();
    assert_eq!(table.get("n"), Some(&vec![Some(3), Some(1), Some(2), Some(1)]));
    assert_eq!(table.get("m"), Some(&vec![None, None, None, None]));
}

#[test]
fn numbers_in_range_are_read() {
    let table = parse(
        b"v\n1967\n0\n-1\n+5\n-0\n007\n9223372036854775807\n-9223372036854775808\n",
    )
    .unwrap();
    assert_eq!(
        table.get("v"),
        Some(&vec![
            Some(1967),
            Some(0),
            Some(-1),
            Some(5),
            Some(0),
            Some(7),
            Some(i64::MAX),
            Some(i64::MIN),
        ])
    );
}

#[test]
fn other_cells_are_missing() {
    let cells = [
        "Porsche",
        "",
        "99999999999999999999",
        "9223372036854775808",
        "-9223372036854775809",
        " 1",
        "1 ",
        "1.0",
        "1e3",
        "+",
        "-",
        "--1",
        "0x10",
    ];
    let mut text = String::from("v,w\n");
    for cell in cells {
        text.push_str(cell);
        text.push_str(",x\n");
    }
    let table = parse(text.as_bytes()).unwrap();
    assert_eq!(table.get("v"), Some(&vec![None; 13]));
    assert_eq!(table.get("w"), Some(&vec![None; 13]));
}

#[test]
fn unreadable_cells_never_fail_the_reading() {
    let table = parse(b"a\nx\n\xe2\x82\xac\n12\n").unwrap();
    assert_eq!(table.get("a"), Some(&vec![None, None, Some(12)]));
}

#[test]
fn no_record_is_a_structural_error() {
    assert_eq!(parse(b"").unwrap_err(), StructuralError::MissingHeader);
    assert_eq!(parse(b"\n\r\n\n").unwrap_err(), StructuralError::MissingHeader);
    assert_eq!(parse(b"\xef\xbb\xbf").unwrap_err(), StructuralError::MissingHeader);
}

#[test]
fn unterminated_quote_is_a_structural_error() {
    assert_eq!(parse(b"a,b\n1,\"2\n").unwrap_err(), StructuralError::UnterminatedQuote);
    assert_eq!(parse(b"a\n\"1\n").unwrap_err(), StructuralError::UnterminatedQuote);
    assert_eq!(parse(b"\"a").unwrap_err(), StructuralError::UnterminatedQuote);
    assert_eq!(parse(b"a\n\"x\"\"").unwrap_err(), StructuralError::UnterminatedQuote);
    assert_eq!(parse(b"\xef\xbb\xbf\"a,b\n1,2\n").unwrap_err(), StructuralError::UnterminatedQuote);
}

#[test]
fn invalid_text_is_a_structural_error() {
    assert_eq!(parse(b"a,b\n1,\xff\n").unwrap_err(), StructuralError::Malformed);
    assert_eq!(parse(b"a,\xff\n1,2\n").unwrap_err(), StructuralError::Malformed);
    assert_eq!(parse(b"a\n1\n\xc3\n2\n").unwrap_err(), StructuralError::Malformed);
}

#[test]
fn the_open_quote_is_reported_first() {
    assert_eq!(parse(b"a\n\xff\n\"").unwrap_err(), StructuralError::UnterminatedQuote);
}

#[test]
fn quoted_fields_are_one_field() {
    let table = parse(b"\"a,b\",\"c\"\"d\",\"e\nf\"\n\"1\",2,\"3\"\n\"4,4\",\"5\n\",6\n").unwrap();
    assert_eq!(names_of(&table), vec!["a,b", "c\"d", "e\nf"]);
    assert_eq!(table.get("a,b"), Some(&vec![Some(1), None]));
    assert_eq!(table.get("c\"d"), Some(&vec![Some(2), None]));
    assert_eq!(table.get("e\nf"), Some(&vec![Some(3), Some(6)]));
}

#[test]
fn a_quote_inside_a_bare_field_is_an_ordinary_byte() {
    let table = parse(b"a\"b,c\n1,2\"\n").unwrap();
    assert_eq!(names_of(&table), vec!["a\"b", "c"]);
    assert_eq!(table.get("a\"b"), Some(&vec![Some(1)]));
    assert_eq!(table.get("c"), Some(&vec![None]));
}

#[test]
fn line_ends_of_every_kind_and_blank_lines() {
    let table = parse(b"a,b\r\n1,2\r3,4\n\n\n5,6").unwrap();
    assert_eq!(table.get("a"), Some(&vec![Some(1), Some(3), Some(5)]));
    assert_eq!(table.get("b"), Some(&vec![Some(2), Some(4), Some(6)]));
}

#[test]
fn a_byte_order_mark_is_no_part_of_the_first_name() {
    let table = parse(b"\xef\xbb\xbfa,b\n1,2\n").unwrap();
    assert_eq!(names_of(&table), vec!["a", "b"]);
    assert_eq!(table.get("a"), Some(&vec![Some(1)]));
}

#[test]
fn a_long_row_loses_its_extra_cells() {
    let table = parse(b"a,b\n1,2,3,4\n5,6\n").unwrap();
    assert_eq!(names_of(&table), vec!["a", "b"]);
    assert_eq!(table.get("a"), Some(&vec![Some(1), Some(5)]));
    assert_eq!(table.get("b"), Some(&vec![Some(2), Some(6)]));
}

#[test]
fn a_short_row_leaves_later_columns_shorter() {
    let table = parse(b"a,b,c\n1\n2,3\n4,5,6\n").unwrap();
    assert_eq!(table.get("a"), Some(&vec![Some(1), Some(2), Some(4)]));
    assert_eq!(table.get("b"), Some(&vec![Some(3), Some(5)]));
    assert_eq!(table.get("c"), Some(&vec![Some(6)]));
}

#[test]
fn columns_that_share_a_name_are_one_column() {
    let table = parse(b"a,b,a\n1,2,3\n4,5,x\n").unwrap();
    assert_eq!(names_of(&table), vec!["a", "b"]);
    assert_eq!(table.get("a"), Some(&vec![Some(1), Some(3), Some(4), None]));
    assert_eq!(table.get("b"), Some(&vec![Some(2), Some(5)]));
}

#[test]
fn keys_follow_the_order_of_str() {
    let table = parse("b,B,\u{e9},a,Z,\u{20ac},ab,1\n".as_bytes()).unwrap();
    let mut expected = vec!["b", "B", "\u{e9}", "a", "Z", "\u{20ac}", "ab", "1"];
    expected.sort();
    assert_eq!(names_of(&table), expected);
}

#[test]
fn tabulate_takes_the_first_record_as_header() {
    let records: Vec<Vec<String>> = vec![
        vec!["year".to_string(), "make".to_string()],
        vec!["1948".to_string(), "Porsche".to_string()],
        vec!["1967".to_string(), "Ford".to_string()],
    ];
    let table = tabulate(&records).unwrap();
    assert_eq!(names_of(&table), vec!["make", "year"]);
    assert_eq!(table.get("year"), Some(&vec![Some(1948), Some(1967)]));
    assert_eq!(table.get("make"), Some(&vec![None, None]));
}

#[test]
fn tabulate_without_records_has_no_header() {
    let records: Vec<Vec<String>> = Vec::new();
    assert_eq!(tabulate(&records).unwrap_err(), StructuralError::MissingHeader);
}

#[test]
fn tabulate_with_an_empty_header_gives_an_empty_table() {
    let records: Vec<Vec<String>> = vec![vec![], vec!["1".to_string()]];
    let table = tabulate(&records).unwrap();
    assert_eq!(table.len(), 0);
    assert!(render(&table).is_empty());
}

#[test]
fn each_error_has_its_sentence() {
    assert_eq!(StructuralError::MissingHeader.message(), "the input has no header row");
    assert_eq!(
        StructuralError::UnterminatedQuote.message(),
        "the input ends inside a quoted field"
    );
    assert_eq!(
        StructuralError::Malformed.message(),
        "the input holds a record that cannot be read"
    );
}
