use colproj::parser::insert_column;
use colproj::parser::parse_columns;
use colproj::parser::parse_number;
use colproj::parser::parse_reorder;
use colproj::ParseError;

fn b(s: &str) -> Vec<u8> {
    s.as_bytes().to_vec()
}

#[test]
fn parse_number_basic() {
    assert_eq!(parse_number(&b("123")), Ok(123));
    assert_eq!(parse_number(&b("7")), Ok(7));
    assert_eq!(parse_number(&b("0")), Ok(0));
    assert_eq!(parse_number(&b("007")), Ok(7));
}

#[test]
fn parse_number_rejects_non_numbers() {
    assert_eq!(parse_number(&b("")), Err(ParseError::InvalidNumber));
    assert_eq!(parse_number(&b("abc")), Err(ParseError::InvalidNumber));
    assert_eq!(parse_number(&b("1a")), Err(ParseError::InvalidNumber));
    assert_eq!(parse_number(&b("-1")), Err(ParseError::InvalidNumber));
    assert_eq!(parse_number(&b("1 ")), Err(ParseError::InvalidNumber));
}

#[test]
fn parse_number_rejects_overflow() {
    assert_eq!(
        parse_number(&b("99999999999999999999999999")),
        Err(ParseError::InvalidNumber)
    );
}

#[test]
fn insert_column_grows_and_marks() {
    let mut bitmap: Vec<usize> = Vec::new();
    insert_column(&mut bitmap, 3);
    assert_eq!(bitmap, vec![0, 0, 1]);
    insert_column(&mut bitmap, 1);
    assert_eq!(bitmap, vec![1, 0, 1]);
    insert_column(&mut bitmap, 3);
    assert_eq!(bitmap, vec![1, 0, 1]);
}

#[test]
fn parse_columns_numbers() {
    assert_eq!(parse_columns(&b("1,3")), Ok(vec![1, 0, 1]));
    assert_eq!(parse_columns(&b("2")), Ok(vec![0, 1]));
}

#[test]
fn parse_columns_ranges() {
    assert_eq!(parse_columns(&b("2-4")), Ok(vec![0, 1, 1, 1]));
    assert_eq!(parse_columns(&b("1,3-5")), Ok(vec![1, 0, 1, 1, 1]));
    assert_eq!(parse_columns(&b("3-3")), Ok(vec![0, 0, 1]));
}

#[test]
fn parse_columns_reversed_range_selects_nothing() {
    assert_eq!(parse_columns(&b("5-3")), Ok(vec![]));
    assert_eq!(parse_columns(&b("5-3,2")), Ok(vec![0, 1]));
}

#[test]
fn parse_columns_rejects_zero_column() {
    assert_eq!(parse_columns(&b("0")), Err(ParseError::InvalidColumn));
    assert_eq!(parse_columns(&b("1,0")), Err(ParseError::InvalidColumn));
    assert_eq!(parse_columns(&b("0-2")), Err(ParseError::InvalidColumn));
}

#[test]
fn parse_columns_rejects_non_numbers() {
    assert_eq!(parse_columns(&b("abc")), Err(ParseError::InvalidNumber));
    assert_eq!(parse_columns(&b("1,x")), Err(ParseError::InvalidNumber));
    assert_eq!(parse_columns(&b("")), Err(ParseError::InvalidNumber));
    assert_eq!(parse_columns(&b("1,")), Err(ParseError::InvalidNumber));
    assert_eq!(parse_columns(&b("a-2")), Err(ParseError::InvalidNumber));
    assert_eq!(parse_columns(&b("-")), Err(ParseError::InvalidNumber));
}

#[test]
fn parse_columns_rejects_malformed_ranges() {
    assert_eq!(parse_columns(&b("1-2-3")), Err(ParseError::InvalidRange));
}

#[test]
fn parse_columns_first_error_wins() {
    // The non-number in the first token is reported, not the zero after it.
    assert_eq!(parse_columns(&b("abc,0")), Err(ParseError::InvalidNumber));
    assert_eq!(parse_columns(&b("0,abc")), Err(ParseError::InvalidColumn));
}

#[test]
fn parse_reorder_keeps_order_and_repeats() {
    assert_eq!(parse_reorder(&b("3,1,3")), Ok(vec![3, 1, 3]));
    assert_eq!(parse_reorder(&b("2")), Ok(vec![2]));
}

#[test]
fn parse_reorder_rejects_ranges() {
    assert_eq!(parse_reorder(&b("1-3")), Err(ParseError::InvalidNumber));
}

#[test]
fn parse_reorder_rejects_zero_and_non_numbers() {
    assert_eq!(parse_reorder(&b("0")), Err(ParseError::InvalidColumn));
    assert_eq!(parse_reorder(&b("1,0")), Err(ParseError::InvalidColumn));
    assert_eq!(parse_reorder(&b("x")), Err(ParseError::InvalidNumber));
    assert_eq!(parse_reorder(&b("")), Err(ParseError::InvalidNumber));
}
