use colproj::delimiter_from_option;
use colproj::resolver::resolve_fields;
use colproj::selector::project_reorder;
use colproj::ConfigError;
use colproj::ResolutionError;

fn row(fields: &[&str]) -> Vec<Vec<u8>> {
    fields.iter().map(|f| f.as_bytes().to_vec()).collect()
}

#[test]
fn resolves_names_in_request_order() {
    let header = row(&["a", "b", "c"]);
    let fields = row(&["b", "a"]);
    let resolved = resolve_fields(&header, &fields).unwrap();
    assert_eq!(resolved.columns, vec![2, 1]);
    assert_eq!(resolved.header_out, row(&["b", "a"]));
    let data = row(&["1", "2", "3"]);
    assert_eq!(
        project_reorder(&resolved.columns, &data),
        Ok(row(&["2", "1"]))
    );
}

#[test]
fn unknown_field_is_fatal() {
    let header = row(&["a", "b"]);
    let fields = row(&["a", "x", "b"]);
    assert_eq!(
        resolve_fields(&header, &fields),
        Err(ResolutionError::UnknownField(b"x".to_vec()))
    );
}

#[test]
fn duplicate_header_name_last_occurrence_wins() {
    let header = row(&["a", "b", "a"]);
    let fields = row(&["a", "b"]);
    let resolved = resolve_fields(&header, &fields).unwrap();
    assert_eq!(resolved.columns, vec![3, 2]);
}

#[test]
fn repeated_request_is_allowed() {
    let header = row(&["a", "b"]);
    let fields = row(&["b", "b"]);
    let resolved = resolve_fields(&header, &fields).unwrap();
    assert_eq!(resolved.columns, vec![2, 2]);
    assert_eq!(resolved.header_out, row(&["b", "b"]));
}

#[test]
fn empty_request_resolves_to_nothing() {
    let header = row(&["a", "b"]);
    let fields = row(&[]);
    let resolved = resolve_fields(&header, &fields).unwrap();
    assert_eq!(resolved.columns, vec![]);
    assert_eq!(resolved.header_out, row(&[]));
}

#[test]
fn default_delimiter_is_comma() {
    assert_eq!(delimiter_from_option(&None), Ok(b','));
}

#[test]
fn single_byte_delimiter_is_taken() {
    assert_eq!(delimiter_from_option(&Some(b";".to_vec())), Ok(b';'));
}

#[test]
fn delimiter_must_be_one_byte() {
    assert_eq!(
        delimiter_from_option(&Some(b"ab".to_vec())),
        Err(ConfigError::BadDelimiter)
    );
    assert_eq!(
        delimiter_from_option(&Some(Vec::new())),
        Err(ConfigError::BadDelimiter)
    );
}
