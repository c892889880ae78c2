use colproj::parser::parse_columns;
use colproj::parser::parse_reorder;
use colproj::selector::project_cut;
use colproj::selector::project_reorder;
use colproj::selector::ColumnSpec;
use colproj::selector::Selector;
use colproj::ProjectionError;

fn row(fields: &[&str]) -> Vec<Vec<u8>> {
    fields.iter().map(|f| f.as_bytes().to_vec()).collect()
}

#[test]
fn cut_keeps_input_order() {
    let bitmap = vec![1, 0, 1];
    let record = row(&["a", "b", "c"]);
    assert_eq!(project_cut(&bitmap, &record), row(&["a", "c"]));
}

#[test]
fn cut_bitmap_shorter_than_row_omits_tail() {
    let bitmap = vec![1];
    let record = row(&["a", "b", "c"]);
    assert_eq!(project_cut(&bitmap, &record), row(&["a"]));
}

#[test]
fn cut_bitmap_longer_than_row_never_matches_beyond() {
    let bitmap = vec![1, 0, 1, 1, 1];
    let record = row(&["a", "b"]);
    assert_eq!(project_cut(&bitmap, &record), row(&["a"]));
}

#[test]
fn cut_empty_record() {
    let bitmap = vec![1, 1];
    let record = row(&[]);
    assert_eq!(project_cut(&bitmap, &record), row(&[]));
}

#[test]
fn cut_full_range_round_trips() {
    let bitmap = parse_columns(&b"1-4"[..].to_vec()).unwrap();
    let record = row(&["a", "b", "c", "d"]);
    assert_eq!(project_cut(&bitmap, &record), record);
}

#[test]
fn cut_twice_with_covering_identity_is_idempotent() {
    let bitmap = parse_columns(&b"2,4"[..].to_vec()).unwrap();
    let record = row(&["a", "b", "c", "d", "e"]);
    let once = project_cut(&bitmap, &record);
    assert_eq!(once.len(), 2);
    let identity = parse_columns(&b"1-2"[..].to_vec()).unwrap();
    let twice = project_cut(&identity, &once);
    assert_eq!(twice, once);
}

#[test]
fn reorder_emits_exact_order_with_repeats() {
    let columns = parse_reorder(&b"3,1,3"[..].to_vec()).unwrap();
    let record = row(&["a", "b", "c"]);
    assert_eq!(project_reorder(&columns, &record), Ok(row(&["c", "a", "c"])));
}

#[test]
fn reorder_output_width_is_spec_length() {
    let columns = vec![1, 1, 1, 1];
    let record = row(&["a", "b"]);
    let out = project_reorder(&columns, &record).unwrap();
    assert_eq!(out.len(), 4);
    assert_eq!(out, row(&["a", "a", "a", "a"]));
}

#[test]
fn reorder_column_beyond_row_fails() {
    let columns = vec![2, 4];
    let record = row(&["a", "b", "c"]);
    assert_eq!(
        project_reorder(&columns, &record),
        Err(ProjectionError::ColumnOutOfRange(4))
    );
}

#[test]
fn reorder_reports_first_offending_column() {
    let columns = vec![5, 4];
    let record = row(&["a", "b", "c"]);
    assert_eq!(
        project_reorder(&columns, &record),
        Err(ProjectionError::ColumnOutOfRange(5))
    );
}

#[test]
fn selector_dispatches_cut() {
    let selector = Selector::for_cut(vec![0, 1]);
    let record = row(&["a", "b", "c"]);
    assert_eq!(selector.project(&record), Ok(row(&["b"])));
    match selector.mapping {
        ColumnSpec::Cut(bitmap) => assert_eq!(bitmap, vec![0, 1]),
        ColumnSpec::Reorder(_) => panic!("cut selector holds a cut mapping"),
    }
}

#[test]
fn selector_dispatches_reorder() {
    let selector = Selector::for_reorder(vec![2, 1]);
    let record = row(&["a", "b"]);
    assert_eq!(selector.project(&record), Ok(row(&["b", "a"])));
    let short = row(&["a"]);
    assert_eq!(
        selector.project(&short),
        Err(ProjectionError::ColumnOutOfRange(2))
    );
}

#[test]
fn same_spec_and_record_give_same_bytes() {
    let bitmap = parse_columns(&b"1,3"[..].to_vec()).unwrap();
    let record = row(&["x", "y", "z"]);
    assert_eq!(project_cut(&bitmap, &record), project_cut(&bitmap, &record));
}
