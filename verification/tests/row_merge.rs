use csv::StringRecord;
use csv_join::join_rows;

fn record(fields: &[&str]) -> StringRecord {
    StringRecord::from(fields.to_vec())
}

#[test]
fn merged_row_drops_the_key_of_the_second_row() {
    let row = join_rows(&record(&["1", "Alice"]), &record(&["1", "30"]), 0);
    assert_eq!(row, record(&["1", "Alice", "30"]));
}

#[test]
fn excluded_field_may_stand_anywhere_in_the_second_row() {
    let from = record(&["a", "b"]);
    let to = record(&["x", "y", "z"]);
    assert_eq!(join_rows(&from, &to, 0), record(&["a", "b", "y", "z"]));
    assert_eq!(join_rows(&from, &to, 1), record(&["a", "b", "x", "z"]));
    assert_eq!(join_rows(&from, &to, 2), record(&["a", "b", "x", "y"]));
}

#[test]
fn exclusion_beyond_the_second_row_keeps_all_its_fields() {
    let from = record(&["a"]);
    let to = record(&["x", "y"]);
    assert_eq!(join_rows(&from, &to, 2), record(&["a", "x", "y"]));
    assert_eq!(join_rows(&from, &to, usize::MAX), record(&["a", "x", "y"]));
}

#[test]
fn merged_row_has_one_field_less_than_both_rows_together() {
    let from = record(&["1", "Alice", "Berlin"]);
    let to = record(&["30", "1", "f", "x"]);
    let row = join_rows(&from, &to, 1);
    assert_eq!(row.len(), from.len() + to.len() - 1);
    assert_eq!(row.len(), 6);
}

#[test]
fn merging_with_empty_rows() {
    let empty = StringRecord::new();
    let some = record(&["k", "v"]);
    assert_eq!(join_rows(&empty, &empty, 0).len(), 0);
    assert_eq!(join_rows(&some, &empty, 0), some);
    assert_eq!(join_rows(&empty, &some, 0), record(&["v"]));
    assert_eq!(join_rows(&empty, &record(&["k"]), 0).len(), 0);
}

#[test]
fn merged_row_keeps_empty_and_repeated_fields() {
    let from = record(&["", "x", ""]);
    let to = record(&["x", "", "x"]);
    assert_eq!(join_rows(&from, &to, 0), record(&["", "x", "", "", "x"]));
}

#[test]
fn merged_row_keeps_fields_beyond_ascii() {
    let from = record(&["ключ", "значение"]);
    let to = record(&["ключ", "日本語", "a,b \"c\""]);
    assert_eq!(
        join_rows(&from, &to, 0),
        record(&["ключ", "значение", "日本語", "a,b \"c\""])
    );
}

#[test]
fn merging_leaves_its_arguments_unchanged() {
    let from = record(&["1", "Alice"]);
    let to = record(&["1", "30"]);
    let _ = join_rows(&from, &to, 0);
    assert_eq!(from, record(&["1", "Alice"]));
    assert_eq!(to, record(&["1", "30"]));
}
