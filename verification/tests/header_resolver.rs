use csv::StringRecord;
use csv_join::{find_key_position, key_not_found_message, resolve_key, JoinError, Side};

fn record(fields: &[&str]) -> StringRecord {
    StringRecord::from(fields.to_vec())
}

#[test]
fn key_is_found_at_its_position() {
    let header = record(&["id", "name", "age"]);
    assert_eq!(find_key_position(&header, "id").unwrap(), 0);
    assert_eq!(find_key_position(&header, "name").unwrap(), 1);
    assert_eq!(find_key_position(&header, "age").unwrap(), 2);
}

#[test]
fn first_of_several_equal_fields_is_found() {
    let header = record(&["a", "k", "b", "k", "k"]);
    assert_eq!(find_key_position(&header, "k").unwrap(), 1);
}

#[test]
fn key_match_is_case_sensitive() {
    let header = record(&["ID", "Id", "id"]);
    assert_eq!(find_key_position(&header, "id").unwrap(), 2);
    assert!(find_key_position(&header, "iD").is_err());
}

#[test]
fn key_match_does_not_trim() {
    let header = record(&[" id", "id ", "name"]);
    assert!(find_key_position(&header, "id").is_err());
    assert_eq!(find_key_position(&header, "id ").unwrap(), 1);
}

#[test]
fn empty_key_matches_an_empty_field_only() {
    let header = record(&["id", "", "name"]);
    assert_eq!(find_key_position(&header, "").unwrap(), 1);
    assert!(find_key_position(&record(&["id", "name"]), "").is_err());
}

#[test]
fn key_is_not_found_in_an_empty_header() {
    let header = StringRecord::new();
    let missing = find_key_position(&header, "id").unwrap_err();
    assert_eq!(missing.key, "id");
    assert_eq!(missing.header.len(), 0);
}

#[test]
fn missing_key_error_carries_key_and_whole_header() {
    let header = record(&["id", "name"]);
    let missing = find_key_position(&header, "zip").unwrap_err();
    assert_eq!(missing.key, "zip");
    assert_eq!(missing.header, header);
}

#[test]
fn missing_key_message_names_key_and_shows_header() {
    let header = record(&["id", "name"]);
    let missing = find_key_position(&header, "zip").unwrap_err();
    assert_eq!(
        missing.message(),
        "Key 'zip' not found in StringRecord([\"id\", \"name\"])"
    );
}

#[test]
fn missing_key_message_for_an_empty_header() {
    let missing = find_key_position(&StringRecord::new(), "k").unwrap_err();
    assert_eq!(missing.message(), "Key 'k' not found in StringRecord([])");
}

#[test]
fn message_is_put_together_from_key_and_header_text() {
    assert_eq!(
        key_not_found_message("id", "[a, b]"),
        "Key 'id' not found in [a, b]"
    );
    assert_eq!(key_not_found_message("", ""), "Key '' not found in ");
}

#[test]
fn key_positions_of_the_two_datasets_are_independent() {
    let primary = record(&["id", "name"]);
    let secondary = record(&["age", "city", "id"]);
    assert_eq!(resolve_key(Side::Primary, &primary, "id").unwrap(), 0);
    assert_eq!(resolve_key(Side::Secondary, &secondary, "id").unwrap(), 2);
}

#[test]
fn resolve_key_names_the_dataset_that_lacks_the_key() {
    let header = record(&["id", "name"]);
    match resolve_key(Side::Secondary, &header, "zip") {
        Err(JoinError::KeyNotFound { side, key, header: shown }) => {
            assert_eq!(side, Side::Secondary);
            assert_eq!(key, "zip");
            assert_eq!(shown, header);
        }
        other => panic!("unexpected result: {:?}", other),
    }
    match resolve_key(Side::Primary, &header, "zip") {
        Err(JoinError::KeyNotFound { side, .. }) => assert_eq!(side, Side::Primary),
        other => panic!("unexpected result: {:?}", other),
    }
}
