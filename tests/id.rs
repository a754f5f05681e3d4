use todo_store::errors::DynamoDbErrors;
use todo_store::id::{Kind, ID};

const TEXT: &str = "todo#01D39ZY06FGSCTVN4T2V9PKHFZ";

#[test]
fn id_round_trip_of_new_identifier() {
    let id = ID::new("todo");
    let parsed = ID::from_string(&id.to_string()).unwrap();
    assert!(parsed == id);
    assert_eq!(parsed.kind().as_str(), "todo");
}

#[test]
fn id_round_trip_keeps_kind_with_underscore() {
    let id = ID::new("todo_list");
    let text = id.to_string();
    assert!(text.starts_with("todo_list#"));
    assert_eq!(text.len(), "todo_list".len() + 1 + 26);
    assert!(ID::from_string(&text).unwrap() == id);
}

#[test]
fn id_parses_known_text() {
    let id = ID::from_string(TEXT).unwrap();
    assert_eq!(id.kind().as_str(), "todo");
    assert_eq!(id.ulid(), 0x0168d3ff00cf8659add49a16d369c5ff);
    assert_eq!(id.to_string(), TEXT);
}

#[test]
fn id_lowercase_ulid_is_written_back_in_capitals() {
    let id = ID::from_string("todo#01d39zy06fgsctvn4t2v9pkhfz").unwrap();
    assert_eq!(id.to_string(), TEXT);
}

#[test]
fn id_without_separator_is_a_format_error() {
    let r = ID::from_string("todo01D39ZY06FGSCTVN4T2V9PKHFZ");
    assert!(matches!(r, Err(DynamoDbErrors::UnexpectedDataFormat(_))));
}

#[test]
fn id_with_bad_ulid_is_a_format_error() {
    assert!(matches!(ID::from_string("todo#xyz"), Err(DynamoDbErrors::UnexpectedDataFormat(_))));
    assert!(matches!(ID::from_string("todo#"), Err(DynamoDbErrors::UnexpectedDataFormat(_))));
}

#[test]
fn id_splits_at_first_separator() {
    let (kind, rest) = ID::split("a#b#c").unwrap();
    assert_eq!(kind, "a");
    assert_eq!(rest, "b#c");
    assert!(ID::split("abc").is_none());
    let (kind, rest) = ID::split("#").unwrap();
    assert_eq!(kind, "");
    assert_eq!(rest, "");
    assert!(ID::from_string("a#01D39ZY06FGSCTVN4T2V9PKHFZ#").is_err());
}

#[test]
fn id_prefix_is_never_an_identifier() {
    let prefix = ID::prefix("todo");
    assert_eq!(prefix, "todo#");
    let id = ID::new("todo");
    assert_ne!(id.to_string(), prefix);
    assert!(id.to_string().starts_with(&prefix));
    assert!(ID::from_string(&prefix).is_err());
}

#[test]
fn id_kind_checks() {
    let id = ID::from_string(TEXT).unwrap();
    assert!(id.has_type_name("todo"));
    assert!(!id.has_type_name("todo_list"));
    assert!(!id.has_type_name("tod"));
    assert!(Kind::from_string("todo") == id.kind().clone());
}

#[test]
fn id_equality_is_structural() {
    let a = ID::from_string(TEXT).unwrap();
    let b = ID::from_string("todo_list#01D39ZY06FGSCTVN4T2V9PKHFZ").unwrap();
    let c = ID::from_string("todo#01D39ZY06FGSCTVN4T2V9PKHG0").unwrap();
    assert!(a == a.clone());
    assert!(!(a == b));
    assert!(!(a == c));
}

#[test]
fn id_new_identifiers_are_distinct() {
    let a = ID::new("todo");
    let b = ID::new("todo");
    assert!(!(a == b));
    assert_eq!(a.to_string().len(), "todo#".len() + 26);
}

#[test]
fn id_with_non_ulid_unique_part_is_refused() {
    assert!(ID::from_string("todo#not-a-ulid").is_err());
    assert!(ID::from_string("todo").is_err());
    assert!(ID::from_string(&ID::prefix("todo_list")).is_err());
}
