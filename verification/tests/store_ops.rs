use apimocker::reply::{error_body, flush_needed, message, response_body};
use apimocker::store::{coerce_id, find_by_id};
use apimocker::{IdKind, Record, Store, StoreError, Value};

fn person(id: i32, name: &str) -> Record {
    let mut r = Record::new();
    r.set("id", Value::number(id));
    r.set("name", Value::string(name));
    r
}

fn seeded() -> Store {
    let mut store = Store::new();
    store.insert_collection("users", vec![person(1, "Alice")]);
    store
}

#[test]
fn end_to_end_scenario() {
    let mut store = seeded();
    assert_eq!(store.get_all("users"), vec![person(1, "Alice")]);

    let created = store.create("users", person(2, "Bob"));
    assert_eq!(created, person(2, "Bob"));
    assert_eq!(store.get_by_id("users", "2"), Ok(person(2, "Bob")));

    let mut patch = Record::new();
    patch.set("name", Value::string("Alicia"));
    assert_eq!(store.update("users", "1", &patch), Ok(person(1, "Alicia")));

    assert_eq!(store.delete("users", "2"), Ok(person(2, "Bob")));
    let gone = store.get_by_id("users", "2");
    assert_eq!(gone, Err(StoreError::NotFound));
    let body = response_body(gone);
    assert_eq!(body.len(), 1);
    assert_eq!(body.get("error").map(|v| v.as_json()), Some("\"Not found\""));
    assert_eq!(store.get_all("users"), vec![person(1, "Alicia")]);
}

#[test]
fn list_of_unknown_collection_is_empty() {
    let store = seeded();
    assert_eq!(store.get_all("orders"), Vec::<Record>::new());
    assert_eq!(Store::new().get_all("users"), Vec::<Record>::new());
}

#[test]
fn absent_identifier_is_not_found_and_changes_nothing() {
    let mut store = seeded();
    assert_eq!(store.get_by_id("users", "7"), Err(StoreError::NotFound));
    assert_eq!(store.delete("users", "7"), Err(StoreError::NotFound));
    assert_eq!(store.update("users", "7", &person(7, "X")), Err(StoreError::NotFound));
    assert_eq!(store.replace("users", "7", person(7, "X")), Err(StoreError::NotFound));
    assert_eq!(store.get_all("users"), vec![person(1, "Alice")]);
}

#[test]
fn unknown_collection_is_not_found_and_is_not_made() {
    let mut store = seeded();
    assert_eq!(store.get_by_id("orders", "1"), Err(StoreError::NotFound));
    assert_eq!(store.delete("orders", "1"), Err(StoreError::NotFound));
    assert_eq!(store.update("orders", "1", &Record::new()), Err(StoreError::NotFound));
    assert_eq!(store.replace("orders", "1", Record::new()), Err(StoreError::NotFound));
    assert_eq!(store.len(), 1);
    assert_eq!(store.collection_at(0).map(|c| c.0), Some("users"));
}

#[test]
fn create_appends_at_the_end_verbatim() {
    let mut store = seeded();
    let mut odd = Record::new();
    odd.set("id", Value::from_json("[1,2]".to_string()));
    odd.set("tags", Value::from_json("{\"a\":null}".to_string()));
    let created = store.create("users", odd.clone());
    assert_eq!(created, odd);
    let list = store.get_all("users");
    assert_eq!(list.len(), 2);
    assert_eq!(list[0], person(1, "Alice"));
    assert_eq!(list[1], odd);
    assert_eq!(list.iter().filter(|r| **r == odd).count(), 1);
}

#[test]
fn create_makes_the_collection_and_asks_nothing_of_the_record() {
    let mut store = Store::new();
    let no_id = Record::new();
    store.create("things", no_id.clone());
    store.create("things", person(1, "A"));
    store.create("things", person(1, "B"));
    assert_eq!(store.get_all("things"), vec![no_id, person(1, "A"), person(1, "B")]);
    assert_eq!(store.len(), 1);
}

#[test]
fn first_match_wins_among_equal_identifiers() {
    let mut store = Store::new();
    store.create("things", person(1, "A"));
    store.create("things", person(1, "B"));
    assert_eq!(store.get_by_id("things", "1"), Ok(person(1, "A")));
    assert_eq!(store.delete("things", "1"), Ok(person(1, "A")));
    assert_eq!(store.get_by_id("things", "1"), Ok(person(1, "B")));
}

#[test]
fn replace_keeps_a_numeric_identifier_numeric() {
    let mut store = seeded();
    let mut body = Record::new();
    body.set("name", Value::string("X"));
    let replaced = store.replace("users", "1", body).unwrap();
    assert_eq!(replaced, person(1, "X"));
    assert_eq!(replaced.get("id").map(|v| v.as_json()), Some("1"));
    assert_eq!(replaced.get("id").and_then(|v| v.id_kind()), Some(IdKind::Numeric));
    assert_eq!(store.get_all("users"), vec![person(1, "X")]);
}

#[test]
fn replace_overrides_the_identifier_of_the_body() {
    let mut store = seeded();
    let replaced = store.replace("users", "1", person(99, "X")).unwrap();
    assert_eq!(replaced, person(1, "X"));
    assert_eq!(store.get_by_id("users", "1"), Ok(person(1, "X")));
    assert_eq!(store.get_by_id("users", "99"), Err(StoreError::NotFound));
}

#[test]
fn replace_drops_fields_that_the_body_lacks() {
    let mut store = Store::new();
    let mut full = person(1, "A");
    full.set("age", Value::number(5));
    store.create("users", full);
    let replaced = store.replace("users", "1", Record::new()).unwrap();
    assert_eq!(replaced.len(), 1);
    assert_eq!(replaced.get("name"), None);
    assert_eq!(replaced.get("id"), Some(&Value::number(1)));
}

#[test]
fn replace_with_non_numeric_path_against_numeric_record() {
    let mut store = seeded();
    assert_eq!(store.replace("users", "abc", person(1, "X")), Err(StoreError::NotFound));
    assert_eq!(store.get_all("users"), vec![person(1, "Alice")]);

    let mut half = Record::new();
    half.set("id", Value::from_json("1.5".to_string()));
    half.set("name", Value::string("Half"));
    let mut big = Record::new();
    big.set("id", Value::from_json("5000000000".to_string()));
    store.create("users", half.clone());
    store.create("users", big.clone());
    assert_eq!(
        store.replace("users", "1.5", person(1, "X")),
        Err(StoreError::InvalidIdentifierType)
    );
    assert_eq!(
        store.replace("users", "5000000000", person(1, "X")),
        Err(StoreError::InvalidIdentifierType)
    );
    assert_eq!(store.get_all("users"), vec![person(1, "Alice"), half, big]);
}

#[test]
fn replace_of_an_identifier_of_another_kind_fails() {
    let mut store = Store::new();
    let mut flag = Record::new();
    flag.set("id", Value::from_json("true".to_string()));
    let mut nothing = Record::new();
    nothing.set("id", Value::from_json("null".to_string()));
    store.create("flags", flag.clone());
    store.create("flags", nothing.clone());
    assert_eq!(store.get_by_id("flags", "true"), Ok(flag.clone()));
    assert_eq!(
        store.replace("flags", "true", Record::new()),
        Err(StoreError::InvalidIdentifierType)
    );
    assert_eq!(
        store.replace("flags", "null", Record::new()),
        Err(StoreError::InvalidIdentifierType)
    );
    assert_eq!(store.get_all("flags"), vec![flag, nothing]);
}

fn named(id: &str, name: &str) -> Record {
    let mut r = Record::new();
    r.set("id", Value::string(id));
    r.set("name", Value::string(name));
    r
}

#[test]
fn replace_keeps_a_textual_identifier_textual() {
    let mut store = Store::new();
    store.create("users", named("abc", "A"));
    assert_eq!(store.get_by_id("users", "abc"), Ok(named("abc", "A")));

    let mut body = Record::new();
    body.set("name", Value::string("B"));
    let replaced = store.replace("users", "abc", body).unwrap();
    assert_eq!(replaced, named("abc", "B"));
    let id = replaced.get("id").unwrap();
    assert_eq!(id.id_kind(), Some(IdKind::Textual));
    assert_eq!(id, &Value::string("abc"));
    assert_eq!(id.as_json(), "\"abc\"");
    assert_eq!(store.get_all("users"), vec![named("abc", "B")]);
    assert_eq!(store.get_by_id("users", "abc"), Ok(named("abc", "B")));
}

#[test]
fn replace_overrides_a_textual_identifier_of_the_body() {
    let mut store = Store::new();
    store.create("users", named("abc", "A"));
    let replaced = store.replace("users", "abc", named("xyz", "B")).unwrap();
    assert_eq!(replaced, named("abc", "B"));
    assert_eq!(store.get_by_id("users", "xyz"), Err(StoreError::NotFound));
}

#[test]
fn replace_made_again_answers_the_same() {
    let mut store = Store::new();
    store.create("users", named("abc", "A"));
    store.create("users", person(7, "Seven"));
    let mut body = Record::new();
    body.set("name", Value::string("B"));

    let first = store.replace("users", "abc", body.clone());
    let after_first = store.get_all("users");
    let second = store.replace("users", "abc", body.clone());
    assert_eq!(first, Ok(named("abc", "B")));
    assert_eq!(second, first);
    assert_eq!(store.get_all("users"), after_first);

    let first = store.replace("users", "7", body.clone());
    let after_first = store.get_all("users");
    let second = store.replace("users", "7", body);
    assert_eq!(first, Ok(person(7, "B")));
    assert_eq!(second, first);
    assert_eq!(store.get_all("users"), after_first);
}

#[test]
fn a_textual_identifier_answers_to_its_characters_only() {
    let mut store = Store::new();
    store.create("users", named("abc", "A"));
    let quoted = "\"abc\"";
    assert_eq!(store.get_by_id("users", quoted), Err(StoreError::NotFound));
    assert_eq!(store.replace("users", quoted, named("abc", "X")), Err(StoreError::NotFound));
    assert_eq!(store.update("users", quoted, &named("abc", "X")), Err(StoreError::NotFound));
    assert_eq!(store.delete("users", quoted), Err(StoreError::NotFound));
    assert_eq!(store.get_by_id("users", "ABC"), Err(StoreError::NotFound));
    assert_eq!(store.get_by_id("users", "abc "), Err(StoreError::NotFound));
    assert_eq!(store.get_all("users"), vec![named("abc", "A")]);

    let mut patch = Record::new();
    patch.set("name", Value::string("B"));
    assert_eq!(store.update("users", "abc", &patch), Ok(named("abc", "B")));
}

#[test]
fn a_textual_identifier_with_characters_that_json_escapes() {
    let mut store = Store::new();
    for id in ["a\"b", "a\\b", "line\nbreak", "gr\u{fc}n", "", "1"] {
        store.create("things", named(id, "x"));
    }
    for id in ["a\"b", "a\\b", "line\nbreak", "gr\u{fc}n", "", "1"] {
        assert_eq!(store.get_by_id("things", id), Ok(named(id, "x")), "{id:?}");
    }
    assert_eq!(store.get_by_id("things", "a\\\"b"), Err(StoreError::NotFound));
    assert_eq!(store.get_by_id("things", "line\\nbreak"), Err(StoreError::NotFound));
}

#[test]
fn delete_undoes_create() {
    let mut store = seeded();
    store.insert_collection("tags", Vec::new());
    store.create("tags", named("abc", "A"));
    assert_eq!(store.delete("tags", "abc"), Ok(named("abc", "A")));
    assert_eq!(store.get_all("tags"), Vec::<Record>::new());
    assert_eq!(store.get_all("users"), vec![person(1, "Alice")]);
    assert_eq!(store.len(), 2);

    store.create("users", person(2, "Bob"));
    assert_eq!(store.delete("users", "2"), Ok(person(2, "Bob")));
    assert_eq!(store.get_all("users"), vec![person(1, "Alice")]);
}

#[test]
fn a_number_and_a_string_may_answer_to_the_same_identifier() {
    let mut store = Store::new();
    store.create("things", named("1", "text"));
    store.create("things", person(1, "number"));
    assert_eq!(store.get_by_id("things", "1"), Ok(named("1", "text")));
    assert_eq!(store.delete("things", "1"), Ok(named("1", "text")));
    assert_eq!(store.get_by_id("things", "1"), Ok(person(1, "number")));
}

#[test]
fn update_merges_without_deleting_untouched_fields() {
    let mut store = Store::new();
    let mut stored = person(1, "A");
    stored.set("age", Value::number(5));
    store.create("users", stored);
    let mut patch = Record::new();
    patch.set("name", Value::string("B"));
    let mut expected = person(1, "B");
    expected.set("age", Value::number(5));
    assert_eq!(store.update("users", "1", &patch), Ok(expected.clone()));
    assert_eq!(store.get_all("users"), vec![expected]);
}

#[test]
fn update_adds_new_fields_and_may_change_the_identifier() {
    let mut store = seeded();
    let mut patch = Record::new();
    patch.set("id", Value::number(2));
    patch.set("city", Value::string("Oslo"));
    let mut expected = person(2, "Alice");
    expected.set("city", Value::string("Oslo"));
    assert_eq!(store.update("users", "1", &patch), Ok(expected.clone()));
    assert_eq!(store.get_by_id("users", "1"), Err(StoreError::NotFound));
    assert_eq!(store.get_by_id("users", "2"), Ok(expected));
}

#[test]
fn update_with_empty_patch_changes_nothing() {
    let mut store = seeded();
    assert_eq!(store.update("users", "1", &Record::new()), Ok(person(1, "Alice")));
    assert_eq!(store.get_all("users"), vec![person(1, "Alice")]);
}

#[test]
fn delete_removes_exactly_one_and_keeps_the_order() {
    let mut store = Store::new();
    for (i, n) in [(1, "A"), (2, "B"), (3, "C")] {
        store.create("users", person(i, n));
    }
    assert_eq!(store.delete("users", "2"), Ok(person(2, "B")));
    assert_eq!(store.get_by_id("users", "2"), Err(StoreError::NotFound));
    assert_eq!(store.get_all("users"), vec![person(1, "A"), person(3, "C")]);
    assert_eq!(store.delete("users", "1"), Ok(person(1, "A")));
    assert_eq!(store.delete("users", "3"), Ok(person(3, "C")));
    assert_eq!(store.get_all("users"), Vec::<Record>::new());
    assert_eq!(store.len(), 1);
}

#[test]
fn operations_leave_other_collections_alone() {
    let mut store = seeded();
    store.create("orders", person(1, "Order"));
    store.delete("users", "1").unwrap();
    assert_eq!(store.get_all("orders"), vec![person(1, "Order")]);
    store.replace("orders", "1", person(1, "New")).unwrap();
    assert_eq!(store.get_all("users"), Vec::<Record>::new());
}

#[test]
fn find_by_id_compares_the_text_of_the_identifier() {
    let list = vec![Record::new(), person(10, "A"), person(1, "B"), person(1, "C")];
    assert_eq!(find_by_id(&list, "1"), Some(2));
    assert_eq!(find_by_id(&list, "10"), Some(1));
    assert_eq!(find_by_id(&list, "01"), None);
    assert_eq!(find_by_id(&list, "+1"), None);
    assert_eq!(find_by_id(&list, "1 "), None);
    assert_eq!(find_by_id(&list, ""), None);
    assert_eq!(find_by_id(&Vec::new(), "1"), None);

    let mut negative = Record::new();
    negative.set("id", Value::number(-3));
    let list = vec![named("abc", "A"), negative, named("1", "B")];
    assert_eq!(find_by_id(&list, "abc"), Some(0));
    assert_eq!(find_by_id(&list, "\"abc\""), None);
    assert_eq!(find_by_id(&list, "ab"), None);
    assert_eq!(find_by_id(&list, "-3"), Some(1));
    assert_eq!(find_by_id(&list, "1"), Some(2));
    assert_eq!(find_by_id(&list, "\"1\""), None);

    let mut flag = Record::new();
    flag.set("id", Value::from_json("true".to_string()));
    let mut half = Record::new();
    half.set("id", Value::from_json("1.5".to_string()));
    let list = vec![flag, half];
    assert_eq!(find_by_id(&list, "true"), Some(0));
    assert_eq!(find_by_id(&list, "1.5"), Some(1));
    assert_eq!(find_by_id(&list, "1.50"), None);
}

#[test]
fn coerce_id_follows_the_existing_kind() {
    let number = Value::number(1);
    let text = Value::string("a");
    assert_eq!(coerce_id(&number, "12"), Some(Value::number(12)));
    assert_eq!(coerce_id(&number, "-12"), Some(Value::number(-12)));
    assert_eq!(coerce_id(&number, "+12"), Some(Value::number(12)));
    assert_eq!(coerce_id(&number, "abc"), None);
    assert_eq!(coerce_id(&number, "1.5"), None);
    assert_eq!(coerce_id(&number, ""), None);
    assert_eq!(coerce_id(&text, "12"), Some(Value::string("12")));
    assert_eq!(coerce_id(&text, ""), Some(Value::string("")));
    for other in ["true", "false", "null", "[1]", "{\"id\":1}", ""] {
        assert_eq!(coerce_id(&Value::from_json(other.to_string()), "1"), None);
    }
}

#[test]
fn error_payloads_and_messages() {
    assert_eq!(message(StoreError::NotFound), "Not found");
    assert_eq!(message(StoreError::InvalidIdentifierType), "Invalid ID type");
    let mut expected = Record::new();
    expected.set("error", Value::string("Not found"));
    assert_eq!(error_body(StoreError::NotFound), expected);
    let body = error_body(StoreError::InvalidIdentifierType);
    assert_eq!(body.len(), 1);
    let (name, value) = body.field_at(0).unwrap();
    assert_eq!(name, "error");
    assert_eq!(value.as_json(), "\"Invalid ID type\"");
    assert_eq!(response_body(Ok(person(1, "A"))), person(1, "A"));
    assert_eq!(response_body(Err(StoreError::InvalidIdentifierType)), body);
}

#[test]
fn the_store_is_written_out_after_each_success_only() {
    assert!(flush_needed(&Ok(Record::new())));
    assert!(!flush_needed(&Err(StoreError::NotFound)));
    assert!(!flush_needed(&Err(StoreError::InvalidIdentifierType)));
    let mut store = seeded();
    assert!(flush_needed(&store.delete("users", "1")));
    assert!(!flush_needed(&store.delete("users", "1")));
}

#[test]
fn collections_are_kept_by_name() {
    let mut store = Store::new();
    assert_eq!(store.len(), 0);
    store.insert_collection("a", vec![person(1, "A")]);
    store.insert_collection("b", Vec::new());
    store.insert_collection("a", vec![person(2, "B"), person(3, "C")]);
    assert_eq!(store.len(), 2);
    assert_eq!(store.collection_at(0), Some(("a", &vec![person(2, "B"), person(3, "C")])));
    assert_eq!(store.collection_at(1), Some(("b", &Vec::new())));
    assert_eq!(store.collection_at(2), None);
    assert_eq!(store.get_all("a"), vec![person(2, "B"), person(3, "C")]);
    assert_eq!(store.get_all("A"), Vec::<Record>::new());
}
