use ssdd_on_top::eval_ctx::get_path_value;
use ssdd_on_top::value::{JsonValue, Value};

fn text(x: &str) -> String {
    x.to_string()
}

fn object(entries: Vec<(&str, JsonValue)>) -> JsonValue {
    JsonValue::Object(entries.into_iter().map(|(k, v)| (k.to_string(), v)).collect())
}

#[test]
fn test_value() {
    let val = object(vec![("key", JsonValue::Str(text("value")))]);
    let value = Value::new(val.clone());
    assert_eq!(value.serde(), &val);
}

#[test]
fn into_serde_gives_the_document_back() {
    let val = JsonValue::Array(vec![JsonValue::Null, JsonValue::Bool(true)]);
    let value = Value::new(val.clone());
    assert_eq!(value.into_serde(), val);
}

#[test]
fn object_get_takes_the_first_entry_with_the_key() {
    let entries = vec![
        (text("a"), JsonValue::Number(text("1"))),
        (text("a"), JsonValue::Number(text("2"))),
    ];
    assert_eq!(JsonValue::object_get(&entries, &text("a")), Some(&JsonValue::Number(text("1"))));
    assert_eq!(JsonValue::object_get(&entries, &text("b")), None);
}

#[test]
fn object_insert_then_get_reads_what_was_written() {
    let mut entries = vec![(text("a"), JsonValue::Null), (text("b"), JsonValue::Bool(false))];
    JsonValue::object_insert(&mut entries, text("b"), JsonValue::Bool(true));
    assert_eq!(JsonValue::object_get(&entries, &text("b")), Some(&JsonValue::Bool(true)));
    assert_eq!(JsonValue::object_get(&entries, &text("a")), Some(&JsonValue::Null));
    assert_eq!(entries.len(), 2);
    JsonValue::object_insert(&mut entries, text("c"), JsonValue::Str(text("x")));
    assert_eq!(entries.len(), 3);
    assert_eq!(entries[2].0, text("c"));
}

#[test]
fn deep_clone_is_equal() {
    let val = object(vec![
        ("list", JsonValue::Array(vec![JsonValue::Number(text("1.5")), JsonValue::Str(text("s"))])),
        ("inner", object(vec![("k", JsonValue::Null)])),
    ]);
    assert_eq!(val.deep_clone(), val);
    let entries = vec![(text("k"), JsonValue::Bool(true))];
    assert_eq!(JsonValue::clone_entries(&entries), entries);
}

#[test]
fn path_value_follows_keys_and_indices() {
    let val = Value::new(object(vec![(
        "user",
        object(vec![(
            "posts",
            JsonValue::Array(vec![
                object(vec![("id", JsonValue::Number(text("7")))]),
                object(vec![("id", JsonValue::Number(text("8")))]),
            ]),
        )]),
    )]));
    let path = vec![text("user"), text("posts"), text("1"), text("id")];
    let found = get_path_value(&val, &path).unwrap();
    assert_eq!(found.serde(), &JsonValue::Number(text("8")));
    let empty: Vec<String> = vec![];
    assert_eq!(get_path_value(&val, &empty).unwrap().serde(), val.serde());
}

#[test]
fn path_value_fails_on_missing_keys_and_bad_indices() {
    let val = Value::new(object(vec![("list", JsonValue::Array(vec![JsonValue::Null]))]));
    assert!(get_path_value(&val, &[text("missing")]).is_none());
    assert!(get_path_value(&val, &[text("list"), text("5")]).is_none());
    assert!(get_path_value(&val, &[text("list"), text("x")]).is_none());
    assert!(get_path_value(&val, &[text("list"), text("+0")]).is_some());
}
