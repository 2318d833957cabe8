use txbase::query::filter::JsonValue;
use txbase::query::path::{field_value, qualified_value, PathMatch};
use txbase::query::projection::{copy_value, insert_field, project, qualified_members, remove_field};

fn num(n: &str) -> JsonValue {
    JsonValue::Number(n.to_owned())
}

fn obj(members: Vec<(&str, JsonValue)>) -> JsonValue {
    JsonValue::Object(members.into_iter().map(|(k, v)| (k.to_owned(), v)).collect())
}

fn members(value: JsonValue) -> Vec<(String, JsonValue)> {
    match value {
        JsonValue::Object(m) => m,
        other => panic!("not an object: {other:?}"),
    }
}

// {"a": {"b": [{"c": 1, "d": 2}, {"c": 3}]}, "x": 5}
fn record() -> Vec<(String, JsonValue)> {
    members(obj(vec![
        (
            "a",
            obj(vec![(
                "b",
                JsonValue::Array(vec![obj(vec![("c", num("1")), ("d", num("2"))]), obj(vec![("c", num("3"))])]),
            )]),
        ),
        ("x", num("5")),
    ]))
}

fn fields(entries: &[(&str, i8)]) -> Vec<(String, i8)> {
    entries.iter().map(|(f, v)| ((*f).to_owned(), *v)).collect()
}

#[test]
fn projection_without_entries_keeps_the_record() {
    assert_eq!(project(&record(), &Vec::new()), record());
}

#[test]
fn inclusion_keeps_only_the_named_fields() {
    assert_eq!(project(&record(), &fields(&[("x", 1)])), vec![("x".to_owned(), num("5"))]);
    assert_eq!(project(&record(), &fields(&[("x", 1), ("a", 0)])), vec![("x".to_owned(), num("5"))]);
    assert_eq!(project(&record(), &fields(&[("missing", 1)])), Vec::new());
}

#[test]
fn inclusion_rebuilds_nested_paths_from_the_source_shape() {
    // An index segment into a source array builds an array padded with nulls.
    assert_eq!(
        project(&record(), &fields(&[("a.b.1.c", 1)])),
        members(obj(vec![("a", obj(vec![("b", JsonValue::Array(vec![JsonValue::Null, obj(vec![("c", num("3"))])]))]))]))
    );
    // A path that fans out over an array keeps the values it found as one array.
    assert_eq!(
        project(&record(), &fields(&[("a.b.c", 1)])),
        members(obj(vec![("a", obj(vec![("b", obj(vec![("c", JsonValue::Array(vec![num("1"), num("3")]))]))]))]))
    );
}

#[test]
fn exclusion_drops_the_named_fields_everywhere_they_reach() {
    assert_eq!(
        project(&record(), &fields(&[("a.b.c", 0)])),
        members(obj(vec![
            ("a", obj(vec![("b", JsonValue::Array(vec![obj(vec![("d", num("2"))]), obj(vec![])]))])),
            ("x", num("5")),
        ]))
    );
    assert_eq!(
        project(&record(), &fields(&[("a.b.0", 0)])),
        members(obj(vec![
            ("a", obj(vec![("b", JsonValue::Array(vec![JsonValue::Null, obj(vec![("c", num("3"))])]))])),
            ("x", num("5")),
        ]))
    );
    assert_eq!(project(&record(), &fields(&[("x", 0), ("a", 0)])), Vec::new());
}

#[test]
fn fields_are_set_and_removed_by_name_first() {
    let source = members(obj(vec![("p.q", num("1")), ("p", obj(vec![("q", num("2"))]))]));
    let out = insert_field(Vec::new(), &source, &"p.q".to_owned(), num("1"));
    assert_eq!(out, vec![("p.q".to_owned(), num("1"))]);
    let left = remove_field(source, &"p.q".to_owned());
    assert_eq!(left, members(obj(vec![("p", obj(vec![("q", num("2"))]))])));
    assert_eq!(copy_value(&obj(vec![("k", num("7"))])), obj(vec![("k", num("7"))]));
}

fn to_library(value: &serde_json::Value) -> JsonValue {
    match value {
        serde_json::Value::Null => JsonValue::Null,
        serde_json::Value::Bool(b) => JsonValue::Bool(*b),
        serde_json::Value::Number(n) => JsonValue::Number(n.to_string()),
        serde_json::Value::String(s) => JsonValue::String(s.clone()),
        serde_json::Value::Array(items) => JsonValue::Array(items.iter().map(to_library).collect()),
        serde_json::Value::Object(m) => JsonValue::Object(m.iter().map(|(k, v)| (k.clone(), to_library(v))).collect()),
    }
}

fn parsed(text: &str) -> JsonValue {
    to_library(&serde_json::from_str::<serde_json::Value>(text).unwrap())
}

fn parsed_record(text: &str) -> Vec<(String, JsonValue)> {
    members(parsed(text))
}

fn found_one(values: &Vec<(String, JsonValue)>, path: &str) -> Option<JsonValue> {
    match field_value(values, path) {
        PathMatch::Missing => None,
        PathMatch::One(v) => Some(copy_value(v)),
        PathMatch::Many(vs) => Some(JsonValue::Array(vs.into_iter().map(copy_value).collect())),
    }
}

#[test]
fn supports_dotted_paths_for_nested_values() {
    let first = parsed_record(r#"{"PROFILE": {"CITY": "Tokyo", "TAGS": [{"NAME": "jp"}, {"NAME": "db"}]}}"#);
    assert_eq!(found_one(&first, "PROFILE.CITY"), Some(JsonValue::String("Tokyo".to_owned())));
    assert_eq!(found_one(&first, "PROFILE.TAGS.NAME"), Some(parsed(r#"["jp", "db"]"#)));

    let projection = fields(&[("PROFILE.CITY", 1), ("PROFILE.TAGS.NAME", 1)]);
    assert_eq!(
        project(&first, &projection),
        parsed_record(r#"{"PROFILE": {"CITY": "Tokyo", "TAGS": {"NAME": ["jp", "db"]}}}"#)
    );

    let exclusion = fields(&[("PROFILE.CITY", 0)]);
    assert_eq!(project(&first, &exclusion), parsed_record(r#"{"PROFILE": {"TAGS": [{"NAME": "jp"}, {"NAME": "db"}]}}"#));

    let mut literal_values = first;
    literal_values.push(("PROFILE.CITY".to_owned(), JsonValue::String("literal".to_owned())));
    assert_eq!(found_one(&literal_values, "PROFILE.CITY"), Some(JsonValue::String("literal".to_owned())));
}

#[test]
fn supports_explicit_array_indices_in_paths() {
    let values = parsed_record(r#"{"PROFILE": {"TAGS": [{"NAME": "jp"}, {"NAME": "db"}]}}"#);
    assert_eq!(found_one(&values, "PROFILE.TAGS.0.NAME"), Some(JsonValue::String("jp".to_owned())));
    assert_eq!(found_one(&values, "PROFILE.TAGS.2.NAME"), None);
    assert_eq!(found_one(&values, "PROFILE.TAGS.1.NAME"), Some(JsonValue::String("db".to_owned())));

    let inclusion = fields(&[("PROFILE.TAGS.1.NAME", 1)]);
    assert_eq!(project(&values, &inclusion), parsed_record(r#"{"PROFILE": {"TAGS": [null, {"NAME": "db"}]}}"#));

    let exclusion = fields(&[("PROFILE.TAGS.0.NAME", 0)]);
    assert_eq!(project(&values, &exclusion), parsed_record(r#"{"PROFILE": {"TAGS": [{}, {"NAME": "db"}]}}"#));
}

#[test]
fn qualified_paths_enter_table_prefixed_members() {
    let row = parsed_record(r#"{"users.PROFILE": {"CITY": "Tokyo"}, "users.ID": 7, "posts.ID": 3}"#);
    assert!(matches!(qualified_value(&row, "users.ID"), PathMatch::One(JsonValue::Number(n)) if n == "7"));
    assert!(matches!(qualified_value(&row, "users.PROFILE.CITY"), PathMatch::One(JsonValue::String(s)) if s == "Tokyo"));
    assert!(matches!(qualified_value(&row, "users.PROFILE.ZIP"), PathMatch::Missing));
    assert!(matches!(qualified_value(&row, "orders.ID"), PathMatch::Missing));
    assert!(matches!(qualified_value(&row, "ID"), PathMatch::Missing));
}

#[test]
fn members_are_named_after_their_table() {
    let values = parsed_record(r#"{"ID": 7, "NAME": "Ann"}"#);
    assert_eq!(
        qualified_members("users", &values),
        vec![("users.ID".to_owned(), num("7")), ("users.NAME".to_owned(), JsonValue::String("Ann".to_owned()))]
    );
    assert_eq!(qualified_members("users", &Vec::new()), Vec::new());
}
