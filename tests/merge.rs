use hotdog::merge::merge;
use hotdog::value::Json;

fn parse(text: &str) -> Json {
    Json::parse(text).expect("valid JSON")
}

fn merged_text(base: &str, patch: &str) -> String {
    let mut b = parse(base);
    merge(&mut b, &parse(patch));
    b.to_text()
}

#[test]
fn merge_empty_patch_keeps_base() {
    let base = parse(r#"{"a":1,"b":{"c":[1,2]}}"#);
    let mut b = base.clone();
    merge(&mut b, &parse("{}"));
    assert_eq!(b, base);
}

#[test]
fn merge_adds_new_key() {
    assert_eq!(merged_text(r#"{"a":1}"#, r#"{"b":2}"#), r#"{"a":1,"b":2}"#);
}

#[test]
fn merge_nested_objects() {
    assert_eq!(merged_text(r#"{"a":{"x":1}}"#, r#"{"a":{"y":2}}"#), r#"{"a":{"x":1,"y":2}}"#);
}

#[test]
fn merge_replaces_arrays_whole() {
    assert_eq!(merged_text(r#"{"a":[1,2]}"#, r#"{"a":[3]}"#), r#"{"a":[3]}"#);
}

#[test]
fn merge_scalar_patch_replaces_object() {
    assert_eq!(merged_text(r#"{"a":{"x":1}}"#, r#"{"a":"s"}"#), r#"{"a":"s"}"#);
    assert_eq!(merged_text(r#"{"a":1}"#, "null"), "null");
}

#[test]
fn merge_object_patch_replaces_scalar_base() {
    assert_eq!(merged_text("7", r#"{"k":true}"#), r#"{"k":true}"#);
}

#[test]
fn merge_keeps_member_order_in_model() {
    let mut b = Json::Object(vec![
        ("z".to_string(), Json::Number("1".to_string())),
        ("a".to_string(), Json::Null),
    ]);
    let p = Json::Object(vec![
        ("m".to_string(), Json::Str("x".to_string())),
        ("z".to_string(), Json::Bool(false)),
    ]);
    merge(&mut b, &p);
    assert_eq!(
        b,
        Json::Object(vec![
            ("z".to_string(), Json::Bool(false)),
            ("a".to_string(), Json::Null),
            ("m".to_string(), Json::Str("x".to_string())),
        ])
    );
}

#[test]
fn parse_rejects_non_json() {
    assert_eq!(Json::parse("not json"), None);
    assert_eq!(Json::parse(r#"{"a":"#), None);
}

#[test]
fn parse_and_print_round() {
    let v = parse(r#"{"s":"t","n":1.5,"b":false,"l":[null]}"#);
    assert_eq!(v.to_text(), r#"{"b":false,"l":[null],"n":1.5,"s":"t"}"#);
}

#[test]
fn parsed_objects_have_unique_keys() {
    let v = parse(r#"{"a":1,"a":2}"#);
    assert_eq!(v, Json::Object(vec![("a".to_string(), Json::Number("2".to_string()))]));
}

#[test]
fn merge_empty_patch_keeps_non_object_base() {
    assert_eq!(merged_text("7", "{}"), "7");
    assert_eq!(merged_text("[1,2]", "{}"), "[1,2]");
    assert_eq!(merged_text(r#""s""#, "{}"), r#""s""#);
    assert_eq!(merged_text(r#"{"a":[1]}"#, r#"{"a":{}}"#), r#"{"a":[1]}"#);
}
