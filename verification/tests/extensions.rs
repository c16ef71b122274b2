use openapi2skill::model::{JsonKind, JsonLiteral};
use openapi2skill::writer::extensions::render_extensions_table;

fn lit(kind: JsonKind, text: &str) -> JsonLiteral {
    let string_value = if kind == JsonKind::String { Some(text.to_string()) } else { None };
    let text = if kind == JsonKind::String { format!("\"{text}\"") } else { text.to_string() };
    JsonLiteral { kind, text, string_value }
}

fn make_map(pairs: &[(&str, JsonLiteral)]) -> Vec<(String, JsonLiteral)> {
    pairs
        .iter()
        .map(|(k, v)| (k.to_string(), JsonLiteral { kind: v.kind, text: v.text.clone(), string_value: v.string_value.clone() }))
        .collect()
}

#[test]
fn only_scalars_renders_table() {
    let m = make_map(&[
        ("x-foo", lit(JsonKind::String, "bar")),
        ("x-count", lit(JsonKind::Number, "42")),
        ("x-flag", lit(JsonKind::Bool, "true")),
    ]);
    let out = render_extensions_table(&m);
    assert!(out.contains("### Extensions"));
    assert!(out.contains("| `x-foo` | `bar` |"));
    assert!(out.contains("| `x-count` | `42` |"));
    assert!(out.contains("| `x-flag` | `true` |"));
}

#[test]
fn mixed_values_only_scalars_appear() {
    let m = make_map(&[
        ("x-scalar", lit(JsonKind::String, "hello")),
        ("x-array", lit(JsonKind::Array, "[\"a\",\"b\"]")),
        ("x-object", lit(JsonKind::Object, "{\"key\":\"val\"}")),
    ]);
    let out = render_extensions_table(&m);
    assert!(out.contains("| `x-scalar` | `hello` |"));
    assert!(!out.contains("x-array"));
    assert!(!out.contains("x-object"));
}

#[test]
fn empty_map_returns_empty_string() {
    let m = make_map(&[]);
    assert_eq!(render_extensions_table(&m), "");
}

#[test]
fn all_object_or_array_returns_empty_string() {
    let m = make_map(&[
        ("x-arr", lit(JsonKind::Array, "[1,2,3]")),
        ("x-obj", lit(JsonKind::Object, "{\"nested\":true}")),
    ]);
    assert_eq!(render_extensions_table(&m), "");
}

#[test]
fn null_extension_is_left_out() {
    let m = make_map(&[("x-null", lit(JsonKind::Null, "null")), ("x-n", lit(JsonKind::Number, "1.5"))]);
    assert_eq!(
        render_extensions_table(&m),
        "### Extensions\n\n| Extension | Value |\n|-----------|-------|\n| `x-n` | `1.5` |\n\n"
    );
}
