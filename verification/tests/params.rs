use openapi2skill::model::{
    JsonKind, JsonLiteral, ObjectSchema, Parameter, ParameterIn, Schema, SchemaType, SchemaTypeSet, Spec,
};
use openapi2skill::writer::endpoint::params::{
    param_base_type, param_constraints, render_param_type, render_path_params_table,
    render_query_params_table, required_query_string,
};

fn typed(t: SchemaType) -> ObjectSchema {
    let mut o = ObjectSchema::new();
    o.schema_type = Some(SchemaTypeSet::Single(t));
    o
}

fn spec() -> Spec {
    Spec::new("Test".to_string(), "1.0".to_string())
}

fn param(name: &str, location: ParameterIn, required: Option<bool>, schema: Option<Schema>) -> Parameter {
    Parameter { name: name.to_string(), location, description: None, required, schema }
}

fn string_literal(s: &str) -> JsonLiteral {
    JsonLiteral { kind: JsonKind::String, text: format!("\"{s}\""), string_value: Some(s.to_string()) }
}

#[test]
fn param_base_type_none_returns_any() {
    assert_eq!(param_base_type(None, None), "any");
}

#[test]
fn param_base_type_integer_no_format() {
    assert_eq!(param_base_type(Some(SchemaType::Integer), None), "integer");
}

#[test]
fn param_base_type_integer_with_format() {
    assert_eq!(param_base_type(Some(SchemaType::Integer), Some("int64")), "integer (int64)");
}

#[test]
fn param_base_type_string_no_format() {
    assert_eq!(param_base_type(Some(SchemaType::String), None), "string");
}

#[test]
fn param_base_type_string_with_format() {
    assert_eq!(param_base_type(Some(SchemaType::String), Some("date-time")), "string (date-time)");
}

#[test]
fn param_base_type_number_with_format() {
    assert_eq!(param_base_type(Some(SchemaType::Number), Some("float")), "number (float)");
}

#[test]
fn param_base_type_boolean() {
    assert_eq!(param_base_type(Some(SchemaType::Boolean), None), "boolean");
}

#[test]
fn param_base_type_array() {
    assert_eq!(param_base_type(Some(SchemaType::Array), None), "array");
}

#[test]
fn param_base_type_object() {
    assert_eq!(param_base_type(Some(SchemaType::Object), None), "object");
}

#[test]
fn param_base_type_null() {
    assert_eq!(param_base_type(Some(SchemaType::Null), None), "null");
}

#[test]
fn param_base_type_boolean_ignores_format() {
    assert_eq!(param_base_type(Some(SchemaType::Boolean), Some("flag")), "boolean");
}

#[test]
fn param_constraints_empty_when_no_bounds() {
    let obj = ObjectSchema::new();
    assert!(param_constraints(&obj).is_empty());
}

#[test]
fn param_constraints_both_bounds() {
    let mut obj = ObjectSchema::new();
    obj.minimum = Some("1".to_string());
    obj.maximum = Some("10".to_string());
    assert_eq!(param_constraints(&obj), vec!["1..10"]);
}

#[test]
fn param_constraints_lower_only() {
    let mut obj = ObjectSchema::new();
    obj.minimum = Some("5".to_string());
    assert_eq!(param_constraints(&obj), vec!["≥5"]);
}

#[test]
fn param_constraints_upper_only() {
    let mut obj = ObjectSchema::new();
    obj.maximum = Some("100".to_string());
    assert_eq!(param_constraints(&obj), vec!["≤100"]);
}

#[test]
fn param_constraints_max_length() {
    let mut obj = ObjectSchema::new();
    obj.max_length = Some(255);
    assert_eq!(param_constraints(&obj), vec!["max_len:255"]);
}

#[test]
fn param_constraints_bounds_and_max_length() {
    let mut obj = ObjectSchema::new();
    obj.minimum = Some("0".to_string());
    obj.maximum = Some("50".to_string());
    obj.max_length = Some(8);
    assert_eq!(param_constraints(&obj), vec!["0..50", "max_len:8"]);
}

#[test]
fn param_type_without_schema_is_string() {
    assert_eq!(render_param_type(&None, &spec()), "string");
}

#[test]
fn param_type_of_unresolved_ref_is_unknown() {
    let s = Some(Schema::Ref("#/components/schemas/Missing".to_string()));
    assert_eq!(render_param_type(&s, &spec()), "unknown");
}

#[test]
fn param_type_follows_resolved_ref() {
    let mut sp = spec();
    let mut id = typed(SchemaType::Integer);
    id.format = Some("int64".to_string());
    id.minimum = Some("1".to_string());
    sp.schema_refs.push(("#/components/schemas/Id".to_string(), Some(Schema::Object(Box::new(id)))));
    let s = Some(Schema::Ref("#/components/schemas/Id".to_string()));
    assert_eq!(render_param_type(&s, &sp), "integer (int64) (≥1)");
}

#[test]
fn param_type_of_boolean_schema() {
    assert_eq!(render_param_type(&Some(Schema::Boolean(true)), &spec()), "boolean");
}

#[test]
fn param_type_lists_string_enum_members() {
    let mut o = typed(SchemaType::String);
    o.enum_values.push(string_literal("asc"));
    o.enum_values.push(JsonLiteral { kind: JsonKind::Number, text: "1".to_string(), string_value: None });
    o.enum_values.push(string_literal("desc"));
    let s = Some(Schema::Object(Box::new(o)));
    assert_eq!(render_param_type(&s, &spec()), "string (`asc`, `desc`)");
}

#[test]
fn path_table_defaults_to_required() {
    let p = param("id", ParameterIn::Path, None, Some(Schema::Object(Box::new(typed(SchemaType::Integer)))));
    let out = render_path_params_table(&[&p], &spec());
    assert_eq!(
        out,
        "### Path Parameters\n\n| Parameter | Type | Required | Description |\n|-----------|------|----------|-------------|\n| `id` | integer | Yes | - |\n\n"
    );
}

#[test]
fn query_table_defaults_to_optional() {
    let mut p = param("q", ParameterIn::Query, None, None);
    p.description = Some("Search text".to_string());
    let out = render_query_params_table(&[&p], &spec());
    assert!(out.contains("| `q` | string | No | Search text |"), "{out}");
}

#[test]
fn empty_tables_render_nothing() {
    assert_eq!(render_path_params_table(&[], &spec()), "");
    assert_eq!(render_query_params_table(&[], &spec()), "");
}

#[test]
fn required_query_string_lists_required_parameters() {
    let a = param("from", ParameterIn::Query, Some(true), None);
    let b = param("limit", ParameterIn::Query, Some(false), Some(Schema::Object(Box::new(typed(SchemaType::Integer)))));
    let c = param("to", ParameterIn::Query, Some(true), Some(Schema::Object(Box::new(typed(SchemaType::String)))));
    assert_eq!(required_query_string(&[&a, &b, &c], &spec()), "?from=string&to=string");
}

#[test]
fn required_query_string_empty_without_required_parameters() {
    let a = param("limit", ParameterIn::Query, None, None);
    assert_eq!(required_query_string(&[&a], &spec()), "");
}
