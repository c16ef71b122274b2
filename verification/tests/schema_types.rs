use openapi2skill::model::{JsonKind, JsonLiteral, ObjectSchema, SchemaType, SchemaTypeSet};
use openapi2skill::writer::schema::types::{collect_type_constraints, primitive_example, primitive_type_name, type_comment};

fn lit(kind: JsonKind, text: &str) -> JsonLiteral {
    match kind {
        JsonKind::String => JsonLiteral { kind, text: format!("\"{text}\""), string_value: Some(text.to_string()) },
        _ => JsonLiteral { kind, text: text.to_string(), string_value: None },
    }
}

fn typed(t: SchemaType) -> ObjectSchema {
    let mut o = ObjectSchema::new();
    o.schema_type = Some(SchemaTypeSet::Single(t));
    o
}

fn multi(types: Vec<SchemaType>) -> ObjectSchema {
    let mut o = ObjectSchema::new();
    o.schema_type = Some(SchemaTypeSet::Multiple(types));
    o
}

#[test]
fn constraints_empty_by_default() {
    assert!(collect_type_constraints(&ObjectSchema::new()).is_empty());
}

#[test]
fn constraints_minimum() {
    let mut o = ObjectSchema::new();
    o.minimum = Some("3".to_string());
    assert_eq!(collect_type_constraints(&o), vec!["min: 3"]);
}

#[test]
fn constraints_maximum() {
    let mut o = ObjectSchema::new();
    o.maximum = Some("99".to_string());
    assert_eq!(collect_type_constraints(&o), vec!["max: 99"]);
}

#[test]
fn constraints_exclusive_bounds() {
    let mut o = ObjectSchema::new();
    o.exclusive_minimum = Some("0".to_string());
    o.exclusive_maximum = Some("100".to_string());
    assert_eq!(collect_type_constraints(&o), vec!["xmin: 0", "xmax: 100"]);
}

#[test]
fn constraints_string_lengths() {
    let mut o = ObjectSchema::new();
    o.min_length = Some(2);
    o.max_length = Some(64);
    assert_eq!(collect_type_constraints(&o), vec!["minLength: 2", "maxLength: 64"]);
}

#[test]
fn constraints_pattern() {
    let mut o = ObjectSchema::new();
    o.pattern = Some("^[a-z]+$".to_string());
    assert_eq!(collect_type_constraints(&o), vec!["pattern: \"^[a-z]+$\""]);
}

#[test]
fn constraints_array_items() {
    let mut o = ObjectSchema::new();
    o.min_items = Some(1);
    o.max_items = Some(10);
    assert_eq!(collect_type_constraints(&o), vec!["minItems: 1", "maxItems: 10"]);
}

#[test]
fn constraints_keep_their_order() {
    let mut o = ObjectSchema::new();
    o.max_items = Some(4);
    o.pattern = Some("x".to_string());
    o.minimum = Some("1.5".to_string());
    o.max_length = Some(9);
    assert_eq!(collect_type_constraints(&o), vec!["min: 1.5", "maxLength: 9", "pattern: \"x\"", "maxItems: 4"]);
}

#[test]
fn example_uses_example_field_first() {
    let mut o = typed(SchemaType::Integer);
    o.example = Some(lit(JsonKind::Number, "42"));
    o.enum_values.push(lit(JsonKind::Number, "1"));
    o.default = Some(lit(JsonKind::Number, "0"));
    assert_eq!(primitive_example(&o), "42");
}

#[test]
fn example_skips_object_example_falls_back_to_enum() {
    let mut o = typed(SchemaType::String);
    o.example = Some(lit(JsonKind::Object, "{\"key\":\"val\"}"));
    o.enum_values.push(lit(JsonKind::String, "foo"));
    assert_eq!(primitive_example(&o), "\"foo\"");
}

#[test]
fn example_uses_enum_when_no_example() {
    let mut o = typed(SchemaType::String);
    o.enum_values.push(lit(JsonKind::String, "available"));
    o.enum_values.push(lit(JsonKind::String, "sold"));
    assert_eq!(primitive_example(&o), "\"available\"");
}

#[test]
fn example_uses_default_when_no_example_or_enum() {
    let mut o = typed(SchemaType::Boolean);
    o.default = Some(lit(JsonKind::Bool, "true"));
    assert_eq!(primitive_example(&o), "true");
}

#[test]
fn example_type_based_fallback_integer() {
    assert_eq!(primitive_example(&typed(SchemaType::Integer)), "0");
}

#[test]
fn example_type_based_fallback_number() {
    assert_eq!(primitive_example(&typed(SchemaType::Number)), "0.0");
}

#[test]
fn example_type_based_fallback_boolean() {
    assert_eq!(primitive_example(&typed(SchemaType::Boolean)), "false");
}

#[test]
fn example_type_based_fallback_string() {
    assert_eq!(primitive_example(&typed(SchemaType::String)), "\"string\"");
}

#[test]
fn example_type_based_fallback_null_for_unknown() {
    assert_eq!(primitive_example(&ObjectSchema::new()), "null");
}

#[test]
fn type_comment_simple_string_optional() {
    assert_eq!(type_comment(&typed(SchemaType::String), "optional"), "string, optional");
}

#[test]
fn type_comment_integer_with_format() {
    let mut o = typed(SchemaType::Integer);
    o.format = Some("int64".to_string());
    assert_eq!(type_comment(&o, "required"), "integer (int64), required");
}

#[test]
fn type_comment_string_with_format_includes_format_label() {
    let mut o = typed(SchemaType::String);
    o.format = Some("date-time".to_string());
    assert_eq!(type_comment(&o, "optional"), "string, format: date-time, optional");
}

#[test]
fn type_comment_includes_description() {
    let mut o = typed(SchemaType::String);
    o.description = Some("The pet name".to_string());
    assert_eq!(type_comment(&o, "required"), "string, required, The pet name");
}

#[test]
fn type_comment_includes_enum_values() {
    let mut o = typed(SchemaType::String);
    o.enum_values.push(lit(JsonKind::String, "a"));
    o.enum_values.push(lit(JsonKind::String, "b"));
    assert!(type_comment(&o, "optional").contains("enum: \"a\", \"b\""));
}

#[test]
fn type_comment_includes_constraints() {
    let mut o = typed(SchemaType::Integer);
    o.minimum = Some("1".to_string());
    o.maximum = Some("10".to_string());
    let c = type_comment(&o, "optional");
    assert!(c.contains("min: 1"));
    assert!(c.contains("max: 10"));
}

#[test]
fn type_comment_nullable_string_renders_as_array() {
    let o = multi(vec![SchemaType::String, SchemaType::Null]);
    assert_eq!(type_comment(&o, "optional"), "array[string, null], optional");
}

#[test]
fn type_comment_nullable_object_renders_as_array() {
    let o = multi(vec![SchemaType::Object, SchemaType::Null]);
    assert_eq!(type_comment(&o, "required"), "array[object, null], required");
}

#[test]
fn type_comment_preserves_array_order() {
    let o = multi(vec![SchemaType::Null, SchemaType::Integer]);
    assert_eq!(type_comment(&o, "optional"), "array[null, integer], optional");
}

#[test]
fn type_comment_multi_type_with_format() {
    let mut o = multi(vec![SchemaType::String, SchemaType::Null]);
    o.format = Some("date-time".to_string());
    assert_eq!(type_comment(&o, "optional"), "array[string, null], format: date-time, optional");
}

#[test]
fn type_comment_multi_type_with_description_and_enum() {
    let mut o = multi(vec![SchemaType::String, SchemaType::Null]);
    o.enum_values.push(lit(JsonKind::String, "a"));
    o.enum_values.push(lit(JsonKind::String, "b"));
    o.description = Some("Nullable enum".to_string());
    let c = type_comment(&o, "optional");
    assert!(c.starts_with("array[string, null], optional"));
    assert!(c.contains("enum: \"a\", \"b\""));
    assert!(c.ends_with("Nullable enum"));
}

#[test]
fn type_comment_blank_description_and_empty_requirement_are_left_out() {
    let mut o = ObjectSchema::new();
    o.description = Some("  \n ".to_string());
    assert_eq!(type_comment(&o, ""), "any");
}

#[test]
fn primitive_type_names() {
    assert_eq!(primitive_type_name(&typed(SchemaType::Number)), "number");
    assert_eq!(primitive_type_name(&typed(SchemaType::Array)), "object");
    assert_eq!(primitive_type_name(&multi(vec![SchemaType::Null, SchemaType::Boolean])), "boolean");
    assert_eq!(primitive_type_name(&ObjectSchema::new()), "object");
}
