use openapi2skill::model::{Header, ObjectSchema, Schema, SchemaType, SchemaTypeSet, Spec};
use openapi2skill::writer::endpoint::headers::render_response_headers_table;

fn empty_spec() -> Spec {
    Spec::new("Test".to_string(), "1.0".to_string())
}

fn integer_schema() -> Option<Schema> {
    let mut o = ObjectSchema::new();
    o.schema_type = Some(SchemaTypeSet::Single(SchemaType::Integer));
    Some(Schema::Object(Box::new(o)))
}

#[test]
fn empty_headers_returns_empty_string() {
    let headers: Vec<(String, Option<Header>)> = Vec::new();
    assert_eq!(render_response_headers_table(&headers, &empty_spec()), "");
}

#[test]
fn single_header_with_schema_renders_table() {
    let header = Header { description: Some("Requests per minute allowed".to_string()), schema: integer_schema() };
    let headers = vec![("X-Rate-Limit".to_string(), Some(header))];
    let result = render_response_headers_table(&headers, &empty_spec());
    assert!(result.contains("### Response Headers"));
    assert!(result.contains("| `X-Rate-Limit` | integer | Requests per minute allowed |"));
}

#[test]
fn header_with_no_description_shows_dash() {
    let header = Header { description: None, schema: integer_schema() };
    let headers = vec![("Retry-After".to_string(), Some(header))];
    let result = render_response_headers_table(&headers, &empty_spec());
    assert!(result.contains("| `Retry-After` | integer | - |"));
}

#[test]
fn header_with_no_schema_shows_string_fallback() {
    let header = Header { description: Some("Some header".to_string()), schema: None };
    let headers = vec![("X-Custom".to_string(), Some(header))];
    let result = render_response_headers_table(&headers, &empty_spec());
    assert!(result.contains("| `X-Custom` | string | Some header |"));
}

#[test]
fn unresolved_header_is_skipped() {
    let header = Header { description: None, schema: None };
    let headers = vec![("X-Missing".to_string(), None), ("X-Kept".to_string(), Some(header))];
    let result = render_response_headers_table(&headers, &empty_spec());
    assert_eq!(
        result,
        "### Response Headers\n\n| Header | Type | Description |\n|--------|------|-------------|\n| `X-Kept` | string | - |\n\n"
    );
}
