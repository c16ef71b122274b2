use openapi2skill::json::{normalize_type_value, sanitize_invalid_types, Json};

fn s(v: &str) -> Json {
    Json::String(v.to_string())
}

fn n(v: &str) -> Json {
    Json::Number(v.to_string())
}

fn arr(items: Vec<Json>) -> Json {
    Json::Array(items)
}

fn obj(members: Vec<(&str, Json)>) -> Json {
    Json::Object(members.into_iter().map(|(k, v)| (k.to_string(), v)).collect())
}

fn get<'a>(v: &'a Json, key: &str) -> Option<&'a Json> {
    match v {
        Json::Object(m) => m.iter().find(|(k, _)| k == key).map(|(_, v)| v),
        _ => None,
    }
}

fn at<'a>(v: &'a Json, key: &str) -> &'a Json {
    get(v, key).expect("member present")
}

fn item(v: &Json, i: usize) -> &Json {
    match v {
        Json::Array(a) => &a[i],
        _ => panic!("not an array"),
    }
}

// --- normalize_type_value ---

fn check_normalize_any_returns_none() {
    assert_eq!(normalize_type_value(&s("any")), None);
}

fn check_normalize_valid_string_passthrough() {
    assert_eq!(normalize_type_value(&s("string")), Some(s("string")));
}

fn check_normalize_array_preserves_nullable_string() {
    assert_eq!(
        normalize_type_value(&arr(vec![s("string"), s("null")])),
        Some(arr(vec![s("string"), s("null")]))
    );
}

fn check_normalize_array_preserves_ordering() {
    assert_eq!(
        normalize_type_value(&arr(vec![s("null"), s("integer")])),
        Some(arr(vec![s("null"), s("integer")]))
    );
}

fn check_normalize_array_filters_any_keeps_rest() {
    assert_eq!(
        normalize_type_value(&arr(vec![s("null"), s("any"), s("integer")])),
        Some(arr(vec![s("null"), s("integer")]))
    );
}

fn check_normalize_array_only_null_passes_through() {
    assert_eq!(
        normalize_type_value(&arr(vec![s("null")])),
        Some(arr(vec![s("null")]))
    );
}

fn check_normalize_array_only_any_returns_none() {
    assert_eq!(normalize_type_value(&arr(vec![s("any")])), None);
}

fn check_normalize_array_only_any_and_nothing_else_returns_none() {
    assert_eq!(normalize_type_value(&arr(vec![s("any"), s("any")])), None);
}

#[test]
fn fetcher_normalize_any_returns_none() {
    check_normalize_any_returns_none();
}

#[test]
fn fetcher_normalize_valid_string_passthrough() {
    check_normalize_valid_string_passthrough();
}

#[test]
fn fetcher_normalize_array_preserves_nullable_string() {
    check_normalize_array_preserves_nullable_string();
}

#[test]
fn fetcher_normalize_array_preserves_ordering() {
    check_normalize_array_preserves_ordering();
}

#[test]
fn fetcher_normalize_array_filters_any_keeps_rest() {
    check_normalize_array_filters_any_keeps_rest();
}

#[test]
fn fetcher_normalize_array_only_null_passes_through() {
    check_normalize_array_only_null_passes_through();
}

#[test]
fn fetcher_normalize_array_only_any_returns_none() {
    check_normalize_array_only_any_returns_none();
}

#[test]
fn fetcher_normalize_array_only_any_and_nothing_else_returns_none() {
    check_normalize_array_only_any_and_nothing_else_returns_none();
}

#[test]
fn sanitize_normalize_any_returns_none() {
    check_normalize_any_returns_none();
}

#[test]
fn sanitize_normalize_valid_string_passthrough() {
    check_normalize_valid_string_passthrough();
}

#[test]
fn sanitize_normalize_array_preserves_nullable_string() {
    check_normalize_array_preserves_nullable_string();
}

#[test]
fn sanitize_normalize_array_preserves_ordering() {
    check_normalize_array_preserves_ordering();
}

#[test]
fn sanitize_normalize_array_filters_any_keeps_rest() {
    check_normalize_array_filters_any_keeps_rest();
}

#[test]
fn sanitize_normalize_array_only_null_passes_through() {
    check_normalize_array_only_null_passes_through();
}

#[test]
fn sanitize_normalize_array_only_any_returns_none() {
    check_normalize_array_only_any_returns_none();
}

#[test]
fn sanitize_normalize_array_only_any_and_nothing_else_returns_none() {
    check_normalize_array_only_any_and_nothing_else_returns_none();
}

// --- sanitize_invalid_types ---

fn check_sanitize_drops_any_type() {
    let input = obj(vec![("type", s("any")), ("description", s("x"))]);
    let out = sanitize_invalid_types(&input);
    assert!(get(&out, "type").is_none());
    assert_eq!(get(&out, "description"), Some(&s("x")));
}

fn check_sanitize_preserves_type_array() {
    let input = obj(vec![("type", arr(vec![s("string"), s("null")]))]);
    let out = sanitize_invalid_types(&input);
    assert_eq!(get(&out, "type"), Some(&arr(vec![s("string"), s("null")])));
}

fn check_sanitize_recurses_into_nested_objects() {
    let input = obj(vec![("properties", obj(vec![("name", obj(vec![("type", s("any"))]))]))]);
    let out = sanitize_invalid_types(&input);
    let name = at(at(&out, "properties"), "name");
    assert!(get(name, "type").is_none());
}

fn check_sanitize_recurses_into_arrays() {
    let input = arr(vec![obj(vec![("type", s("any"))]), obj(vec![("type", s("string"))])]);
    let out = sanitize_invalid_types(&input);
    assert!(get(item(&out, 0), "type").is_none());
    assert_eq!(get(item(&out, 1), "type"), Some(&s("string")));
}

#[test]
fn fetcher_sanitize_drops_any_type() {
    check_sanitize_drops_any_type();
}

#[test]
fn fetcher_sanitize_preserves_type_array() {
    check_sanitize_preserves_type_array();
}

#[test]
fn fetcher_sanitize_recurses_into_nested_objects() {
    check_sanitize_recurses_into_nested_objects();
}

#[test]
fn fetcher_sanitize_recurses_into_arrays() {
    check_sanitize_recurses_into_arrays();
}

#[test]
fn sanitize_sanitize_drops_any_type() {
    check_sanitize_drops_any_type();
}

#[test]
fn sanitize_sanitize_preserves_type_array() {
    check_sanitize_preserves_type_array();
}

#[test]
fn sanitize_sanitize_recurses_into_nested_objects() {
    check_sanitize_recurses_into_nested_objects();
}

#[test]
fn sanitize_sanitize_recurses_into_arrays() {
    check_sanitize_recurses_into_arrays();
}

#[test]
fn sanitize_drops_boolean_required_in_schema() {
    let input = obj(vec![("schema", obj(vec![("type", s("object")), ("required", Json::Bool(true))]))]);
    let out = sanitize_invalid_types(&input);
    assert!(get(at(&out, "schema"), "required").is_none());
}

#[test]
fn sanitize_keeps_required_list_in_schema() {
    let input = obj(vec![("schema", obj(vec![("type", s("object")), ("required", arr(vec![s("a")]))]))]);
    let out = sanitize_invalid_types(&input);
    assert_eq!(get(at(&out, "schema"), "required"), Some(&arr(vec![s("a")])));
}

#[test]
fn sanitize_drops_non_string_description() {
    let input = obj(vec![("description", obj(vec![("$ref", s("./other.md"))]))]);
    let out = sanitize_invalid_types(&input);
    assert!(get(&out, "description").is_none());
}

#[test]
fn sanitize_drops_external_docs_without_absolute_url() {
    let input = obj(vec![("externalDocs", obj(vec![("url", s("/relative/path"))]))]);
    let out = sanitize_invalid_types(&input);
    assert!(get(&out, "externalDocs").is_none());
}

#[test]
fn sanitize_keeps_external_docs_with_absolute_url() {
    let input = obj(vec![("externalDocs", obj(vec![("url", s("https://example.com/docs"))]))]);
    let out = sanitize_invalid_types(&input);
    assert!(get(&out, "externalDocs").is_some());
}

#[test]
fn sanitize_drops_non_absolute_license_url_but_keeps_object() {
    let input = obj(vec![("license", obj(vec![("name", s("MIT")), ("url", s("/license"))]))]);
    let out = sanitize_invalid_types(&input);
    assert_eq!(get(at(&out, "license"), "name"), Some(&s("MIT")));
    assert!(get(at(&out, "license"), "url").is_none());
}

#[test]
fn sanitize_drops_non_absolute_terms_of_service() {
    let input = obj(vec![("termsOfService", s("/tos"))]);
    let out = sanitize_invalid_types(&input);
    assert!(get(&out, "termsOfService").is_none());
}

#[test]
fn sanitize_replaces_null_security_scopes_with_empty_array() {
    let input = obj(vec![("security", arr(vec![obj(vec![("oauth", Json::Null)])]))]);
    let out = sanitize_invalid_types(&input);
    assert_eq!(at(item(at(&out, "security"), 0), "oauth"), &arr(vec![]));
}

#[test]
fn sanitize_recurses_into_all_of_subschemas() {
    let input = obj(vec![(
        "schema",
        obj(vec![("allOf", arr(vec![obj(vec![("type", s("any"))]), obj(vec![("type", s("string"))])]))]),
    )]);
    let out = sanitize_invalid_types(&input);
    let all_of = at(at(&out, "schema"), "allOf");
    assert!(get(item(all_of, 0), "type").is_none());
    assert_eq!(get(item(all_of, 1), "type"), Some(&s("string")));
}

fn age_schema(members: Vec<(&str, Json)>) -> Json {
    obj(vec![("schema", obj(vec![("properties", obj(vec![("age", obj(members))]))]))])
}

fn age_of(out: &Json) -> &Json {
    at(at(at(out, "schema"), "properties"), "age")
}

#[test]
fn exclusive_minimum_true_converts_to_numeric_form() {
    let input = age_schema(vec![("type", s("integer")), ("minimum", n("5")), ("exclusiveMinimum", Json::Bool(true))]);
    let out = sanitize_invalid_types(&input);
    let age = age_of(&out);
    assert_eq!(get(age, "exclusiveMinimum"), Some(&n("5")));
    assert!(get(age, "minimum").is_none());
}

#[test]
fn exclusive_maximum_true_converts_to_numeric_form() {
    let input = age_schema(vec![("type", s("integer")), ("maximum", n("120")), ("exclusiveMaximum", Json::Bool(true))]);
    let out = sanitize_invalid_types(&input);
    let age = age_of(&out);
    assert_eq!(get(age, "exclusiveMaximum"), Some(&n("120")));
    assert!(get(age, "maximum").is_none());
}

#[test]
fn exclusive_minimum_false_is_dropped_and_minimum_kept() {
    let input = age_schema(vec![("type", s("integer")), ("minimum", n("5")), ("exclusiveMinimum", Json::Bool(false))]);
    let out = sanitize_invalid_types(&input);
    let age = age_of(&out);
    assert!(get(age, "exclusiveMinimum").is_none());
    assert_eq!(get(age, "minimum"), Some(&n("5")));
}

#[test]
fn exclusive_minimum_true_without_sibling_is_dropped() {
    let input = age_schema(vec![("type", s("integer")), ("exclusiveMinimum", Json::Bool(true))]);
    let out = sanitize_invalid_types(&input);
    let age = age_of(&out);
    assert!(get(age, "exclusiveMinimum").is_none());
}

#[test]
fn exclusive_minimum_numeric_form_passes_through() {
    let input = age_schema(vec![("type", s("integer")), ("exclusiveMinimum", n("5"))]);
    let out = sanitize_invalid_types(&input);
    let age = age_of(&out);
    assert_eq!(get(age, "exclusiveMinimum"), Some(&n("5")));
}

#[test]
fn boolean_bounds_outside_schemas_are_untouched() {
    let input = obj(vec![("minimum", n("1")), ("exclusiveMinimum", Json::Bool(true))]);
    let out = sanitize_invalid_types(&input);
    assert_eq!(get(&out, "exclusiveMinimum"), Some(&Json::Bool(true)));
    assert_eq!(get(&out, "minimum"), Some(&n("1")));
}

#[test]
fn examples_are_left_untouched() {
    let input = obj(vec![("example", obj(vec![("type", s("any"))]))]);
    let out = sanitize_invalid_types(&input);
    assert_eq!(get(at(&out, "example"), "type"), Some(&s("any")));
}

#[test]
fn exclusive_bound_removal_moves_the_last_member_into_its_place() {
    let input = age_schema(vec![
        ("minimum", n("1")),
        ("exclusiveMinimum", Json::Bool(true)),
        ("x-a", n("2")),
        ("x-b", n("3")),
    ]);
    let out = sanitize_invalid_types(&input);
    assert_eq!(
        age_of(&out),
        &obj(vec![("x-b", n("3")), ("exclusiveMinimum", n("1")), ("x-a", n("2"))])
    );
}

#[test]
fn both_bounds_are_normalized_minimum_first() {
    let input = age_schema(vec![
        ("exclusiveMaximum", Json::Bool(false)),
        ("maximum", n("9")),
        ("minimum", n("1")),
        ("exclusiveMinimum", Json::Bool(true)),
    ]);
    let out = sanitize_invalid_types(&input);
    assert_eq!(age_of(&out), &obj(vec![("exclusiveMinimum", n("1")), ("maximum", n("9"))]));
}

#[test]
fn non_absolute_url_removal_moves_the_last_member_into_its_place() {
    let input = obj(vec![("license", obj(vec![("url", s("/license")), ("name", s("MIT")), ("identifier", s("MIT"))]))]);
    let out = sanitize_invalid_types(&input);
    assert_eq!(at(&out, "license"), &obj(vec![("identifier", s("MIT")), ("name", s("MIT"))]));
}

#[test]
fn sanitizing_a_sanitized_document_changes_nothing() {
    let input = obj(vec![
        ("info", obj(vec![
            ("description", n("1")),
            ("license", obj(vec![("url", s("/license")), ("name", s("MIT"))])),
            ("termsOfService", s("terms")),
        ])),
        ("components", obj(vec![("schemas", obj(vec![(
            "Pet",
            obj(vec![
                ("type", arr(vec![s("any"), s("string"), s("null")])),
                ("required", Json::Bool(true)),
                ("minimum", n("1")),
                ("exclusiveMinimum", Json::Bool(true)),
                ("allOf", arr(vec![obj(vec![("type", s("any"))])])),
            ]),
        )]))])),
        ("security", arr(vec![obj(vec![("key", Json::Null)])])),
    ]);
    let once = sanitize_invalid_types(&input);
    let twice = sanitize_invalid_types(&once);
    assert_eq!(twice, once);
    assert_ne!(once, input);
}

#[test]
fn examples_inside_schemas_are_left_untouched() {
    let example = obj(vec![("type", s("any")), ("description", n("1")), ("required", Json::Bool(true))]);
    let input = age_schema(vec![
        ("example", obj(vec![("type", s("any")), ("description", n("1")), ("required", Json::Bool(true))])),
        ("minimum", n("1")),
        ("exclusiveMinimum", Json::Bool(true)),
        ("default", n("3")),
    ]);
    let out = sanitize_invalid_types(&input);
    let age = age_of(&out);
    assert_eq!(get(age, "example"), Some(&example));
    assert_eq!(get(age, "default"), Some(&n("3")));
}
