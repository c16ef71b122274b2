use openapi2skill::model::{SchemaType, SchemaTypeSet};
use openapi2skill::writer::types::{bare_type_name, primary_type, type_label};

fn single(t: SchemaType) -> SchemaTypeSet {
    SchemaTypeSet::Single(t)
}

fn multi(types: Vec<SchemaType>) -> SchemaTypeSet {
    SchemaTypeSet::Multiple(types)
}

const INTEGER_ONLY: &[SchemaType] = &[SchemaType::Integer];
const NEVER: &[SchemaType] = &[];

fn check_primary_type_single() {
    assert_eq!(primary_type(&single(SchemaType::Integer)), SchemaType::Integer);
}

fn check_primary_type_multiple_picks_non_null() {
    assert_eq!(
        primary_type(&multi(vec![SchemaType::Null, SchemaType::String])),
        SchemaType::String
    );
}

fn check_primary_type_all_null_falls_back_to_object() {
    assert_eq!(primary_type(&multi(vec![SchemaType::Null])), SchemaType::Object);
}

#[test]
fn types_primary_type_single() {
    check_primary_type_single();
}

#[test]
fn types_primary_type_multiple_picks_non_null() {
    check_primary_type_multiple_picks_non_null();
}

#[test]
fn types_primary_type_all_null_falls_back_to_object() {
    check_primary_type_all_null_falls_back_to_object();
}

#[test]
fn utils_primary_type_single() {
    check_primary_type_single();
}

#[test]
fn utils_primary_type_multiple_picks_non_null() {
    check_primary_type_multiple_picks_non_null();
}

#[test]
fn utils_primary_type_all_null_falls_back_to_object() {
    check_primary_type_all_null_falls_back_to_object();
}

#[test]
fn bare_names_cover_every_type() {
    assert_eq!(bare_type_name(SchemaType::Integer), "integer");
    assert_eq!(bare_type_name(SchemaType::Number), "number");
    assert_eq!(bare_type_name(SchemaType::Boolean), "boolean");
    assert_eq!(bare_type_name(SchemaType::String), "string");
    assert_eq!(bare_type_name(SchemaType::Array), "array");
    assert_eq!(bare_type_name(SchemaType::Object), "object");
    assert_eq!(bare_type_name(SchemaType::Null), "null");
}

#[test]
fn label_none_is_any() {
    assert_eq!(type_label(None, None, NEVER), "any");
}

#[test]
fn label_single_without_format() {
    assert_eq!(type_label(Some(&single(SchemaType::String)), None, NEVER), "string");
}

#[test]
fn label_inlines_format_when_predicate_allows() {
    assert_eq!(
        type_label(Some(&single(SchemaType::Integer)), Some("int64"), INTEGER_ONLY),
        "integer (int64)"
    );
}

#[test]
fn label_omits_format_when_predicate_declines() {
    assert_eq!(
        type_label(Some(&single(SchemaType::String)), Some("date-time"), INTEGER_ONLY),
        "string"
    );
}

#[test]
fn label_multi_never_inlines_format() {
    assert_eq!(
        type_label(
            Some(&multi(vec![SchemaType::String, SchemaType::Null])),
            Some("date-time"),
            INTEGER_ONLY
        ),
        "array[string, null]"
    );
}

#[test]
fn label_multi_preserves_order() {
    assert_eq!(
        type_label(Some(&multi(vec![SchemaType::Null, SchemaType::Integer])), None, NEVER),
        "array[null, integer]"
    );
}
