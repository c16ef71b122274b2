//! A whole schema rendered as an annotated `jsonc` example.

use vstd::prelude::*;
use vstd::string::*;
use crate::model::{ObjectSchema, Schema, SchemaType, Spec};
use crate::text::{join, join_seqs, views};
use crate::writer::refs::{resolve_schema, resolve_spec};
use crate::writer::schema::composition::{merge_all_of_in, merged_spec, merged_view, Merged, MergedView, MAX_MERGE_DEPTH};
use crate::writer::schema::properties::{
    bool_text, is_array_merged, item_lines_or_null, item_lines_or_null_spec, properties_lines,
    properties_lines_spec,
};
use crate::writer::schema::types::{
    primary_of, primitive_example_spec, primitive_example_with, type_comment_spec, type_comment_with,
};
use crate::writer::types::{is_array_or_nullable_array, primary_type};

verus! {

/// `open`, the inner lines and `close`, one per line.
pub open spec fn wrap_spec(open: Seq<char>, inner: Seq<Seq<char>>, close: Seq<char>) -> Seq<char> {
    join_seqs(seq![open] + inner + seq![close], "\n"@)
}

fn wrap_lines(open: &str, inner: Vec<String>, close: &str) -> (r: String)
    ensures
        r@ == wrap_spec(open@, views(inner@), close@),
{
    let mut lines: Vec<String> = Vec::new();
    lines.push(String::from_str(open));
    let mut inner = inner;
    let ghost first = lines@;
    let ghost inner_v = inner@;
    lines.append(&mut inner);
    lines.push(String::from_str(close));
    assert(views(lines@) =~= seq![open@] + views(inner_v) + seq![close@]);
    join(&lines, "\n")
}

/// Whether the merged type is a scalar: string, integer, number or boolean.
pub open spec fn is_primitive_merged(m: MergedView) -> bool {
    match primary_of(m.schema_type) {
        Some(SchemaType::String) | Some(SchemaType::Integer) | Some(SchemaType::Number) | Some(SchemaType::Boolean) => true,
        _ => false,
    }
}

fn is_primitive(m: &Merged) -> (b: bool)
    ensures
        b == is_primitive_merged(merged_view(*m)),
{
    match m.schema_type {
        Some(ts) => match primary_type(ts) {
            SchemaType::String | SchemaType::Integer | SchemaType::Number | SchemaType::Boolean => true,
            _ => false,
        },
        None => false,
    }
}

/// A top-level object schema: `[ item ]` for an array, an example with its comment for a
/// scalar, a marked empty object, or `{ properties }`.
pub open spec fn top_level_object_spec(obj: ObjectSchema, spec: Spec, multi: Set<Seq<char>>) -> Seq<char> {
    let m = merged_spec(obj, spec, seq![], MAX_MERGE_DEPTH as nat);
    if is_array_merged(m) {
        wrap_spec("["@, item_lines_or_null_spec(obj, 1, spec, multi, seq![]), "]"@)
    } else if is_primitive_merged(m) {
        let example = primitive_example_spec(obj, m.schema_type);
        let comment = type_comment_spec(obj, m.schema_type, ""@);
        if comment.len() == 0 {
            example
        } else {
            example + "  // "@ + comment
        }
    } else if m.properties.len() == 0 {
        "{\n  // empty object\n}"@
    } else {
        wrap_spec("{"@, properties_lines_spec(m.properties, m.required, 1, spec, multi, seq![]), "}"@)
    }
}

/// A schema as `jsonc`: `{}` when it does not resolve to an inline schema, `true` or `false`
/// for a boolean schema, else its object rendering. `multi` holds the names to link to.
pub open spec fn schema_jsonc_spec(schema: Schema, spec: Spec, multi: Set<Seq<char>>) -> Seq<char> {
    match resolve_spec(schema, spec) {
        Some(Schema::Boolean(b)) => bool_text(b),
        Some(Schema::Object(o)) => top_level_object_spec(*o, spec, multi),
        _ => "{}"@,
    }
}

fn render_top_level_object(obj: &ObjectSchema, spec: &Spec, multi_use: &Vec<String>) -> (r: String)
    ensures
        r@ == top_level_object_spec(*obj, *spec, views(multi_use@).to_set()),
{
    let mut visiting: Vec<String> = Vec::new();
    assert(views(visiting@) =~= seq![]);
    let m = merge_all_of_in(obj, spec, &mut visiting, MAX_MERGE_DEPTH);
    if is_array(&m) {
        let inner = item_lines_or_null(obj, 1, spec, multi_use, &mut visiting);
        return wrap_lines("[", inner, "]");
    }
    if is_primitive(&m) {
        let mut example = primitive_example_with(obj, m.schema_type);
        let comment = type_comment_with(obj, m.schema_type, "");
        if comment.unicode_len() == 0 {
            return example;
        }
        example.append("  // ");
        example.append(comment.as_str());
        return example;
    }
    if m.properties.len() == 0 {
        return String::from_str("{\n  // empty object\n}");
    }
    let inner = properties_lines(&m, 1, spec, multi_use, &mut visiting);
    wrap_lines("{", inner, "}")
}

fn is_array(m: &Merged) -> (b: bool)
    ensures
        b == is_array_merged(merged_view(*m)),
{
    match m.schema_type {
        Some(ts) => is_array_or_nullable_array(ts),
        None => false,
    }
}

/// Renders a schema as an annotated `jsonc` example. Schemas named in `multi_use` are linked
/// to their own file instead of being expanded.
pub fn render_schema_jsonc(schema: &Schema, spec: &Spec, multi_use: &Vec<String>) -> (r: String)
    ensures
        r@ == schema_jsonc_spec(*schema, *spec, views(multi_use@).to_set()),
{
    match resolve_schema(schema, spec) {
        Some(Schema::Boolean(b)) => {
            if *b {
                String::from_str("true")
            } else {
                String::from_str("false")
            }
        },
        Some(Schema::Object(o)) => render_top_level_object(o, spec, multi_use),
        _ => String::from_str("{}"),
    }
}

} // verus!
