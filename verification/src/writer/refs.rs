//! Schema references: their names, display names, links and resolution.

use vstd::prelude::*;
use vstd::string::*;
use crate::model::{Schema, Spec};
use crate::text::{str_eq, strip_prefix, without_prefix};
use crate::writer::naming::{camel_to_kebab, kebab};

verus! {

pub open spec fn schema_ref_prefix() -> Seq<char> {
    "#/components/schemas/"@
}

/// The component schema name a `$ref` points at: the path after `#/components/schemas/`.
pub open spec fn schema_ref_name_spec(schema: Schema) -> Option<Seq<char>> {
    match schema {
        Schema::Ref(p) => without_prefix(p@, schema_ref_prefix()),
        _ => None,
    }
}

pub open spec fn opt_view(o: Option<String>) -> Option<Seq<char>> {
    match o {
        Some(s) => Some(s@),
        None => None,
    }
}

/// The component schema name a `$ref` points at, or `None` when the schema is inline
/// or references something outside `#/components/schemas`.
pub fn schema_ref_name(schema: &Schema) -> (r: Option<String>)
    ensures
        opt_view(r) == schema_ref_name_spec(*schema),
{
    match schema {
        Schema::Ref(p) => strip_prefix(p.as_str(), "#/components/schemas/"),
        _ => None,
    }
}

/// The `$ref` path of a reference schema.
pub fn ref_path_of(schema: &Schema) -> (r: Option<&String>)
    ensures
        r == (match *schema {
            Schema::Ref(p) => Some(&p),
            _ => None,
        }),
{
    match schema {
        Schema::Ref(p) => Some(p),
        _ => None,
    }
}

pub open spec fn ref_display_name_spec(path: Seq<char>) -> Seq<char> {
    match without_prefix(path, schema_ref_prefix()) {
        Some(n) => n,
        None => path,
    }
}

/// The bare name to show for a `$ref` path, falling back to the whole path when it
/// doesn't point into `#/components/schemas`.
pub fn ref_display_name(ref_path: &str) -> (r: String)
    ensures
        r@ == ref_display_name_spec(ref_path@),
{
    match strip_prefix(ref_path, "#/components/schemas/") {
        Some(n) => n,
        None => String::from_str(ref_path),
    }
}

pub open spec fn schema_doc_link_spec(name: Seq<char>) -> Seq<char> {
    "../../schemas/"@ + kebab(name) + ".md"@
}

/// Link from an endpoint file to a schema file.
pub fn schema_doc_link(ref_name: &str) -> (r: String)
    ensures
        r@ == schema_doc_link_spec(ref_name@),
{
    let mut r = String::from_str("../../schemas/");
    let k = camel_to_kebab(ref_name);
    r.append(k.as_str());
    r.append(".md");
    r
}

/// The first entry of the resolution table for `path`.
pub open spec fn lookup_ref(refs: Seq<(String, Option<Schema>)>, path: Seq<char>) -> Option<Option<Schema>>
    decreases refs.len(),
{
    if refs.len() == 0 {
        None
    } else if refs[0].0@ == path {
        Some(refs[0].1)
    } else {
        lookup_ref(refs.drop_first(), path)
    }
}

/// What a schema resolves to: itself when inline, else the table's resolution of its `$ref`;
/// `None` when the reference does not resolve.
pub open spec fn resolve_spec(schema: Schema, spec: Spec) -> Option<Schema> {
    match schema {
        Schema::Ref(p) => match lookup_ref(spec.schema_refs@, p@) {
            Some(Some(s)) => Some(s),
            _ => None,
        },
        _ => Some(schema),
    }
}

/// Follows a schema `$ref` through the document's resolution table.
pub fn resolve_schema<'a>(schema: &'a Schema, spec: &'a Spec) -> (r: Option<&'a Schema>)
    ensures
        match r {
            Some(s) => resolve_spec(*schema, *spec) == Some(*s),
            None => resolve_spec(*schema, *spec) is None,
        },
{
    match schema {
        Schema::Ref(p) => {
            let mut i: usize = 0;
            assert(spec.schema_refs@.skip(0) =~= spec.schema_refs@);
            while i < spec.schema_refs.len()
                invariant
                    i <= spec.schema_refs@.len(),
                    *schema == Schema::Ref(*p),
                    lookup_ref(spec.schema_refs@, p@) == lookup_ref(spec.schema_refs@.skip(i as int), p@),
                decreases spec.schema_refs@.len() - i,
            {
                assert(spec.schema_refs@.skip(i as int)[0] == spec.schema_refs@[i as int]);
                assert(spec.schema_refs@.skip(i as int).drop_first() =~= spec.schema_refs@.skip(i + 1));
                if str_eq(spec.schema_refs[i].0.as_str(), p.as_str()) {
                    let entry = &spec.schema_refs[i];
                    assert(lookup_ref(spec.schema_refs@, p@) == Some(entry.1));
                    return match &entry.1 {
                        Some(s) => Some(s),
                        None => None,
                    };
                }
                i += 1;
            }
            None
        },
        _ => Some(schema),
    }
}

} // verus!
