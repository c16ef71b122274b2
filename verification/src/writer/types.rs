//! Schema type names and labels.

use vstd::prelude::*;
use vstd::string::*;
use crate::model::{SchemaType, SchemaTypeSet};
use crate::text::{join, join_seqs, views};

verus! {

/// The first non-null type of a set, `object` when there is none.
pub open spec fn first_non_null(types: Seq<SchemaType>) -> SchemaType
    decreases types.len(),
{
    if types.len() == 0 {
        SchemaType::Object
    } else if types[0] != SchemaType::Null {
        types[0]
    } else {
        first_non_null(types.drop_first())
    }
}

pub open spec fn primary_type_spec(ts: SchemaTypeSet) -> SchemaType {
    match ts {
        SchemaTypeSet::Single(t) => t,
        SchemaTypeSet::Multiple(types) => first_non_null(types@),
    }
}

/// The type a schema is rendered as: the single type, or the first non-null one of a list.
#[verifier::loop_isolation(false)]
pub fn primary_type(ts: &SchemaTypeSet) -> (r: SchemaType)
    ensures
        r == primary_type_spec(*ts),
{
    match ts {
        SchemaTypeSet::Single(t) => *t,
        SchemaTypeSet::Multiple(types) => {
            let mut i: usize = 0;
            assert(types@.skip(0) =~= types@);
            while i < types.len()
                invariant
                    i <= types@.len(),
                    first_non_null(types@) == first_non_null(types@.skip(i as int)),
                decreases types@.len() - i,
            {
                assert(types@.skip(i as int)[0] == types@[i as int]);
                assert(types@.skip(i as int).drop_first() =~= types@.skip(i + 1));
                if types[i] != SchemaType::Null {
                    return types[i];
                }
                i += 1;
            }
            SchemaType::Object
        },
    }
}

pub open spec fn schema_type_name(t: SchemaType) -> Seq<char> {
    match t {
        SchemaType::Integer => "integer"@,
        SchemaType::Number => "number"@,
        SchemaType::Boolean => "boolean"@,
        SchemaType::String => "string"@,
        SchemaType::Array => "array"@,
        SchemaType::Object => "object"@,
        SchemaType::Null => "null"@,
    }
}

/// The JSON Schema name of a type.
pub fn bare_type_name(t: SchemaType) -> (r: String)
    ensures
        r@ == schema_type_name(t),
{
    match t {
        SchemaType::Integer => String::from_str("integer"),
        SchemaType::Number => String::from_str("number"),
        SchemaType::Boolean => String::from_str("boolean"),
        SchemaType::String => String::from_str("string"),
        SchemaType::Array => String::from_str("array"),
        SchemaType::Object => String::from_str("object"),
        SchemaType::Null => String::from_str("null"),
    }
}

/// `array` alone, or `array` with `null` on either side.
pub open spec fn is_array_or_nullable_array_spec(ts: SchemaTypeSet) -> bool {
    match ts {
        SchemaTypeSet::Single(t) => t == SchemaType::Array,
        SchemaTypeSet::Multiple(types) => types@ == seq![SchemaType::Array]
            || types@ == seq![SchemaType::Array, SchemaType::Null]
            || types@ == seq![SchemaType::Null, SchemaType::Array],
    }
}

/// Whether a type set describes an array, possibly nullable.
pub fn is_array_or_nullable_array(ts: &SchemaTypeSet) -> (b: bool)
    ensures
        b == is_array_or_nullable_array_spec(*ts),
{
    match ts {
        SchemaTypeSet::Single(t) => *t == SchemaType::Array,
        SchemaTypeSet::Multiple(types) => {
            if types.len() == 1 {
                assert(types@ == seq![SchemaType::Array] <==> types@[0] == SchemaType::Array) by {
                    if types@[0] == SchemaType::Array {
                        assert(types@ =~= seq![SchemaType::Array]);
                    }
                }
                types[0] == SchemaType::Array
            } else if types.len() == 2 {
                assert(types@ == seq![SchemaType::Array, SchemaType::Null] <==> (types@[0] == SchemaType::Array && types@[1] == SchemaType::Null)) by {
                    if types@[0] == SchemaType::Array && types@[1] == SchemaType::Null {
                        assert(types@ =~= seq![SchemaType::Array, SchemaType::Null]);
                    }
                }
                assert(types@ == seq![SchemaType::Null, SchemaType::Array] <==> (types@[0] == SchemaType::Null && types@[1] == SchemaType::Array)) by {
                    if types@[0] == SchemaType::Null && types@[1] == SchemaType::Array {
                        assert(types@ =~= seq![SchemaType::Null, SchemaType::Array]);
                    }
                }
                (types[0] == SchemaType::Array && types[1] == SchemaType::Null)
                    || (types[0] == SchemaType::Null && types[1] == SchemaType::Array)
            } else {
                false
            }
        },
    }
}

/// A type set as a label: `any` when absent; a single type with the format inlined
/// (`integer (int64)`) when the type is one of `inline_for`; `array[a, b]` for a list, where the
/// format is never inlined.
pub open spec fn type_label_spec(
    ts: Option<SchemaTypeSet>,
    fmt: Option<Seq<char>>,
    inline_for: Seq<SchemaType>,
) -> Seq<char> {
    match ts {
        None => "any"@,
        Some(SchemaTypeSet::Single(t)) => match fmt {
            Some(f) if inline_for.contains(t) => schema_type_name(t) + " ("@ + f + ")"@,
            _ => schema_type_name(t),
        },
        Some(SchemaTypeSet::Multiple(types)) => "array["@ + join_seqs(
            types@.map_values(|t: SchemaType| schema_type_name(t)),
            ", "@,
        ) + "]"@,
    }
}

pub fn contains_type(ts: &[SchemaType], t: SchemaType) -> (b: bool)
    ensures
        b == ts@.contains(t),
{
    let mut i: usize = 0;
    while i < ts.len()
        invariant
            i <= ts@.len(),
            forall|k: int| 0 <= k < i ==> ts@[k] != t,
        decreases ts@.len() - i,
    {
        if ts[i] == t {
            return true;
        }
        i += 1;
    }
    false
}

/// Renders a type set as a display label. The format is inlined into the label of a single
/// type listed in `inline_for`; callers render it separately for the rest.
pub fn type_label(ts: Option<&SchemaTypeSet>, fmt: Option<&str>, inline_for: &[SchemaType]) -> (r: String)
    ensures
        r@ == type_label_spec(
            match ts { Some(t) => Some(*t), None => None },
            match fmt { Some(f) => Some(f@), None => None },
            inline_for@,
        ),
{
    match ts {
        None => String::from_str("any"),
        Some(SchemaTypeSet::Single(t)) => {
            let name = bare_type_name(*t);
            match fmt {
                Some(f) => {
                    if contains_type(inline_for, *t) {
                        let mut r = name;
                        r.append(" (");
                        r.append(f);
                        r.append(")");
                        r
                    } else {
                        name
                    }
                },
                None => name,
            }
        },
        Some(SchemaTypeSet::Multiple(types)) => {
            let mut names: Vec<String> = Vec::new();
            let mut i: usize = 0;
            while i < types.len()
                invariant
                    i <= types@.len(),
                    views(names@) == types@.take(i as int).map_values(|t: SchemaType| schema_type_name(t)),
                decreases types@.len() - i,
            {
                let n = bare_type_name(types[i]);
                let ghost old_names = names@;
                names.push(n);
                assert(views(names@) =~= views(old_names).push(n@));
                assert(types@.take(i + 1) =~= types@.take(i as int).push(types@[i as int]));
                assert(views(names@) =~= types@.take(i + 1).map_values(|t: SchemaType| schema_type_name(t)));
                i += 1;
            }
            assert(types@.take(types@.len() as int) =~= types@);
            let inner = join(&names, ", ");
            let mut r = String::from_str("array[");
            r.append(inner.as_str());
            r.append("]");
            r
        },
    }
}

} // verus!
