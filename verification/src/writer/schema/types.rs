//! The example value and the trailing comment of a schema line.

use vstd::prelude::*;
use vstd::string::*;
use crate::model::{JsonKind, JsonLiteral, ObjectSchema, SchemaType, SchemaTypeSet};
use crate::text::{decimal, join, join_seqs, trim, trimmed, u64_to_decimal, views};
use crate::writer::refs::opt_view;
use crate::writer::types::{primary_type, primary_type_spec, type_label, type_label_spec};

verus! {

pub open spec fn opt_type(ts: Option<&SchemaTypeSet>) -> Option<SchemaTypeSet> {
    match ts {
        Some(t) => Some(*t),
        None => None,
    }
}

pub open spec fn primary_of(ts: Option<SchemaTypeSet>) -> Option<SchemaType> {
    match ts {
        Some(t) => Some(primary_type_spec(t)),
        None => None,
    }
}

fn primary_of_exec(ts: Option<&SchemaTypeSet>) -> (r: Option<SchemaType>)
    ensures
        r == primary_of(opt_type(ts)),
{
    match ts {
        Some(t) => Some(primary_type(t)),
        None => None,
    }
}

/// The name of a scalar type; `object` for anything else.
pub open spec fn primitive_type_name_spec(ts: Option<SchemaTypeSet>) -> Seq<char> {
    match primary_of(ts) {
        Some(SchemaType::String) => "string"@,
        Some(SchemaType::Integer) => "integer"@,
        Some(SchemaType::Number) => "number"@,
        Some(SchemaType::Boolean) => "boolean"@,
        _ => "object"@,
    }
}

pub fn primitive_type_name(obj: &ObjectSchema) -> (r: String)
    ensures
        r@ == primitive_type_name_spec(obj.schema_type),
{
    match primary_of_exec(obj.schema_type.as_ref()) {
        Some(SchemaType::String) => String::from_str("string"),
        Some(SchemaType::Integer) => String::from_str("integer"),
        Some(SchemaType::Number) => String::from_str("number"),
        Some(SchemaType::Boolean) => String::from_str("boolean"),
        _ => String::from_str("object"),
    }
}

pub open spec fn is_scalar_literal(v: JsonLiteral) -> bool {
    v.kind != JsonKind::Object && v.kind != JsonKind::Array
}

/// The example shown for a value: its scalar `example`, else its first enum member, else its
/// scalar `default`, else a placeholder for its type (`null` when it has no scalar type).
pub open spec fn primitive_example_spec(obj: ObjectSchema, ts: Option<SchemaTypeSet>) -> Seq<char> {
    match obj.example {
        Some(ex) if is_scalar_literal(ex) => ex.text@,
        _ => if obj.enum_values@.len() > 0 {
            obj.enum_values@[0].text@
        } else {
            match obj.default {
                Some(d) if is_scalar_literal(d) => d.text@,
                _ => match primary_of(ts) {
                    Some(SchemaType::Integer) => "0"@,
                    Some(SchemaType::Number) => "0.0"@,
                    Some(SchemaType::Boolean) => "false"@,
                    Some(SchemaType::String) => "\"string\""@,
                    _ => "null"@,
                },
            }
        },
    }
}

/// The example of a value whose type is `ts` (the type after `allOf` merging).
pub fn primitive_example_with(obj: &ObjectSchema, ts: Option<&SchemaTypeSet>) -> (r: String)
    ensures
        r@ == primitive_example_spec(*obj, opt_type(ts)),
{
    if let Some(ex) = &obj.example {
        if ex.kind != JsonKind::Object && ex.kind != JsonKind::Array {
            return ex.text.clone();
        }
    }
    if obj.enum_values.len() > 0 {
        return obj.enum_values[0].text.clone();
    }
    if let Some(d) = &obj.default {
        if d.kind != JsonKind::Object && d.kind != JsonKind::Array {
            return d.text.clone();
        }
    }
    match primary_of_exec(ts) {
        Some(SchemaType::Integer) => String::from_str("0"),
        Some(SchemaType::Number) => String::from_str("0.0"),
        Some(SchemaType::Boolean) => String::from_str("false"),
        Some(SchemaType::String) => String::from_str("\"string\""),
        _ => String::from_str("null"),
    }
}

pub fn primitive_example(obj: &ObjectSchema) -> (r: String)
    ensures
        r@ == primitive_example_spec(*obj, obj.schema_type),
{
    primitive_example_with(obj, obj.schema_type.as_ref())
}

pub open spec fn opt_part(o: Option<Seq<char>>, label: Seq<char>) -> Seq<Seq<char>> {
    match o {
        Some(v) => seq![label + v],
        None => seq![],
    }
}

pub open spec fn opt_num_part(o: Option<u64>, label: Seq<char>) -> Seq<Seq<char>> {
    match o {
        Some(n) => seq![label + decimal(n as nat)],
        None => seq![],
    }
}

/// The constraints of a value, in a fixed order: bounds, lengths, pattern, item counts.
pub open spec fn type_constraints_spec(obj: ObjectSchema) -> Seq<Seq<char>> {
    opt_part(opt_view(obj.minimum), "min: "@) + opt_part(opt_view(obj.exclusive_minimum), "xmin: "@)
        + opt_part(opt_view(obj.maximum), "max: "@) + opt_part(opt_view(obj.exclusive_maximum), "xmax: "@)
        + opt_num_part(obj.min_length, "minLength: "@) + opt_num_part(obj.max_length, "maxLength: "@)
        + (match obj.pattern {
        Some(p) => seq!["pattern: \""@ + p@ + "\""@],
        None => seq![],
    }) + opt_num_part(obj.min_items, "minItems: "@) + opt_num_part(obj.max_items, "maxItems: "@)
}

fn push_text_part(parts: &mut Vec<String>, o: &Option<String>, label: &str)
    ensures
        views(final(parts)@) == views(old(parts)@) + opt_part(opt_view(*o), label@),
{
    if let Some(v) = o {
        let mut c = String::from_str(label);
        c.append(v.as_str());
        let ghost before = parts@;
        parts.push(c);
        assert(views(parts@) =~= views(before).push(c@));
    }
    assert(views(parts@) =~= views(old(parts)@) + opt_part(opt_view(*o), label@));
}

fn push_num_part(parts: &mut Vec<String>, o: Option<u64>, label: &str)
    ensures
        views(final(parts)@) == views(old(parts)@) + opt_num_part(o, label@),
{
    if let Some(n) = o {
        let mut c = String::from_str(label);
        let d = u64_to_decimal(n);
        c.append(d.as_str());
        let ghost before = parts@;
        parts.push(c);
        assert(views(parts@) =~= views(before).push(c@));
    }
    assert(views(parts@) =~= views(old(parts)@) + opt_num_part(o, label@));
}

pub fn collect_type_constraints(obj: &ObjectSchema) -> (r: Vec<String>)
    ensures
        views(r@) == type_constraints_spec(*obj),
{
    let mut parts: Vec<String> = Vec::new();
    push_text_part(&mut parts, &obj.minimum, "min: ");
    push_text_part(&mut parts, &obj.exclusive_minimum, "xmin: ");
    push_text_part(&mut parts, &obj.maximum, "max: ");
    push_text_part(&mut parts, &obj.exclusive_maximum, "xmax: ");
    push_num_part(&mut parts, obj.min_length, "minLength: ");
    push_num_part(&mut parts, obj.max_length, "maxLength: ");
    let ghost before = views(parts@);
    if let Some(p) = &obj.pattern {
        let mut c = String::from_str("pattern: \"");
        c.append(p.as_str());
        c.append("\"");
        parts.push(c);
    }
    assert(views(parts@) =~= before + match obj.pattern {
        Some(p) => seq!["pattern: \""@ + p@ + "\""@],
        None => seq![],
    });
    push_num_part(&mut parts, obj.min_items, "minItems: ");
    push_num_part(&mut parts, obj.max_items, "maxItems: ");
    assert(views(parts@) =~= type_constraints_spec(*obj));
    parts
}

/// The JSON texts of the enum members, joined by `, `.
pub open spec fn enum_texts(vals: Seq<JsonLiteral>) -> Seq<char> {
    join_seqs(vals.map_values(|v: JsonLiteral| v.text@), ", "@)
}

/// The parts of a comment: type label (a single integer type carries its format inline),
/// format, requirement, constraints, enum members, and the trimmed description last.
pub open spec fn type_comment_parts(obj: ObjectSchema, ts: Option<SchemaTypeSet>, req: Seq<char>) -> Seq<Seq<char>> {
    seq![type_label_spec(ts, opt_view(obj.format), seq![SchemaType::Integer])] + (match obj.format {
        Some(f) if ts != Some(SchemaTypeSet::Single(SchemaType::Integer)) => seq!["format: "@ + f@],
        _ => seq![],
    }) + (if req.len() == 0 {
        seq![]
    } else {
        seq![req]
    }) + type_constraints_spec(obj) + (if obj.enum_values@.len() == 0 {
        seq![]
    } else {
        seq!["enum: "@ + enum_texts(obj.enum_values@)]
    }) + (match obj.description {
        Some(d) if trimmed(d@).len() > 0 => seq![trimmed(d@)],
        _ => seq![],
    })
}

pub open spec fn type_comment_spec(obj: ObjectSchema, ts: Option<SchemaTypeSet>, req: Seq<char>) -> Seq<char> {
    join_seqs(type_comment_parts(obj, ts, req), ", "@)
}

fn enum_text_list(vals: &Vec<JsonLiteral>) -> (r: String)
    ensures
        r@ == enum_texts(vals@),
{
    let mut texts: Vec<String> = Vec::new();
    let mut i: usize = 0;
    while i < vals.len()
        invariant
            i <= vals@.len(),
            views(texts@) == vals@.take(i as int).map_values(|v: JsonLiteral| v.text@),
        decreases vals@.len() - i,
    {
        let t = vals[i].text.clone();
        let ghost before = texts@;
        texts.push(t);
        assert(views(texts@) =~= views(before).push(t@));
        assert(vals@.take(i + 1) =~= vals@.take(i as int).push(vals@[i as int]));
        assert(views(texts@) =~= vals@.take(i + 1).map_values(|v: JsonLiteral| v.text@));
        i += 1;
    }
    assert(vals@.take(vals@.len() as int) =~= vals@);
    join(&texts, ", ")
}

fn is_single_integer(ts: Option<&SchemaTypeSet>) -> (b: bool)
    ensures
        b == (opt_type(ts) == Some(SchemaTypeSet::Single(SchemaType::Integer))),
{
    match ts {
        Some(SchemaTypeSet::Single(SchemaType::Integer)) => true,
        _ => false,
    }
}

/// The comment of a value whose type is `ts` (the type after `allOf` merging).
pub fn type_comment_with(obj: &ObjectSchema, ts: Option<&SchemaTypeSet>, req: &str) -> (r: String)
    ensures
        r@ == type_comment_spec(*obj, opt_type(ts), req@),
{
    let fmt = match &obj.format {
        Some(f) => Some(f.as_str()),
        None => None,
    };
    let inline_for: [SchemaType; 1] = [SchemaType::Integer];
    assert(inline_for@ =~= seq![SchemaType::Integer]);
    let label = type_label(ts, fmt, &inline_for);
    let mut parts: Vec<String> = Vec::new();
    parts.push(label);
    let ghost p1 = views(parts@);
    if let Some(f) = fmt {
        if !is_single_integer(ts) {
            let mut c = String::from_str("format: ");
            c.append(f);
            parts.push(c);
        }
    }
    let ghost p2 = views(parts@);
    assert(p2 =~= p1 + match obj.format {
        Some(f) if opt_type(ts) != Some(SchemaTypeSet::Single(SchemaType::Integer)) => seq!["format: "@ + f@],
        _ => seq![],
    });
    if req.unicode_len() > 0 {
        parts.push(String::from_str(req));
    }
    let ghost p3 = views(parts@);
    assert(p3 =~= p2 + if req@.len() == 0 {
        seq![]
    } else {
        seq![req@]
    });
    let mut cs = collect_type_constraints(obj);
    parts.append(&mut cs);
    let ghost p4 = views(parts@);
    assert(p4 =~= p3 + type_constraints_spec(*obj));
    if obj.enum_values.len() > 0 {
        let mut c = String::from_str("enum: ");
        let e = enum_text_list(&obj.enum_values);
        c.append(e.as_str());
        parts.push(c);
    }
    let ghost p5 = views(parts@);
    assert(p5 =~= p4 + if obj.enum_values@.len() == 0 {
        seq![]
    } else {
        seq!["enum: "@ + enum_texts(obj.enum_values@)]
    });
    if let Some(d) = &obj.description {
        let t = trim(d.as_str());
        if t.unicode_len() > 0 {
            parts.push(t);
        }
    }
    assert(views(parts@) =~= p5 + match obj.description {
        Some(d) if trimmed(d@).len() > 0 => seq![trimmed(d@)],
        _ => seq![],
    });
    assert(views(parts@) =~= type_comment_parts(*obj, opt_type(ts), req@));
    join(&parts, ", ")
}

pub fn type_comment(obj: &ObjectSchema, req: &str) -> (r: String)
    ensures
        r@ == type_comment_spec(*obj, obj.schema_type, req@),
{
    type_comment_with(obj, obj.schema_type.as_ref(), req)
}

} // verus!
