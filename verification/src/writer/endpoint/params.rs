//! The path and query parameter tables of an endpoint, and the placeholder query string that
//! its full URLs carry.

use vstd::prelude::*;
use vstd::string::*;
use crate::model::{JsonKind, JsonLiteral, ObjectSchema, Parameter, Schema, SchemaType, Spec};
use crate::text::{decimal, join, join_seqs, u64_to_decimal, views};
use crate::writer::auth::opt_str;
use crate::writer::markdown::{concat_all, lemma_concat_all_push};
use crate::writer::refs::{opt_view, ref_display_name, ref_display_name_spec, resolve_schema, resolve_spec};
use crate::writer::types::{bare_type_name, primary_type, primary_type_spec, schema_type_name};

verus! {

/// A type name, with the format inlined for integers, numbers and strings; `any` when untyped.
pub open spec fn param_base_type_spec(ty: Option<SchemaType>, fmt: Option<Seq<char>>) -> Seq<char> {
    match ty {
        None => "any"@,
        Some(t) => match t {
            SchemaType::Integer | SchemaType::Number | SchemaType::String => match fmt {
                Some(f) => schema_type_name(t) + " ("@ + f + ")"@,
                None => schema_type_name(t),
            },
            _ => schema_type_name(t),
        },
    }
}

pub fn param_base_type(ty: Option<SchemaType>, fmt: Option<&str>) -> (r: String)
    ensures
        r@ == param_base_type_spec(ty, opt_str(fmt)),
{
    match ty {
        None => String::from_str("any"),
        Some(t) => {
            let mut r = bare_type_name(t);
            match t {
                SchemaType::Integer | SchemaType::Number | SchemaType::String => {
                    if let Some(f) = fmt {
                        r.append(" (");
                        r.append(f);
                        r.append(")");
                    }
                },
                _ => {},
            }
            r
        },
    }
}

/// The range of a parameter: `lo..hi`, `≥lo` or `≤hi`.
pub open spec fn bounds_constraint(obj: ObjectSchema) -> Seq<Seq<char>> {
    match (obj.minimum, obj.maximum) {
        (Some(lo), Some(hi)) => seq![lo@ + ".."@ + hi@],
        (Some(lo), None) => seq!["≥"@ + lo@],
        (None, Some(hi)) => seq!["≤"@ + hi@],
        _ => seq![],
    }
}

/// The constraints shown beside a parameter's type: its range, then its maximum length.
pub open spec fn param_constraints_spec(obj: ObjectSchema) -> Seq<Seq<char>> {
    bounds_constraint(obj) + match obj.max_length {
        Some(n) => seq!["max_len:"@ + decimal(n as nat)],
        None => seq![],
    }
}

pub fn param_constraints(obj: &ObjectSchema) -> (r: Vec<String>)
    ensures
        views(r@) == param_constraints_spec(*obj),
{
    let mut cs: Vec<String> = Vec::new();
    match (&obj.minimum, &obj.maximum) {
        (Some(lo), Some(hi)) => {
            let mut c = lo.clone();
            c.append("..");
            c.append(hi.as_str());
            cs.push(c);
        },
        (Some(lo), None) => {
            let mut c = String::from_str("≥");
            c.append(lo.as_str());
            cs.push(c);
        },
        (None, Some(hi)) => {
            let mut c = String::from_str("≤");
            c.append(hi.as_str());
            cs.push(c);
        },
        _ => {},
    }
    assert(views(cs@) =~= bounds_constraint(*obj));
    if let Some(n) = obj.max_length {
        let mut c = String::from_str("max_len:");
        let d = u64_to_decimal(n);
        c.append(d.as_str());
        let ghost before = cs@;
        cs.push(c);
        assert(views(cs@) =~= views(before).push(c@));
    }
    assert(views(cs@) =~= param_constraints_spec(*obj));
    cs
}

/// The string members of an enum, each in backticks.
pub open spec fn enum_string_values(vals: Seq<JsonLiteral>) -> Seq<Seq<char>>
    decreases vals.len(),
{
    if vals.len() == 0 {
        seq![]
    } else {
        let prefix = enum_string_values(vals.drop_last());
        let v = vals.last();
        match (v.kind, v.string_value) {
            (JsonKind::String, Some(s)) => prefix.push("`"@ + s@ + "`"@),
            _ => prefix,
        }
    }
}

/// The type of an inline parameter schema: base type, then constraints in parentheses, then
/// the string enum members in parentheses when the schema has an enum.
pub open spec fn param_object_type_spec(obj: ObjectSchema) -> Seq<char> {
    let base = param_base_type_spec(
        match obj.schema_type {
            Some(ts) => Some(primary_type_spec(ts)),
            None => None,
        },
        opt_view(obj.format),
    );
    let cs = param_constraints_spec(obj);
    let with_cs = if cs.len() == 0 { base } else { base + " ("@ + join_seqs(cs, ", "@) + ")"@ };
    if obj.enum_values@.len() == 0 {
        with_cs
    } else {
        with_cs + " ("@ + join_seqs(enum_string_values(obj.enum_values@), ", "@) + ")"@
    }
}

fn enum_strings(vals: &Vec<JsonLiteral>) -> (r: Vec<String>)
    ensures
        views(r@) == enum_string_values(vals@),
{
    let mut out: Vec<String> = Vec::new();
    let mut i: usize = 0;
    while i < vals.len()
        invariant
            i <= vals@.len(),
            views(out@) == enum_string_values(vals@.take(i as int)),
        decreases vals@.len() - i,
    {
        assert(vals@.take(i + 1).drop_last() =~= vals@.take(i as int));
        let v = &vals[i];
        match (v.kind, &v.string_value) {
            (JsonKind::String, Some(s)) => {
                let mut c = String::from_str("`");
                c.append(s.as_str());
                c.append("`");
                let ghost before = out@;
                out.push(c);
                assert(views(out@) =~= views(before).push(c@));
            },
            _ => {},
        }
        i += 1;
    }
    assert(vals@.take(vals@.len() as int) =~= vals@);
    out
}

pub fn render_param_object_type(obj: &ObjectSchema) -> (r: String)
    ensures
        r@ == param_object_type_spec(*obj),
{
    let ty = match &obj.schema_type {
        Some(ts) => Some(primary_type(ts)),
        None => None,
    };
    let fmt = match &obj.format {
        Some(f) => Some(f.as_str()),
        None => None,
    };
    let mut base = param_base_type(ty, fmt);
    let cs = param_constraints(obj);
    if cs.len() > 0 {
        let inner = join(&cs, ", ");
        base.append(" (");
        base.append(inner.as_str());
        base.append(")");
    }
    if obj.enum_values.len() == 0 {
        return base;
    }
    let vals = enum_strings(&obj.enum_values);
    let inner = join(&vals, ", ");
    base.append(" (");
    base.append(inner.as_str());
    base.append(")");
    base
}

/// How a parameter or header type is shown: `string` without a schema, `unknown` when its
/// `$ref` does not resolve, `boolean` for a boolean schema, the reference's name for a
/// reference, else the inline schema's type.
pub open spec fn param_type_spec(schema: Option<Schema>, spec: Spec) -> Seq<char> {
    match schema {
        None => "string"@,
        Some(s) => match resolve_spec(s, spec) {
            None => "unknown"@,
            Some(Schema::Boolean(_)) => "boolean"@,
            Some(Schema::Object(o)) => param_object_type_spec(*o),
            Some(Schema::Ref(p)) => ref_display_name_spec(p@),
        },
    }
}

pub fn render_param_type(schema: &Option<Schema>, spec: &Spec) -> (r: String)
    ensures
        r@ == param_type_spec(*schema, *spec),
{
    match schema {
        None => String::from_str("string"),
        Some(s) => match resolve_schema(s, spec) {
            None => String::from_str("unknown"),
            Some(Schema::Boolean(_)) => String::from_str("boolean"),
            Some(Schema::Object(o)) => render_param_object_type(o),
            Some(Schema::Ref(p)) => ref_display_name(p.as_str()),
        },
    }
}

pub open spec fn derefs(v: Seq<&Parameter>) -> Seq<Parameter> {
    v.map_values(|p: &Parameter| *p)
}

/// Whether a parameter is required, with the default of its location.
pub open spec fn is_required(p: Parameter, default: bool) -> bool {
    match p.required {
        Some(b) => b,
        None => default,
    }
}

/// One table row: name, type, `Yes`/`No` and the description (`-` when absent).
pub open spec fn param_row(p: Parameter, spec: Spec, default_required: bool) -> Seq<char> {
    "| `"@ + p.name@ + "` | "@ + param_type_spec(p.schema, spec) + " | "@
        + (if is_required(p, default_required) { "Yes"@ } else { "No"@ }) + " | "@
        + (match p.description {
        Some(d) => d@,
        None => "-"@,
    }) + " |\n"@
}

/// A parameter table under its heading, or nothing when there are no parameters.
pub open spec fn params_table_spec(heading: Seq<char>, params: Seq<Parameter>, spec: Spec, default_required: bool) -> Seq<char> {
    if params.len() == 0 {
        seq![]
    } else {
        heading + concat_all(params.map_values(|p: Parameter| param_row(p, spec, default_required)))
            + "\n"@
    }
}

fn render_param_row(p: &Parameter, spec: &Spec, default_required: bool) -> (r: String)
    ensures
        r@ == param_row(*p, *spec, default_required),
{
    let ty = render_param_type(&p.schema, spec);
    let mut out = String::from_str("| `");
    out.append(p.name.as_str());
    out.append("` | ");
    out.append(ty.as_str());
    out.append(" | ");
    let req = match p.required {
        Some(b) => b,
        None => default_required,
    };
    if req {
        out.append("Yes");
    } else {
        out.append("No");
    }
    out.append(" | ");
    match &p.description {
        Some(d) => out.append(d.as_str()),
        None => out.append("-"),
    }
    out.append(" |\n");
    out
}

fn render_params_table(heading: &str, params: &[&Parameter], spec: &Spec, default_required: bool) -> (r: String)
    ensures
        r@ == params_table_spec(heading@, derefs(params@), *spec, default_required),
{
    if params.len() == 0 {
        return String::new();
    }
    let ghost ps = derefs(params@);
    let mut out = String::from_str(heading);
    let mut i: usize = 0;
    while i < params.len()
        invariant
            i <= params@.len(),
            ps == derefs(params@),
            out@ == heading@ + concat_all(ps.take(i as int).map_values(|p: Parameter| param_row(p, *spec, default_required))),
        decreases params@.len() - i,
    {
        let row = render_param_row(params[i], spec, default_required);
        out.append(row.as_str());
        proof {
            let f = |q: Parameter| param_row(q, *spec, default_required);
            assert(ps.take(i + 1).map_values(f) =~= ps.take(i as int).map_values(f).push(f(ps[i as int])));
            lemma_concat_all_push(ps.take(i as int).map_values(f), f(ps[i as int]));
        }
        i += 1;
    }
    assert(ps.take(ps.len() as int) =~= ps);
    out.append("\n");
    out
}

pub open spec fn path_heading() -> Seq<char> {
    "### Path Parameters\n\n| Parameter | Type | Required | Description |\n|-----------|------|----------|-------------|\n"@
}

pub open spec fn query_heading() -> Seq<char> {
    "### Query Parameters\n\n| Parameter | Type | Required | Description |\n|-----------|------|----------|-------------|\n"@
}

/// The path parameter table; a path parameter is required unless it says otherwise.
pub fn render_path_params_table(params: &[&Parameter], spec: &Spec) -> (r: String)
    ensures
        r@ == params_table_spec(path_heading(), derefs(params@), *spec, true),
{
    render_params_table(
        "### Path Parameters\n\n| Parameter | Type | Required | Description |\n|-----------|------|----------|-------------|\n",
        params,
        spec,
        true,
    )
}

/// The query parameter table; a query parameter is optional unless it says otherwise.
pub fn render_query_params_table(params: &[&Parameter], spec: &Spec) -> (r: String)
    ensures
        r@ == params_table_spec(query_heading(), derefs(params@), *spec, false),
{
    render_params_table(
        "### Query Parameters\n\n| Parameter | Type | Required | Description |\n|-----------|------|----------|-------------|\n",
        params,
        spec,
        false,
    )
}

/// The placeholder value of a required query parameter in a full URL: its base type.
pub open spec fn query_value_spec(schema: Option<Schema>, spec: Spec) -> Seq<char> {
    match schema {
        None => "string"@,
        Some(s) => match resolve_spec(s, spec) {
            None => "unknown"@,
            Some(Schema::Boolean(_)) => "boolean"@,
            Some(Schema::Object(o)) => param_base_type_spec(
                match o.schema_type {
                    Some(ts) => Some(primary_type_spec(ts)),
                    None => None,
                },
                None,
            ),
            Some(Schema::Ref(p)) => ref_display_name_spec(p@),
        },
    }
}

fn query_value(schema: &Option<Schema>, spec: &Spec) -> (r: String)
    ensures
        r@ == query_value_spec(*schema, *spec),
{
    match schema {
        None => String::from_str("string"),
        Some(s) => match resolve_schema(s, spec) {
            None => String::from_str("unknown"),
            Some(Schema::Boolean(_)) => String::from_str("boolean"),
            Some(Schema::Object(o)) => {
                let ty = match &o.schema_type {
                    Some(ts) => Some(primary_type(ts)),
                    None => None,
                };
                param_base_type(ty, None)
            },
            Some(Schema::Ref(p)) => ref_display_name(p.as_str()),
        },
    }
}

/// `name=value` for each parameter that is explicitly required, in order.
pub open spec fn required_query_pairs(params: Seq<Parameter>, spec: Spec) -> Seq<Seq<char>>
    decreases params.len(),
{
    if params.len() == 0 {
        seq![]
    } else {
        let prefix = required_query_pairs(params.drop_last(), spec);
        let p = params.last();
        if p.required == Some(true) {
            prefix.push(p.name@ + "="@ + query_value_spec(p.schema, spec))
        } else {
            prefix
        }
    }
}

/// `?` and the required query parameters joined by `&`; empty when none is required.
pub open spec fn required_query_string_spec(params: Seq<Parameter>, spec: Spec) -> Seq<char> {
    let pairs = required_query_pairs(params, spec);
    if pairs.len() == 0 {
        seq![]
    } else {
        "?"@ + join_seqs(pairs, "&"@)
    }
}

/// The query string appended to each full URL, so that an agent sees which query
/// parameters a call cannot leave out.
pub fn required_query_string(params: &[&Parameter], spec: &Spec) -> (r: String)
    ensures
        r@ == required_query_string_spec(derefs(params@), *spec),
{
    let ghost ps = derefs(params@);
    let mut pairs: Vec<String> = Vec::new();
    let mut i: usize = 0;
    while i < params.len()
        invariant
            i <= params@.len(),
            ps == derefs(params@),
            views(pairs@) == required_query_pairs(ps.take(i as int), *spec),
        decreases params@.len() - i,
    {
        assert(ps.take(i + 1).drop_last() =~= ps.take(i as int));
        let p = params[i];
        if p.required == Some(true) {
            let mut pair = p.name.clone();
            pair.append("=");
            let v = query_value(&p.schema, spec);
            pair.append(v.as_str());
            let ghost before = pairs@;
            pairs.push(pair);
            assert(views(pairs@) =~= views(before).push(pair@));
        }
        i += 1;
    }
    assert(ps.take(ps.len() as int) =~= ps);
    if pairs.len() == 0 {
        return String::new();
    }
    let mut r = String::from_str("?");
    let inner = join(&pairs, "&");
    r.append(inner.as_str());
    r
}

} // verus!
