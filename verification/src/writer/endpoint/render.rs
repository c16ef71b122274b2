//! The content of one endpoint file.

use vstd::prelude::*;
use vstd::string::*;
use crate::model::{Operation, Parameter, ParameterIn, Spec};
use crate::text::views;
use crate::writer::endpoint::body::{
    payload_section_spec, render_payload_section, render_responses_section, responses_section_spec,
};
use crate::writer::endpoint::info::{info_table_spec, render_info_table};
use crate::writer::endpoint::params::{
    derefs, params_table_spec, path_heading, query_heading, render_path_params_table,
    render_query_params_table, required_query_string, required_query_string_spec,
};
use crate::writer::extensions::{extensions_table_spec, render_extensions_table};

verus! {

/// The parameters that resolved, in order.
pub open spec fn resolved_params(params: Seq<Option<Parameter>>) -> Seq<Parameter>
    decreases params.len(),
{
    if params.len() == 0 {
        seq![]
    } else {
        let prefix = resolved_params(params.drop_last());
        match params.last() {
            Some(p) => prefix.push(p),
            None => prefix,
        }
    }
}

/// The parameters sent in `location`, in order.
pub open spec fn params_in_spec(params: Seq<Parameter>, location: ParameterIn) -> Seq<Parameter>
    decreases params.len(),
{
    if params.len() == 0 {
        seq![]
    } else {
        let prefix = params_in_spec(params.drop_last(), location);
        if params.last().location == location {
            prefix.push(params.last())
        } else {
            prefix
        }
    }
}

/// The resolved parameters of an operation that are sent in `location`.
pub fn params_in(op: &Operation, location: ParameterIn) -> (r: Vec<&Parameter>)
    ensures
        derefs(r@) == params_in_spec(resolved_params(op.parameters@), location),
{
    let ghost all = op.parameters@;
    let mut out: Vec<&Parameter> = Vec::new();
    let mut i: usize = 0;
    while i < op.parameters.len()
        invariant
            i <= all.len(),
            all == op.parameters@,
            derefs(out@) == params_in_spec(resolved_params(all.take(i as int)), location),
        decreases all.len() - i,
    {
        assert(all.take(i + 1).drop_last() =~= all.take(i as int));
        if let Some(p) = &op.parameters[i] {
            let ghost ps = resolved_params(all.take(i as int));
            assert(resolved_params(all.take(i + 1)) == ps.push(*p));
            assert(ps.push(*p).drop_last() =~= ps);
            if p.location == location {
                let ghost before = out@;
                out.push(p);
                assert(derefs(out@) =~= derefs(before).push(*p));
            }
        }
        i += 1;
    }
    assert(all.take(all.len() as int) =~= all);
    out
}

pub open spec fn path_params_of(op: Operation) -> Seq<Parameter> {
    params_in_spec(resolved_params(op.parameters@), ParameterIn::Path)
}

pub open spec fn query_params_of(op: Operation) -> Seq<Parameter> {
    params_in_spec(resolved_params(op.parameters@), ParameterIn::Query)
}

/// The input section: nothing when the operation has no path or query parameter and no body;
/// else the heading, the parameter tables and the payload.
pub open spec fn input_section_spec(op: Operation, spec: Spec, multi: Set<Seq<char>>) -> Seq<char> {
    let path_params = path_params_of(op);
    let query_params = query_params_of(op);
    if path_params.len() == 0 && query_params.len() == 0 && op.request_body is None {
        seq![]
    } else {
        "## Input\n\n"@ + params_table_spec(path_heading(), path_params, spec, true) + params_table_spec(
            query_heading(),
            query_params,
            spec,
            false,
        ) + payload_section_spec(op, spec, multi)
    }
}

pub open spec fn deprecation_notice() -> Seq<char> {
    "> **Deprecated.** Avoid using this endpoint when an alternative exists.\n\n"@
}

/// An endpoint file: title, deprecation notice, extensions, info table, input and responses.
pub open spec fn endpoint_spec(
    path: Seq<char>,
    method: Seq<char>,
    op: Operation,
    spec: Spec,
    multi: Set<Seq<char>>,
    servers: Seq<Seq<char>>,
) -> Seq<char> {
    "# "@ + method + " "@ + path + "\n\n"@ + (if op.deprecated == Some(true) {
        deprecation_notice()
    } else {
        seq![]
    }) + extensions_table_spec(op.extensions@) + info_table_spec(
        path,
        method,
        op,
        spec,
        servers,
        required_query_string_spec(query_params_of(op), spec),
    ) + input_section_spec(op, spec, multi) + responses_section_spec(op, spec, multi)
}

fn render_input_section(
    op: &Operation,
    path_params: &Vec<&Parameter>,
    query_params: &Vec<&Parameter>,
    spec: &Spec,
    multi_use: &Vec<String>,
) -> (r: String)
    requires
        derefs(path_params@) == path_params_of(*op),
        derefs(query_params@) == query_params_of(*op),
    ensures
        r@ == input_section_spec(*op, *spec, views(multi_use@).to_set()),
{
    if path_params.len() == 0 && query_params.len() == 0 && op.request_body.is_none() {
        return String::new();
    }
    let mut out = String::from_str("## Input\n\n");
    let p = render_path_params_table(path_params.as_slice(), spec);
    out.append(p.as_str());
    let q = render_query_params_table(query_params.as_slice(), spec);
    out.append(q.as_str());
    let b = render_payload_section(op, spec, multi_use);
    out.append(b.as_str());
    out
}

/// The markdown of one endpoint. `multi_use` names the schemas to link rather than inline;
/// `servers` are the base URLs of the full-URL rows.
pub fn render_endpoint(
    path: &str,
    method: &str,
    op: &Operation,
    spec: &Spec,
    multi_use: &Vec<String>,
    servers: &[String],
) -> (r: String)
    ensures
        r@ == endpoint_spec(path@, method@, *op, *spec, views(multi_use@).to_set(), views(servers@)),
{
    let mut out = String::from_str("# ");
    out.append(method);
    out.append(" ");
    out.append(path);
    out.append("\n\n");
    if op.deprecated == Some(true) {
        out.append("> **Deprecated.** Avoid using this endpoint when an alternative exists.\n\n");
    }
    let e = render_extensions_table(&op.extensions);
    out.append(e.as_str());
    let path_params = params_in(op, ParameterIn::Path);
    let query_params = params_in(op, ParameterIn::Query);
    let query_suffix = required_query_string(query_params.as_slice(), spec);
    let info = render_info_table(path, method, op, spec, servers, query_suffix.as_str());
    out.append(info.as_str());
    let input = render_input_section(op, &path_params, &query_params, spec, multi_use);
    out.append(input.as_str());
    let responses = render_responses_section(op, spec, multi_use);
    out.append(responses.as_str());
    out
}

} // verus!
