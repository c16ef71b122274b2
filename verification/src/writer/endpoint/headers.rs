//! The response headers table.

use vstd::prelude::*;
use vstd::string::*;
use crate::model::{Header, Spec};
use crate::writer::endpoint::params::{param_type_spec, render_param_type};
use crate::writer::markdown::{concat_all, lemma_concat_all_push};

verus! {

/// The row of a resolved header: name, type and description (`-` when absent).
pub open spec fn header_row(name: Seq<char>, h: Header, spec: Spec) -> Seq<char> {
    "| `"@ + name + "` | "@ + param_type_spec(h.schema, spec) + " | "@ + (match h.description {
        Some(d) => d@,
        None => "-"@,
    }) + " |\n"@
}

/// The rows of the headers that resolved, in order; unresolved ones are left out.
pub open spec fn header_rows(hs: Seq<(String, Option<Header>)>, spec: Spec) -> Seq<Seq<char>>
    decreases hs.len(),
{
    if hs.len() == 0 {
        seq![]
    } else {
        let prefix = header_rows(hs.drop_last(), spec);
        match hs.last().1 {
            Some(h) => prefix.push(header_row(hs.last().0@, h, spec)),
            None => prefix,
        }
    }
}

pub open spec fn headers_heading() -> Seq<char> {
    "### Response Headers\n\n| Header | Type | Description |\n|--------|------|-------------|\n"@
}

/// The headers table of a response, or nothing when it declares no header.
pub open spec fn headers_table_spec(hs: Seq<(String, Option<Header>)>, spec: Spec) -> Seq<char> {
    if hs.len() == 0 {
        seq![]
    } else {
        headers_heading() + concat_all(header_rows(hs, spec)) + "\n"@
    }
}

fn render_header_row(name: &str, h: &Header, spec: &Spec) -> (r: String)
    ensures
        r@ == header_row(name@, *h, *spec),
{
    let ty = render_param_type(&h.schema, spec);
    let mut out = String::from_str("| `");
    out.append(name);
    out.append("` | ");
    out.append(ty.as_str());
    out.append(" | ");
    match &h.description {
        Some(d) => out.append(d.as_str()),
        None => out.append("-"),
    }
    out.append(" |\n");
    out
}

pub fn render_response_headers_table(headers: &Vec<(String, Option<Header>)>, spec: &Spec) -> (r: String)
    ensures
        r@ == headers_table_spec(headers@, *spec),
{
    if headers.len() == 0 {
        return String::new();
    }
    let mut out = String::from_str(
        "### Response Headers\n\n| Header | Type | Description |\n|--------|------|-------------|\n",
    );
    let ghost head = out@;
    let mut i: usize = 0;
    while i < headers.len()
        invariant
            i <= headers@.len(),
            out@ == head + concat_all(header_rows(headers@.take(i as int), *spec)),
        decreases headers@.len() - i,
    {
        assert(headers@.take(i + 1).drop_last() =~= headers@.take(i as int));
        let entry = &headers[i];
        match &entry.1 {
            Some(h) => {
                let row = render_header_row(entry.0.as_str(), h, spec);
                proof {
                    lemma_concat_all_push(header_rows(headers@.take(i as int), *spec), row@);
                }
                out.append(row.as_str());
            },
            None => {},
        }
        i += 1;
    }
    assert(headers@.take(headers@.len() as int) =~= headers@);
    out.append("\n");
    out
}

} // verus!
