//! The request payload and the responses of an endpoint.

use vstd::prelude::*;
use vstd::string::*;
use crate::model::{MediaType, Operation, Response, Schema, Spec};
use crate::text::{str_eq, views};
use crate::writer::endpoint::headers::{headers_table_spec, render_response_headers_table};
use crate::writer::endpoint::info::content_type_list;
use crate::writer::endpoint::links::{links_table_spec, render_response_links_table};
use crate::writer::markdown::{concat_all, desc_paragraph, desc_paragraph_spec, lemma_concat_all_layout, lemma_concat_all_push, lens_before};
use crate::text::join_seqs;
use crate::writer::refs::{opt_view, schema_doc_link, schema_doc_link_spec, schema_ref_name, schema_ref_name_spec};
use crate::writer::schema::render::{render_schema_jsonc, schema_jsonc_spec};

verus! {

/// The first media type stored under `key`.
pub open spec fn lookup_media(content: Seq<(String, MediaType)>, key: Seq<char>) -> Option<MediaType>
    decreases content.len(),
{
    if content.len() == 0 {
        None
    } else if content[0].0@ == key {
        Some(content[0].1)
    } else {
        lookup_media(content.drop_first(), key)
    }
}

/// The schema shown for a body: that of `application/json` when declared, else that of the
/// first media type.
pub open spec fn preferred_schema_spec(content: Seq<(String, MediaType)>) -> Option<Schema> {
    let media = match lookup_media(content, "application/json"@) {
        Some(m) => Some(m),
        None => if content.len() > 0 {
            Some(content[0].1)
        } else {
            None
        },
    };
    match media {
        Some(m) => m.schema,
        None => None,
    }
}

#[verifier::loop_isolation(false)]
pub fn preferred_schema(content: &Vec<(String, MediaType)>) -> (r: Option<&Schema>)
    ensures
        match r {
            Some(s) => preferred_schema_spec(content@) == Some(*s),
            None => preferred_schema_spec(content@) is None,
        },
{
    let mut i: usize = 0;
    assert(content@.skip(0) =~= content@);
    while i < content.len()
        invariant
            i <= content@.len(),
            lookup_media(content@, "application/json"@) == lookup_media(content@.skip(i as int), "application/json"@),
        decreases content@.len() - i,
    {
        assert(content@.skip(i as int)[0] == content@[i as int]);
        assert(content@.skip(i as int).drop_first() =~= content@.skip(i + 1));
        if str_eq(content[i].0.as_str(), "application/json") {
            return match &content[i].1.schema {
                Some(s) => Some(s),
                None => None,
            };
        }
        i += 1;
    }
    if content.len() == 0 {
        return None;
    }
    match &content[0].1.schema {
        Some(s) => Some(s),
        None => None,
    }
}

/// A schema block: a link to the schema's own file when it is shared, else its `jsonc`.
pub open spec fn schema_block_spec(schema: Schema, spec: Spec, multi: Set<Seq<char>>) -> Seq<char> {
    match schema_ref_name_spec(schema) {
        Some(n) if multi.contains(n) => "See ["@ + n + "]("@ + schema_doc_link_spec(n) + ")\n\n"@,
        _ => "```jsonc\n"@ + schema_jsonc_spec(schema, spec, multi) + "\n```\n\n"@,
    }
}

pub fn render_schema_block(schema: &Schema, spec: &Spec, multi_use: &Vec<String>) -> (r: String)
    ensures
        r@ == schema_block_spec(*schema, *spec, views(multi_use@).to_set()),
{
    if let Some(n) = schema_ref_name(schema) {
        if crate::text::contains_string(multi_use, n.as_str()) {
            let mut r = String::from_str("See [");
            r.append(n.as_str());
            r.append("](");
            let l = schema_doc_link(n.as_str());
            r.append(l.as_str());
            r.append(")\n\n");
            return r;
        }
    }
    let mut r = String::from_str("```jsonc\n");
    let j = render_schema_jsonc(schema, spec, multi_use);
    r.append(j.as_str());
    r.append("\n```\n\n");
    r
}

pub open spec fn opt_block(schema: Option<Schema>, spec: Spec, multi: Set<Seq<char>>) -> Seq<char> {
    match schema {
        Some(s) => schema_block_spec(s, spec, multi),
        None => seq![],
    }
}

/// The payload section: nothing without a body or when the body does not resolve; else the
/// heading and the preferred schema's block.
pub open spec fn payload_section_spec(op: Operation, spec: Spec, multi: Set<Seq<char>>) -> Seq<char> {
    match op.request_body {
        Some(Some(body)) => "### Payload\n\n"@ + opt_block(preferred_schema_spec(body.content@), spec, multi),
        _ => seq![],
    }
}

pub fn render_payload_section(op: &Operation, spec: &Spec, multi_use: &Vec<String>) -> (r: String)
    ensures
        r@ == payload_section_spec(*op, *spec, views(multi_use@).to_set()),
{
    match &op.request_body {
        Some(Some(body)) => {
            let mut out = String::from_str("### Payload\n\n");
            if let Some(schema) = preferred_schema(&body.content) {
                let b = render_schema_block(schema, spec, multi_use);
                out.append(b.as_str());
            }
            out
        },
        _ => String::new(),
    }
}

/// The section of one response: heading, content types, description, headers, schema block
/// and links; nothing when the response does not resolve.
pub open spec fn response_spec(code: Seq<char>, resp: Option<Response>, spec: Spec, multi: Set<Seq<char>>) -> Seq<char> {
    match resp {
        None => seq![],
        Some(r) => "## Response "@ + code + "\n\n"@ + (if r.content@.len() == 0 {
            seq![]
        } else {
            "**Response Content-Type:** "@ + join_seqs(
                r.content@.map_values(|c: (String, MediaType)| "`"@ + c.0@ + "`"@),
                ", "@,
            ) + "\n\n"@
        }) + desc_paragraph_spec(opt_view(r.description)) + headers_table_spec(r.headers@, spec)
            + opt_block(preferred_schema_spec(r.content@), spec, multi) + links_table_spec(r.links@, spec),
    }
}

pub fn render_response(code: &str, resp: &Option<Response>, spec: &Spec, multi_use: &Vec<String>) -> (r: String)
    ensures
        r@ == response_spec(code@, *resp, *spec, views(multi_use@).to_set()),
{
    let r = match resp {
        Some(r) => r,
        None => return String::new(),
    };
    let mut out = String::from_str("## Response ");
    out.append(code);
    out.append("\n\n");
    if r.content.len() > 0 {
        out.append("**Response Content-Type:** ");
        let types = content_type_list(&r.content);
        out.append(types.as_str());
        out.append("\n\n");
    }
    let d = match &r.description {
        Some(s) => desc_paragraph(Some(s.as_str())),
        None => desc_paragraph(None),
    };
    out.append(d.as_str());
    let h = render_response_headers_table(&r.headers, spec);
    out.append(h.as_str());
    if let Some(schema) = preferred_schema(&r.content) {
        let b = render_schema_block(schema, spec, multi_use);
        out.append(b.as_str());
    }
    let l = render_response_links_table(&r.links, spec);
    out.append(l.as_str());
    out
}

/// Every response section, in the order the document lists them.
pub open spec fn responses_section_spec(op: Operation, spec: Spec, multi: Set<Seq<char>>) -> Seq<char> {
    match op.responses {
        None => seq![],
        Some(rs) => concat_all(
            rs@.map_values(|e: (String, Option<Response>)| response_spec(e.0@, e.1, spec, multi)),
        ),
    }
}

/// The responses section holds the section of every response the operation lists, in
/// document order and nothing else: the `k`-th right after those of the responses before
/// it. A resolved response's section opens with `## Response {code}` and a blank line.
pub proof fn lemma_responses_section_lists_every_response(op: Operation, spec: Spec, multi: Set<Seq<char>>)
    requires
        op.responses is Some,
    ensures
        ({
            let rs = op.responses.unwrap()@;
            let secs = rs.map_values(|e: (String, Option<Response>)| response_spec(e.0@, e.1, spec, multi));
            let out = responses_section_spec(op, spec, multi);
            &&& out.len() == lens_before(secs, rs.len() as int)
            &&& forall|k: int| 0 <= k < rs.len() ==> out.subrange(lens_before(secs, k), lens_before(secs, k) + secs[k].len())
                == response_spec(#[trigger] rs[k].0@, rs[k].1, spec, multi)
            &&& forall|k: int| 0 <= k < rs.len() && (#[trigger] rs[k]).1 is Some ==> {
                let head = "## Response "@ + rs[k].0@ + "\n\n"@;
                head.len() <= secs[k].len() && secs[k].take(head.len() as int) == head
            }
        }),
{
    let rs = op.responses.unwrap()@;
    let secs = rs.map_values(|e: (String, Option<Response>)| response_spec(e.0@, e.1, spec, multi));
    lemma_concat_all_layout(secs);
    assert forall|k: int| 0 <= k < rs.len() && (#[trigger] rs[k]).1 is Some implies {
        let head = "## Response "@ + rs[k].0@ + "\n\n"@;
        head.len() <= secs[k].len() && secs[k].take(head.len() as int) == head
    } by {
        let head = "## Response "@ + rs[k].0@ + "\n\n"@;
        let r = rs[k].1.unwrap();
        let rest = (if r.content@.len() == 0 {
            seq![]
        } else {
            "**Response Content-Type:** "@ + join_seqs(
                r.content@.map_values(|c: (String, MediaType)| "`"@ + c.0@ + "`"@),
                ", "@,
            ) + "\n\n"@
        }) + desc_paragraph_spec(opt_view(r.description)) + headers_table_spec(r.headers@, spec)
            + opt_block(preferred_schema_spec(r.content@), spec, multi) + links_table_spec(r.links@, spec);
        assert(secs[k] =~= head + rest);
        assert((head + rest).take(head.len() as int) =~= head);
    }
    assert forall|k: int| 0 <= k < rs.len() implies responses_section_spec(op, spec, multi).subrange(
        lens_before(secs, k),
        lens_before(secs, k) + secs[k].len(),
    ) == response_spec(#[trigger] rs[k].0@, rs[k].1, spec, multi) by {
        assert(secs[k] == response_spec(rs[k].0@, rs[k].1, spec, multi));
    }
}

pub fn render_responses_section(op: &Operation, spec: &Spec, multi_use: &Vec<String>) -> (r: String)
    ensures
        r@ == responses_section_spec(*op, *spec, views(multi_use@).to_set()),
{
    let responses = match &op.responses {
        Some(rs) => rs,
        None => return String::new(),
    };
    let ghost multi = views(multi_use@).to_set();
    let ghost f = |e: (String, Option<Response>)| response_spec(e.0@, e.1, *spec, multi);
    let mut out = String::new();
    let mut i: usize = 0;
    while i < responses.len()
        invariant
            i <= responses@.len(),
            multi == views(multi_use@).to_set(),
            f == (|e: (String, Option<Response>)| response_spec(e.0@, e.1, *spec, multi)),
            out@ == concat_all(responses@.take(i as int).map_values(f)),
        decreases responses@.len() - i,
    {
        let s = render_response(responses[i].0.as_str(), &responses[i].1, spec, multi_use);
        proof {
            assert(responses@.take(i + 1).map_values(f) =~= responses@.take(i as int).map_values(f).push(f(responses@[i as int])));
            lemma_concat_all_push(responses@.take(i as int).map_values(f), s@);
        }
        out.append(s.as_str());
        i += 1;
    }
    assert(responses@.take(responses@.len() as int) =~= responses@);
    out
}

} // verus!
