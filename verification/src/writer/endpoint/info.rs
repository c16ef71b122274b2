//! The key/value table at the top of an endpoint file: method, URLs, auth, request content
//! type and external docs.

use vstd::prelude::*;
use vstd::string::*;
use crate::model::{ExternalDoc, MediaType, Operation, RequestBody, SecurityRequirement, Spec};
use crate::text::{join, join_seqs, str_eq, views};
use crate::writer::markdown::{row_line, table_text, Table};

verus! {

/// A scheme name, with its scopes when it asks for any.
pub open spec fn security_part(name: Seq<char>, scopes: Seq<String>) -> Seq<char> {
    if scopes.len() == 0 {
        name
    } else {
        name + " (scopes: "@ + join_seqs(views(scopes), ", "@) + ")"@
    }
}

pub fn format_security_scheme(scheme: &str, scopes: &Vec<String>) -> (r: String)
    ensures
        r@ == security_part(scheme@, scopes@),
{
    if scopes.len() == 0 {
        return String::from_str(scheme);
    }
    let mut r = String::from_str(scheme);
    r.append(" (scopes: ");
    let inner = join(scopes, ", ");
    r.append(inner.as_str());
    r.append(")");
    r
}

/// Every scheme of every requirement, in order.
pub open spec fn security_parts(reqs: Seq<SecurityRequirement>) -> Seq<Seq<char>>
    decreases reqs.len(),
{
    if reqs.len() == 0 {
        seq![]
    } else {
        security_parts(reqs.drop_last()) + reqs.last().schemes@.map_values(
            |s: (String, Vec<String>)| security_part(s.0@, s.1@),
        )
    }
}

/// The requirements that apply: the operation's own, else the document's.
pub open spec fn effective_security(op_security: Seq<SecurityRequirement>, spec: Spec) -> Seq<SecurityRequirement> {
    if op_security.len() == 0 {
        spec.security@
    } else {
        op_security
    }
}

/// The auth cell: the schemes joined by `; `, or `None` when nothing is required.
pub open spec fn security_spec(op_security: Seq<SecurityRequirement>, spec: Spec) -> Seq<char> {
    let parts = security_parts(effective_security(op_security, spec));
    if parts.len() == 0 {
        "None"@
    } else {
        join_seqs(parts, "; "@)
    }
}

#[verifier::loop_isolation(false)]
fn requirement_parts(req: &SecurityRequirement, parts: &mut Vec<String>)
    ensures
        views(final(parts)@) == views(old(parts)@) + req.schemes@.map_values(
            |s: (String, Vec<String>)| security_part(s.0@, s.1@),
        ),
{
    let ghost start = views(parts@);
    let mut j: usize = 0;
    while j < req.schemes.len()
        invariant
            j <= req.schemes@.len(),
            views(parts@) == start + req.schemes@.take(j as int).map_values(
                |s: (String, Vec<String>)| security_part(s.0@, s.1@),
            ),
        decreases req.schemes@.len() - j,
    {
        let part = format_security_scheme(req.schemes[j].0.as_str(), &req.schemes[j].1);
        let ghost before = parts@;
        parts.push(part);
        assert(views(parts@) =~= views(before).push(part@));
        assert(req.schemes@.take(j + 1) =~= req.schemes@.take(j as int).push(req.schemes@[j as int]));
        assert(views(parts@) =~= start + req.schemes@.take(j + 1).map_values(
            |s: (String, Vec<String>)| security_part(s.0@, s.1@),
        ));
        j += 1;
    }
    assert(req.schemes@.take(req.schemes@.len() as int) =~= req.schemes@);
}

pub fn render_security(op_security: &Vec<SecurityRequirement>, spec: &Spec) -> (r: String)
    ensures
        r@ == security_spec(op_security@, *spec),
{
    let effective = if op_security.len() == 0 {
        &spec.security
    } else {
        op_security
    };
    let mut parts: Vec<String> = Vec::new();
    let mut i: usize = 0;
    while i < effective.len()
        invariant
            i <= effective@.len(),
            views(parts@) == security_parts(effective@.take(i as int)),
        decreases effective@.len() - i,
    {
        assert(effective@.take(i + 1).drop_last() =~= effective@.take(i as int));
        requirement_parts(&effective[i], &mut parts);
        i += 1;
    }
    assert(effective@.take(effective@.len() as int) =~= effective@);
    if parts.len() == 0 {
        String::from_str("None")
    } else {
        join(&parts, "; ")
    }
}

pub open spec fn is_body_method(method: Seq<char>) -> bool {
    method == "POST"@ || method == "PUT"@ || method == "PATCH"@
}

/// The request content types in backticks joined by `, `, for a `POST`, `PUT` or `PATCH`
/// whose body resolves and declares some.
pub open spec fn content_type_spec(method: Seq<char>, op: Operation) -> Option<Seq<char>> {
    if !is_body_method(method) {
        None
    } else {
        match op.request_body {
            Some(Some(body)) => if body.content@.len() == 0 {
                None
            } else {
                Some(content_types_spec(body))
            },
            _ => None,
        }
    }
}

pub open spec fn content_types_spec(body: RequestBody) -> Seq<char> {
    join_seqs(body.content@.map_values(|c: (String, MediaType)| "`"@ + c.0@ + "`"@), ", "@)
}

/// The declared content types of a body or response, in backticks, joined by `, `.
pub fn content_type_list(content: &Vec<(String, MediaType)>) -> (r: String)
    ensures
        r@ == join_seqs(content@.map_values(|c: (String, MediaType)| "`"@ + c.0@ + "`"@), ", "@),
{
    let mut parts: Vec<String> = Vec::new();
    let mut i: usize = 0;
    while i < content.len()
        invariant
            i <= content@.len(),
            views(parts@) == content@.take(i as int).map_values(|c: (String, MediaType)| "`"@ + c.0@ + "`"@),
        decreases content@.len() - i,
    {
        let mut part = String::from_str("`");
        part.append(content[i].0.as_str());
        part.append("`");
        let ghost before = parts@;
        parts.push(part);
        assert(views(parts@) =~= views(before).push(part@));
        assert(content@.take(i + 1) =~= content@.take(i as int).push(content@[i as int]));
        assert(views(parts@) =~= content@.take(i + 1).map_values(|c: (String, MediaType)| "`"@ + c.0@ + "`"@));
        i += 1;
    }
    assert(content@.take(content@.len() as int) =~= content@);
    join(&parts, ", ")
}

pub fn render_content_type(method: &str, op: &Operation) -> (r: Option<String>)
    ensures
        crate::writer::refs::opt_view(r) == content_type_spec(method@, *op),
{
    if !(str_eq(method, "POST") || str_eq(method, "PUT") || str_eq(method, "PATCH")) {
        return None;
    }
    match &op.request_body {
        Some(Some(body)) => {
            if body.content.len() == 0 {
                None
            } else {
                Some(content_type_list(&body.content))
            }
        },
        _ => None,
    }
}

/// A link labelled with the description, or the bare URL.
pub open spec fn external_docs_spec(docs: ExternalDoc) -> Seq<char> {
    match docs.description {
        Some(d) => "["@ + d@ + "]("@ + docs.url@ + ")"@,
        None => docs.url@,
    }
}

pub fn render_external_docs(docs: &ExternalDoc) -> (r: String)
    ensures
        r@ == external_docs_spec(*docs),
{
    match &docs.description {
        Some(d) => {
            let mut r = String::from_str("[");
            r.append(d.as_str());
            r.append("](");
            r.append(docs.url.as_str());
            r.append(")");
            r
        },
        None => docs.url.clone(),
    }
}

/// A cell in backticks.
pub open spec fn code(s: Seq<char>) -> Seq<char> {
    "`"@ + s + "`"@
}

/// The full-URL rows: one per server base, with the path and the query string.
pub open spec fn full_url_rows(path: Seq<char>, servers: Seq<Seq<char>>, suffix: Seq<char>) -> Seq<Seq<Seq<char>>> {
    servers.map_values(|b: Seq<char>| seq!["**Full URL**"@, code(b + path + suffix)])
}

/// The rows of the info table, as cells.
pub open spec fn info_rows(
    path: Seq<char>,
    method: Seq<char>,
    op: Operation,
    spec: Spec,
    servers: Seq<Seq<char>>,
    suffix: Seq<char>,
) -> Seq<Seq<Seq<char>>> {
    seq![seq!["**Method**"@, code(method)], seq!["**URL**"@, code(path)]]
        + full_url_rows(path, servers, suffix)
        + seq![seq!["**Auth**"@, security_spec(op.security@, spec)]]
        + (match content_type_spec(method, op) {
        Some(ct) => seq![seq!["**Request Content-Type**"@, ct]],
        None => seq![],
    }) + (match op.external_docs {
        Some(d) => seq![seq!["**Docs**"@, external_docs_spec(d)]],
        None => seq![],
    })
}

/// The info table: a two-column table with blank headers.
pub open spec fn info_table_spec(
    path: Seq<char>,
    method: Seq<char>,
    op: Operation,
    spec: Spec,
    servers: Seq<Seq<char>>,
    suffix: Seq<char>,
) -> Seq<char> {
    table_text(
        Seq::new(2, |i: int| " "@),
        info_rows(path, method, op, spec, servers, suffix).map_values(|r: Seq<Seq<char>>| row_line(r)),
    )
}

fn add_row2(table: &mut Table, a: &str, b: &str)
    ensures
        final(table).header_cells == old(table).header_cells,
        views(final(table).rows@) == views(old(table).rows@).push(row_line(seq![a@, b@])),
{
    let cells: [&str; 2] = [a, b];
    table.row(&cells);
    assert(cells@.map_values(|c: &str| c@) =~= seq![a@, b@]);
}

fn code_cell(s: &str) -> (r: String)
    ensures
        r@ == code(s@),
{
    let mut r = String::from_str("`");
    r.append(s);
    r.append("`");
    r
}

#[verifier::loop_isolation(false)]
pub fn render_info_table(
    path: &str,
    method: &str,
    op: &Operation,
    spec: &Spec,
    servers: &[String],
    query_suffix: &str,
) -> (r: String)
    ensures
        r@ == info_table_spec(path@, method@, *op, *spec, views(servers@), query_suffix@),
{
    let ghost f = |r: Seq<Seq<char>>| row_line(r);
    let ghost rows = info_rows(path@, method@, *op, *spec, views(servers@), query_suffix@);
    let mut table = Table::unlabeled(2);
    let m = code_cell(method);
    add_row2(&mut table, "**Method**", m.as_str());
    let u = code_cell(path);
    add_row2(&mut table, "**URL**", u.as_str());
    let ghost first = seq![seq!["**Method**"@, code(method@)], seq!["**URL**"@, code(path@)]];
    assert(views(table.rows@) =~= first.map_values(f));
    let mut i: usize = 0;
    while i < servers.len()
        invariant
            i <= servers@.len(),
            views(table.rows@) == (first + full_url_rows(path@, views(servers@.take(i as int)), query_suffix@)).map_values(f),
            views(table.header_cells@) == Seq::new(2, |k: int| " "@),
        decreases servers@.len() - i,
    {
        let mut url = servers[i].clone();
        url.append(path);
        url.append(query_suffix);
        let c = code_cell(url.as_str());
        add_row2(&mut table, "**Full URL**", c.as_str());
        assert(servers@.take(i + 1) =~= servers@.take(i as int).push(servers@[i as int]));
        assert((first + full_url_rows(path@, views(servers@.take(i + 1)), query_suffix@)).map_values(f) =~= (first
            + full_url_rows(path@, views(servers@.take(i as int)), query_suffix@)).map_values(f).push(
            row_line(seq!["**Full URL**"@, c@]),
        ));
        i += 1;
    }
    assert(servers@.take(servers@.len() as int) =~= servers@);
    let ghost upto_urls = first + full_url_rows(path@, views(servers@), query_suffix@);
    let auth = render_security(&op.security, spec);
    add_row2(&mut table, "**Auth**", auth.as_str());
    let ghost with_auth = upto_urls + seq![seq!["**Auth**"@, auth@]];
    assert(views(table.rows@) =~= with_auth.map_values(f));
    let ct = render_content_type(method, op);
    let ghost with_ct = with_auth + (match content_type_spec(method@, *op) {
        Some(c) => seq![seq!["**Request Content-Type**"@, c]],
        None => seq![],
    });
    if let Some(c) = &ct {
        add_row2(&mut table, "**Request Content-Type**", c.as_str());
    }
    assert(views(table.rows@) =~= with_ct.map_values(f));
    if let Some(docs) = &op.external_docs {
        let d = render_external_docs(docs);
        add_row2(&mut table, "**Docs**", d.as_str());
    }
    assert(rows =~= with_ct + (match op.external_docs {
        Some(d) => seq![seq!["**Docs**"@, external_docs_spec(d)]],
        None => seq![],
    }));
    assert(views(table.rows@) =~= rows.map_values(f));
    table.finish()
}

} // verus!
