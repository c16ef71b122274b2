//! The response links table.

use vstd::prelude::*;
use vstd::string::*;
use crate::model::{Link, LinkOrRef, Spec};
use crate::text::{join, join_seqs, str_eq, strip_prefix, views, without_prefix};
use crate::writer::markdown::{concat_all, lemma_concat_all_push};

verus! {

/// The first component link stored under `name`.
pub open spec fn lookup_link(links: Seq<(String, LinkOrRef)>, name: Seq<char>) -> Option<LinkOrRef>
    decreases links.len(),
{
    if links.len() == 0 {
        None
    } else if links[0].0@ == name {
        Some(links[0].1)
    } else {
        lookup_link(links.drop_first(), name)
    }
}

/// A link itself, or the component link that a `#/components/links/…` reference names when
/// that one is inline; `None` otherwise.
pub open spec fn resolve_link_spec(l: LinkOrRef, spec: Spec) -> Option<Link> {
    match l {
        LinkOrRef::Object(link) => Some(link),
        LinkOrRef::Ref(p) => match without_prefix(p@, "#/components/links/"@) {
            None => None,
            Some(name) => match spec.components {
                None => None,
                Some(c) => match lookup_link(c.links@, name) {
                    Some(LinkOrRef::Object(link)) => Some(link),
                    _ => None,
                },
            },
        },
    }
}

#[verifier::loop_isolation(false)]
pub fn resolve_link<'a>(l: &'a LinkOrRef, spec: &'a Spec) -> (r: Option<&'a Link>)
    ensures
        match r {
            Some(link) => resolve_link_spec(*l, *spec) == Some(*link),
            None => resolve_link_spec(*l, *spec) is None,
        },
{
    match l {
        LinkOrRef::Object(link) => Some(link),
        LinkOrRef::Ref(p) => {
            let name = match strip_prefix(p.as_str(), "#/components/links/") {
                Some(n) => n,
                None => return None,
            };
            let components = match &spec.components {
                Some(c) => c,
                None => return None,
            };
            let links = &components.links;
            let mut i: usize = 0;
            assert(links@.skip(0) =~= links@);
            while i < links.len()
                invariant
                    i <= links@.len(),
                    lookup_link(links@, name@) == lookup_link(links@.skip(i as int), name@),
                decreases links@.len() - i,
            {
                assert(links@.skip(i as int)[0] == links@[i as int]);
                assert(links@.skip(i as int).drop_first() =~= links@.skip(i + 1));
                if str_eq(links[i].0.as_str(), name.as_str()) {
                    assert(lookup_link(links@, name@) == Some(links@[i as int].1));
                    assert(without_prefix(p@, "#/components/links/"@) == Some(name@));
                    return match &links[i].1 {
                        LinkOrRef::Object(link) => Some(link),
                        LinkOrRef::Ref(_) => None,
                    };
                }
                i += 1;
            }
            None
        },
    }
}

/// `key: value` for each link parameter, joined by `, `; `-` when there is none.
pub open spec fn link_params_spec(params: Seq<(String, String)>) -> Seq<char> {
    if params.len() == 0 {
        "-"@
    } else {
        join_seqs(params.map_values(|kv: (String, String)| kv.0@ + ": "@ + kv.1@), ", "@)
    }
}

/// The row of a link: name, target operation (id or reference), parameters, description.
pub open spec fn link_row(name: Seq<char>, link: Link) -> Seq<char> {
    let (operation, params, description) = match link {
        Link::Id { operation_id, parameters, description } => (operation_id, parameters, description),
        Link::Ref { operation_ref, parameters, description } => (operation_ref, parameters, description),
    };
    "| `"@ + name + "` | `"@ + operation@ + "` | "@ + link_params_spec(params@) + " | "@ + (match description {
        Some(d) => d@,
        None => "-"@,
    }) + " |\n"@
}

fn render_link_params(params: &Vec<(String, String)>) -> (r: String)
    ensures
        r@ == link_params_spec(params@),
{
    if params.len() == 0 {
        return String::from_str("-");
    }
    let ghost f = |kv: (String, String)| kv.0@ + ": "@ + kv.1@;
    let mut parts: Vec<String> = Vec::new();
    let mut i: usize = 0;
    while i < params.len()
        invariant
            i <= params@.len(),
            views(parts@) == params@.take(i as int).map_values(|kv: (String, String)| kv.0@ + ": "@ + kv.1@),
        decreases params@.len() - i,
    {
        let mut part = params[i].0.clone();
        part.append(": ");
        part.append(params[i].1.as_str());
        let ghost before = parts@;
        parts.push(part);
        assert(views(parts@) =~= views(before).push(part@));
        assert(params@.take(i + 1) =~= params@.take(i as int).push(params@[i as int]));
        assert(views(parts@) =~= params@.take(i + 1).map_values(|kv: (String, String)| kv.0@ + ": "@ + kv.1@));
        i += 1;
    }
    assert(params@.take(params@.len() as int) =~= params@);
    join(&parts, ", ")
}

pub fn render_link_row(name: &str, link: &Link) -> (r: String)
    ensures
        r@ == link_row(name@, *link),
{
    let (operation, params, description) = match link {
        Link::Id { operation_id, parameters, description } => (operation_id, parameters, description),
        Link::Ref { operation_ref, parameters, description } => (operation_ref, parameters, description),
    };
    let ps = render_link_params(params);
    let mut out = String::from_str("| `");
    out.append(name);
    out.append("` | `");
    out.append(operation.as_str());
    out.append("` | ");
    out.append(ps.as_str());
    out.append(" | ");
    match description {
        Some(d) => out.append(d.as_str()),
        None => out.append("-"),
    }
    out.append(" |\n");
    out
}

/// The rows of the links that resolve, in order; the others are left out.
pub open spec fn link_rows(links: Seq<(String, LinkOrRef)>, spec: Spec) -> Seq<Seq<char>>
    decreases links.len(),
{
    if links.len() == 0 {
        seq![]
    } else {
        let prefix = link_rows(links.drop_last(), spec);
        match resolve_link_spec(links.last().1, spec) {
            Some(link) => prefix.push(link_row(links.last().0@, link)),
            None => prefix,
        }
    }
}

pub open spec fn links_heading() -> Seq<char> {
    "### Links\n\n| Link | Operation | Parameters | Description |\n|------|-----------|------------|-------------|\n"@
}

/// The links table of a response, or nothing when it declares no link.
pub open spec fn links_table_spec(links: Seq<(String, LinkOrRef)>, spec: Spec) -> Seq<char> {
    if links.len() == 0 {
        seq![]
    } else {
        links_heading() + concat_all(link_rows(links, spec)) + "\n"@
    }
}

pub fn render_response_links_table(links: &Vec<(String, LinkOrRef)>, spec: &Spec) -> (r: String)
    ensures
        r@ == links_table_spec(links@, *spec),
{
    if links.len() == 0 {
        return String::new();
    }
    let mut out = String::from_str(
        "### Links\n\n| Link | Operation | Parameters | Description |\n|------|-----------|------------|-------------|\n",
    );
    let ghost head = out@;
    let mut i: usize = 0;
    while i < links.len()
        invariant
            i <= links@.len(),
            out@ == head + concat_all(link_rows(links@.take(i as int), *spec)),
        decreases links@.len() - i,
    {
        assert(links@.take(i + 1).drop_last() =~= links@.take(i as int));
        let entry = &links[i];
        match resolve_link(&entry.1, spec) {
            Some(link) => {
                let row = render_link_row(entry.0.as_str(), link);
                proof {
                    lemma_concat_all_push(link_rows(links@.take(i as int), *spec), row@);
                }
                out.append(row.as_str());
            },
            None => {},
        }
        i += 1;
    }
    assert(links@.take(links@.len() as int) =~= links@);
    out.append("\n");
    out
}

} // verus!
