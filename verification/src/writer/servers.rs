//! The server base URLs that "Full URL" rows use.

use vstd::prelude::*;
use crate::model::Spec;
use crate::text::{trim_end_char, trim_end_char_seq, views};

verus! {

/// The URLs that apply: the override list when it is not empty, else the document's servers.
pub open spec fn server_sources(spec: Spec, servers_override: Seq<String>) -> Seq<Seq<char>> {
    if servers_override.len() == 0 {
        spec.servers@.map_values(|s: crate::model::Server| s.url@)
    } else {
        views(servers_override)
    }
}

/// Returns the base server URLs for "Full URL" fields, trimmed of trailing slashes.
/// Prefers `servers_override` over the spec's declared servers.
pub fn effective_server_bases(spec: &Spec, servers_override: &[String]) -> (r: Vec<String>)
    ensures
        views(r@) == server_sources(*spec, servers_override@).map_values(
            |u: Seq<char>| trim_end_char_seq(u, '/'),
        ),
{
    let ghost src = server_sources(*spec, servers_override@);
    let n = if servers_override.len() == 0 { spec.servers.len() } else { servers_override.len() };
    let mut r: Vec<String> = Vec::new();
    let mut i: usize = 0;
    while i < n
        invariant
            i <= n,
            n == src.len(),
            src == server_sources(*spec, servers_override@),
            views(r@) == src.take(i as int).map_values(|u: Seq<char>| trim_end_char_seq(u, '/')),
        decreases n - i,
    {
        let u = if servers_override.len() == 0 {
            spec.servers[i].url.as_str()
        } else {
            servers_override[i].as_str()
        };
        assert(u@ == src[i as int]);
        let t = trim_end_char(u, '/');
        let ghost old_r = r@;
        r.push(t);
        assert(views(r@) =~= views(old_r).push(t@));
        assert(src.take(i + 1) =~= src.take(i as int).push(src[i as int]));
        assert(views(r@) =~= src.take(i + 1).map_values(|u: Seq<char>| trim_end_char_seq(u, '/')));
        i += 1;
    }
    assert(src.take(n as int) =~= src);
    r
}

} // verus!
