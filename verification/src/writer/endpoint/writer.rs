//! `endpoints/`: the endpoint files grouped by category, with an index per category and a
//! top-level index of the categories.

use vstd::prelude::*;
use vstd::string::*;
use crate::model::{OperationEntry, Spec};
use crate::text::{
    contains_seq, is_substring_at, join, join_seqs, lemma_join_contains_part, lemma_seq_lt_irreflexive, lemma_seq_lt_total, lemma_seq_lt_transitive, seq_lt,
    str_eq, str_lt, trim_end_char_seq, views,
};
use crate::writer::endpoint::refs::{collect_multi_use_schemas, multi_use_set};
use crate::writer::endpoint::render::{endpoint_spec, render_endpoint};
use crate::writer::markdown::{concat_all, lemma_concat_all_contains, lemma_concat_all_push};
use crate::writer::naming::{
    category_label, category_label_spec, endpoint_filename, endpoint_filename_spec, op_category,
    op_category_spec, path_hash,
};
use crate::writer::servers::{effective_server_bases, server_sources};
use crate::writer::writes::{path2, path3, writes_view, Writes};

verus! {

pub struct EndpointWriter {
    pub servers_override: Vec<String>,
}

/// One rendered endpoint: its file name, its index label, its content, and whether it is
/// deprecated.
pub struct Endpoint {
    pub filename: String,
    pub summary: String,
    pub content: String,
    pub deprecated: bool,
}

/// An endpoint as character sequences: file name, label, content, deprecated.
pub type EndpointView = (Seq<char>, Seq<char>, Seq<char>, bool);

pub open spec fn endpoint_view(e: Endpoint) -> EndpointView {
    (e.filename@, e.summary@, e.content@, e.deprecated)
}

/// The index line of an endpoint; a deprecated one is struck through and marked.
pub open spec fn index_entry_spec(e: EndpointView) -> Seq<char> {
    if e.3 {
        "- ~~["@ + e.1 + "](./"@ + e.0 + ")~~ *(deprecated)*"@
    } else {
        "- ["@ + e.1 + "](./"@ + e.0 + ")"@
    }
}

impl Endpoint {
    pub fn index_entry(&self) -> (r: String)
        ensures
            r@ == index_entry_spec(endpoint_view(*self)),
    {
        let mut r = if self.deprecated {
            String::from_str("- ~~[")
        } else {
            String::from_str("- [")
        };
        r.append(self.summary.as_str());
        r.append("](./");
        r.append(self.filename.as_str());
        if self.deprecated {
            r.append(")~~ *(deprecated)*");
        } else {
            r.append(")");
        }
        r
    }
}

/// The index of the first group whose key is `key`.
pub open spec fn find_group<E>(groups: Seq<(Seq<char>, Seq<E>)>, key: Seq<char>) -> Option<int>
    decreases groups.len(),
{
    if groups.len() == 0 {
        None
    } else if groups[0].0 == key {
        Some(0)
    } else {
        match find_group(groups.drop_first(), key) {
            Some(i) => Some(i + 1),
            None => None,
        }
    }
}

/// Where a new key goes: after the leading groups whose keys sort before it.
pub open spec fn insert_pos<E>(groups: Seq<(Seq<char>, Seq<E>)>, key: Seq<char>) -> nat
    decreases groups.len(),
{
    if groups.len() == 0 {
        0
    } else if seq_lt(groups[0].0, key) {
        1 + insert_pos(groups.drop_first(), key)
    } else {
        0
    }
}

/// Adds `e` under `key`: at the end of its group, or in a new group at its place in order.
pub open spec fn add_to_group<E>(groups: Seq<(Seq<char>, Seq<E>)>, key: Seq<char>, e: E) -> Seq<(Seq<char>, Seq<E>)> {
    match find_group(groups, key) {
        Some(i) => groups.update(i, (groups[i].0, groups[i].1.push(e))),
        None => groups.insert(insert_pos(groups, key) as int, (key, seq![e])),
    }
}

/// The items grouped by key, keys in order, each group keeping the items' order.
pub open spec fn grouped<E>(items: Seq<(Seq<char>, E)>) -> Seq<(Seq<char>, Seq<E>)>
    decreases items.len(),
{
    if items.len() == 0 {
        seq![]
    } else {
        add_to_group(grouped(items.drop_last()), items.last().0, items.last().1)
    }
}

/// The keys strictly increase.
pub open spec fn sorted_keys<E>(groups: Seq<(Seq<char>, Seq<E>)>) -> bool {
    forall|i: int, j: int| 0 <= i < j < groups.len() ==> seq_lt(#[trigger] groups[i].0, #[trigger] groups[j].0)
}

proof fn lemma_find_group<E>(groups: Seq<(Seq<char>, Seq<E>)>, key: Seq<char>)
    ensures
        match find_group(groups, key) {
            Some(i) => 0 <= i < groups.len() && groups[i].0 == key,
            None => forall|k: int| 0 <= k < groups.len() ==> groups[k].0 != key,
        },
    decreases groups.len(),
{
    if groups.len() > 0 {
        lemma_find_group(groups.drop_first(), key);
        if groups[0].0 != key {
            assert forall|k: int| 0 < k < groups.len() implies #[trigger] groups[k] == groups.drop_first()[k - 1] by {}
        }
    }
}

proof fn lemma_insert_pos<E>(groups: Seq<(Seq<char>, Seq<E>)>, key: Seq<char>)
    ensures
        insert_pos(groups, key) <= groups.len(),
        forall|k: int| 0 <= k < insert_pos(groups, key) ==> seq_lt(#[trigger] groups[k].0, key),
        insert_pos(groups, key) < groups.len() ==> !seq_lt(groups[insert_pos(groups, key) as int].0, key),
    decreases groups.len(),
{
    if groups.len() > 0 && seq_lt(groups[0].0, key) {
        lemma_insert_pos(groups.drop_first(), key);
        assert forall|k: int| 0 < k < groups.len() implies #[trigger] groups[k] == groups.drop_first()[k - 1] by {}
    }
}

proof fn lemma_add_sorted<E>(groups: Seq<(Seq<char>, Seq<E>)>, key: Seq<char>, e: E)
    requires
        sorted_keys(groups),
    ensures
        sorted_keys(add_to_group(groups, key, e)),
{
    lemma_find_group(groups, key);
    match find_group(groups, key) {
        Some(i) => {
            let g = add_to_group(groups, key, e);
            assert forall|a: int, b: int| 0 <= a < b < g.len() implies seq_lt(#[trigger] g[a].0, #[trigger] g[b].0) by {
                assert(g[a].0 == groups[a].0);
                assert(g[b].0 == groups[b].0);
            }
        },
        None => {
            lemma_insert_pos(groups, key);
            let p = insert_pos(groups, key) as int;
            let g = add_to_group(groups, key, e);
            assert(g.len() == groups.len() + 1);
            assert forall|a: int, b: int| 0 <= a < b < g.len() implies seq_lt(#[trigger] g[a].0, #[trigger] g[b].0) by {
                if b < p {
                    assert(g[a] == groups[a] && g[b] == groups[b]);
                } else if b == p {
                    assert(g[a] == groups[a]);
                } else if a < p {
                    assert(g[a] == groups[a] && g[b] == groups[b - 1]);
                    assert(seq_lt(groups[a].0, key));
                    assert(groups[p].0 != key);
                    lemma_seq_lt_total(groups[p].0, key);
                    if p < b - 1 {
                        lemma_seq_lt_transitive(groups[a].0, key, groups[p].0);
                        lemma_seq_lt_transitive(groups[a].0, groups[p].0, groups[b - 1].0);
                    } else {
                        lemma_seq_lt_transitive(groups[a].0, key, groups[p].0);
                    }
                } else if a == p {
                    assert(g[a].0 == key && g[b] == groups[b - 1]);
                    assert(groups[p].0 != key);
                    lemma_seq_lt_total(groups[p].0, key);
                    if p < b - 1 {
                        lemma_seq_lt_transitive(key, groups[p].0, groups[b - 1].0);
                    }
                } else {
                    assert(g[a] == groups[a - 1] && g[b] == groups[b - 1]);
                }
            }
        },
    }
}

/// The groups come out sorted by key, with no key twice: the category directories and the
/// top-level index follow the order of the category names.
pub proof fn lemma_grouped_sorted<E>(items: Seq<(Seq<char>, E)>)
    ensures
        sorted_keys(grouped(items)),
        forall|i: int, j: int|
            0 <= i < grouped(items).len() && 0 <= j < grouped(items).len() && i != j ==> grouped(items)[i].0
                != grouped(items)[j].0,
    decreases items.len(),
{
    if items.len() > 0 {
        lemma_grouped_sorted(items.drop_last());
        lemma_add_sorted(grouped(items.drop_last()), items.last().0, items.last().1);
    }
    let g = grouped(items);
    assert forall|i: int, j: int| 0 <= i < g.len() && 0 <= j < g.len() && i != j implies g[i].0 != g[j].0 by {
        lemma_seq_lt_irreflexive(g[i].0);
        if i < j {
            assert(seq_lt(g[i].0, g[j].0));
        } else {
            assert(seq_lt(g[j].0, g[i].0));
        }
    }
}

/// The items under `key`, in order.
pub open spec fn with_key<E>(items: Seq<(Seq<char>, E)>, key: Seq<char>) -> Seq<E>
    decreases items.len(),
{
    if items.len() == 0 {
        seq![]
    } else {
        let prefix = with_key(items.drop_last(), key);
        if items.last().0 == key {
            prefix.push(items.last().1)
        } else {
            prefix
        }
    }
}

proof fn lemma_with_key_absent<E>(items: Seq<(Seq<char>, E)>, key: Seq<char>)
    requires
        forall|i: int| 0 <= i < items.len() ==> #[trigger] items[i].0 != key,
    ensures
        with_key(items, key) == Seq::<E>::empty(),
    decreases items.len(),
{
    if items.len() > 0 {
        assert forall|i: int| 0 <= i < items.drop_last().len() implies #[trigger] items.drop_last()[i].0 != key by {
            assert(items.drop_last()[i] == items[i]);
        }
        lemma_with_key_absent(items.drop_last(), key);
    }
}

/// Grouping loses and invents nothing: each group holds exactly the items with its key, in
/// their order, and every item's key has a group. With [`lemma_grouped_sorted`], every
/// operation lands in exactly one category, in document order.
pub proof fn lemma_grouped_exact<E>(items: Seq<(Seq<char>, E)>)
    ensures
        forall|j: int| 0 <= j < grouped(items).len() ==> (#[trigger] grouped(items)[j]).1 == with_key(
            items,
            grouped(items)[j].0,
        ),
        forall|i: int| 0 <= i < items.len() ==> exists|j: int| 0 <= j < grouped(items).len() && (#[trigger] grouped(items)[j]).0 == (#[trigger] items[i]).0,
    decreases items.len(),
{
    if items.len() == 0 {
        return;
    }
    let prev = items.drop_last();
    let (k, e) = items.last();
    lemma_grouped_exact(prev);
    lemma_grouped_sorted(prev);
    let g = grouped(prev);
    let g2 = grouped(items);
    assert(g2 == add_to_group(g, k, e));
    lemma_find_group(g, k);
    assert forall|key: Seq<char>| #[trigger] with_key(items, key) == (if key == k {
        with_key(prev, key).push(e)
    } else {
        with_key(prev, key)
    }) by {}
    match find_group(g, k) {
        Some(i) => {
            assert forall|j: int| 0 <= j < g2.len() implies (#[trigger] g2[j]).1 == with_key(items, g2[j].0) by {
                if j == i {
                    assert(g2[j] == (g[i].0, g[i].1.push(e)));
                } else {
                    assert(g2[j] == g[j]);
                    assert(g[j].0 != g[i].0);
                }
            }
            assert forall|a: int| 0 <= a < items.len() implies exists|j: int| 0 <= j < g2.len() && (#[trigger] g2[j]).0 == (#[trigger] items[a]).0 by {
                if a == items.len() - 1 {
                    assert(g2[i].0 == items[a].0);
                } else {
                    assert(items[a] == prev[a]);
                    let j = choose|j: int| 0 <= j < g.len() && (#[trigger] g[j]).0 == prev[a].0;
                    assert(g2[j].0 == g[j].0);
                }
            }
        },
        None => {
            lemma_insert_pos(g, k);
            let p = insert_pos(g, k) as int;
            assert forall|a: int| 0 <= a < prev.len() implies #[trigger] prev[a].0 != k by {
                let j = choose|j: int| 0 <= j < g.len() && (#[trigger] g[j]).0 == prev[a].0;
            }
            lemma_with_key_absent(prev, k);
            assert forall|j: int| 0 <= j < g2.len() implies (#[trigger] g2[j]).1 == with_key(items, g2[j].0) by {
                if j < p {
                    assert(g2[j] == g[j]);
                } else if j == p {
                    assert(g2[j] == (k, seq![e]));
                    assert(Seq::<E>::empty().push(e) =~= seq![e]);
                } else {
                    assert(g2[j] == g[j - 1]);
                }
            }
            assert forall|a: int| 0 <= a < items.len() implies exists|j: int| 0 <= j < g2.len() && (#[trigger] g2[j]).0 == (#[trigger] items[a]).0 by {
                if a == items.len() - 1 {
                    assert(g2[p].0 == items[a].0);
                } else {
                    assert(items[a] == prev[a]);
                    let j = choose|j: int| 0 <= j < g.len() && (#[trigger] g[j]).0 == prev[a].0;
                    if j < p {
                        assert(g2[j].0 == g[j].0);
                    } else {
                        assert(g2[j + 1].0 == g[j].0);
                    }
                }
            }
        },
    }
}

pub open spec fn groups_view(groups: Seq<(String, Vec<Endpoint>)>) -> Seq<(Seq<char>, Seq<EndpointView>)> {
    groups.map_values(|g: (String, Vec<Endpoint>)| (g.0@, g.1@.map_values(|e: Endpoint| endpoint_view(e))))
}

pub open spec fn items_view(items: Seq<(String, Endpoint)>) -> Seq<(Seq<char>, EndpointView)> {
    items.map_values(|it: (String, Endpoint)| (it.0@, endpoint_view(it.1)))
}

fn find_group_index(groups: &Vec<(String, Vec<Endpoint>)>, key: &str) -> (r: Option<usize>)
    ensures
        match r {
            Some(i) => find_group(groups_view(groups@), key@) == Some(i as int),
            None => find_group(groups_view(groups@), key@) is None,
        },
{
    let ghost gv = groups_view(groups@);
    let mut i: usize = 0;
    assert(gv.skip(0) =~= gv);
    while i < groups.len()
        invariant
            i <= groups@.len(),
            gv == groups_view(groups@),
            find_group(gv, key@) == match find_group(gv.skip(i as int), key@) {
                Some(k) => Some(k + i),
                None => None,
            },
        decreases groups@.len() - i,
    {
        assert(gv.skip(i as int)[0] == gv[i as int]);
        assert(gv.skip(i as int).drop_first() =~= gv.skip(i + 1));
        if str_eq(groups[i].0.as_str(), key) {
            return Some(i);
        }
        i += 1;
    }
    None
}

fn insert_position(groups: &Vec<(String, Vec<Endpoint>)>, key: &str) -> (r: usize)
    ensures
        r as nat == insert_pos(groups_view(groups@), key@),
{
    let ghost gv = groups_view(groups@);
    let mut i: usize = 0;
    assert(gv.skip(0) =~= gv);
    while i < groups.len()
        invariant
            i <= groups@.len(),
            gv == groups_view(groups@),
            insert_pos(gv, key@) == i + insert_pos(gv.skip(i as int), key@),
        decreases groups@.len() - i,
    {
        assert(gv.skip(i as int)[0] == gv[i as int]);
        assert(gv.skip(i as int).drop_first() =~= gv.skip(i + 1));
        if !str_lt(groups[i].0.as_str(), key) {
            return i;
        }
        i += 1;
    }
    i
}

/// Adds an endpoint under its category.
fn add_endpoint(groups: &mut Vec<(String, Vec<Endpoint>)>, key: String, e: Endpoint)
    ensures
        groups_view(final(groups)@) == add_to_group(groups_view(old(groups)@), key@, endpoint_view(e)),
{
    let ghost gv = groups_view(groups@);
    let ghost ev = endpoint_view(e);
    proof {
        lemma_find_group(gv, key@);
    }
    match find_group_index(groups, key.as_str()) {
        Some(i) => {
            let mut g = groups.remove(i);
            let ghost old_inner = g.1@;
            g.1.push(e);
            assert(g.1@.map_values(|x: Endpoint| endpoint_view(x)) =~= old_inner.map_values(
                |x: Endpoint| endpoint_view(x),
            ).push(ev));
            groups.insert(i, g);
            assert(groups_view(groups@) =~= gv.update(i as int, (gv[i as int].0, gv[i as int].1.push(ev))));
        },
        None => {
            let p = insert_position(groups, key.as_str());
            proof {
                lemma_insert_pos(gv, key@);
            }
            let mut v: Vec<Endpoint> = Vec::new();
            v.push(e);
            assert(v@.map_values(|x: Endpoint| endpoint_view(x)) =~= seq![ev]);
            groups.insert(p, (key, v));
            assert(groups_view(groups@) =~= gv.insert(p as int, (key@, seq![ev])));
        },
    }
}

/// Groups endpoints by category, categories in order.
pub fn group_by_category(items: Vec<(String, Endpoint)>) -> (r: Vec<(String, Vec<Endpoint>)>)
    ensures
        groups_view(r@) == grouped(items_view(items@)),
{
    let ghost iv = items_view(items@);
    let mut groups: Vec<(String, Vec<Endpoint>)> = Vec::new();
    let mut items = items;
    let ghost all = items@;
    let mut rest: Vec<(String, Endpoint)> = Vec::new();
    // Take the items out front to back.
    let n = items.len();
    let mut k: usize = n;
    while k > 0
        invariant
            k <= n,
            n == all.len(),
            items@ == all.take(k as int),
            rest@ == all.skip(k as int).reverse(),
        decreases k,
    {
        let it = items.pop().unwrap();
        let ghost before = rest@;
        rest.push(it);
        assert(all.skip(k - 1).reverse() =~= all.skip(k as int).reverse().push(all[k - 1]));
        assert(items@ =~= all.take(k - 1));
        k -= 1;
    }
    assert(all.skip(0) =~= all);
    assert(groups_view(groups@) =~= grouped(items_view(all.take(0))));
    let mut i: usize = 0;
    while i < n
        invariant
            i <= n,
            n == all.len(),
            iv == items_view(all),
            rest@ == all.skip(i as int).reverse(),
            groups_view(groups@) == grouped(items_view(all.take(i as int))),
        decreases n - i,
    {
        assert(rest@.len() == n - i);
        let (key, e) = rest.pop().unwrap();
        assert(all.skip(i + 1).reverse() =~= all.skip(i as int).reverse().drop_last());
        assert((key, e) == all[i as int]);
        assert(items_view(all.take(i + 1)).drop_last() =~= items_view(all.take(i as int)));
        assert(items_view(all.take(i + 1)).last() == (key@, endpoint_view(e)));
        add_endpoint(&mut groups, key, e);
        i += 1;
    }
    assert(all.take(n as int) =~= all);
    groups
}

/// The line of a category in the top-level index.
pub open spec fn category_line(slug: Seq<char>) -> Seq<char> {
    "- ["@ + category_label_spec(slug) + "](./"@ + slug + "/index.md)\n"@
}

/// The files of one category: its index, then each endpoint's file.
pub open spec fn category_files(slug: Seq<char>, endpoints: Seq<EndpointView>) -> Seq<(Seq<Seq<char>>, Seq<char>)> {
    seq![(
        seq!["endpoints"@, slug, "index.md"@],
        join_seqs(endpoints.map_values(|e: EndpointView| index_entry_spec(e)), "\n"@) + "\n"@,
    )] + endpoints.map_values(|e: EndpointView| (seq!["endpoints"@, slug, e.0], e.2))
}

pub open spec fn all_category_files(groups: Seq<(Seq<char>, Seq<EndpointView>)>) -> Seq<(Seq<Seq<char>>, Seq<char>)>
    decreases groups.len(),
{
    if groups.len() == 0 {
        seq![]
    } else {
        all_category_files(groups.drop_last()) + category_files(groups.last().0, groups.last().1)
    }
}

/// A category's index lists every endpoint of the category, and each entry links the file that
/// sits beside the index.
pub proof fn lemma_category_index_lists_every_endpoint(slug: Seq<char>, endpoints: Seq<EndpointView>, k: int)
    requires
        0 <= k < endpoints.len(),
    ensures
        category_files(slug, endpoints)[0].0 == seq!["endpoints"@, slug, "index.md"@],
        contains_seq(category_files(slug, endpoints)[0].1, index_entry_spec(endpoints[k])),
        category_files(slug, endpoints)[k + 1] == (seq!["endpoints"@, slug, endpoints[k].0], endpoints[k].2),
{
    let entries = endpoints.map_values(|e: EndpointView| index_entry_spec(e));
    lemma_join_contains_part(entries, "\n"@, k);
    let joined = join_seqs(entries, "\n"@);
    let i = choose|i: int| is_substring_at(joined, entries[k], i);
    assert((joined + "\n"@).subrange(i, i + entries[k].len()) =~= joined.subrange(i, i + entries[k].len()));
    assert(is_substring_at(joined + "\n"@, entries[k], i));
}

/// The files under `endpoints/`: the index of the categories, then each category's files.
pub open spec fn endpoint_dir_files(groups: Seq<(Seq<char>, Seq<EndpointView>)>) -> Seq<(Seq<Seq<char>>, Seq<char>)> {
    seq![(
        seq!["endpoints"@, "index.md"@],
        concat_all(groups.map_values(|g: (Seq<char>, Seq<EndpointView>)| category_line(g.0))),
    )] + all_category_files(groups)
}

/// Every category file lies under `endpoints/`.
proof fn lemma_category_files_under_endpoints(groups: Seq<(Seq<char>, Seq<EndpointView>)>)
    ensures
        forall|k: int| 0 <= k < all_category_files(groups).len()
            ==> (#[trigger] all_category_files(groups)[k]).0.len() > 0 && all_category_files(groups)[k].0[0] == "endpoints"@,
    decreases groups.len(),
{
    if groups.len() > 0 {
        lemma_category_files_under_endpoints(groups.drop_last());
        let pre = all_category_files(groups.drop_last());
        let cf = category_files(groups.last().0, groups.last().1);
        assert(all_category_files(groups) == pre + cf);
        assert forall|k: int| 0 <= k < cf.len() implies (#[trigger] cf[k]).0.len() > 0 && cf[k].0[0] == "endpoints"@ by {
            if k > 0 {
                let e = groups.last().1[k - 1];
                assert(cf[k] == (seq!["endpoints"@, groups.last().0, e.0], e.2));
            }
        }
        assert forall|k: int| 0 <= k < all_category_files(groups).len()
            implies (#[trigger] all_category_files(groups)[k]).0.len() > 0 && all_category_files(groups)[k].0[0] == "endpoints"@ by {
            if k < pre.len() {
                assert(all_category_files(groups)[k] == pre[k]);
            } else {
                assert(all_category_files(groups)[k] == cf[k - pre.len()]);
            }
        }
    }
}

/// Every endpoint file, indexes included, lies under `endpoints/`.
pub proof fn lemma_endpoint_files_under_endpoints(spec: Spec, servers_override: Seq<String>)
    ensures
        forall|k: int| 0 <= k < endpoint_files(spec, servers_override).len()
            ==> (#[trigger] endpoint_files(spec, servers_override)[k]).0.len() > 0
                && endpoint_files(spec, servers_override)[k].0[0] == "endpoints"@,
{
    let groups = grouped(
        op_endpoints(
            spec.operations@,
            spec,
            multi_use_set(spec.operations@),
            server_bases(spec, servers_override),
        ),
    );
    lemma_category_files_under_endpoints(groups);
    let files = endpoint_dir_files(groups);
    assert forall|k: int| 0 <= k < files.len() implies (#[trigger] files[k]).0.len() > 0 && files[k].0[0] == "endpoints"@ by {
        if k > 0 {
            assert(files[k] == all_category_files(groups)[k - 1]);
        }
    }
}

/// The categories of a group list, each with its index file among the category files.
proof fn lemma_category_index_written(groups: Seq<(Seq<char>, Seq<EndpointView>)>, k: int)
    requires
        0 <= k < groups.len(),
    ensures
        exists|p: int| 0 <= p < all_category_files(groups).len()
            && (#[trigger] all_category_files(groups)[p]).0 == seq!["endpoints"@, groups[k].0, "index.md"@],
    decreases groups.len(),
{
    let pre = all_category_files(groups.drop_last());
    let all = all_category_files(groups);
    assert(all == pre + category_files(groups.last().0, groups.last().1));
    if k == groups.len() - 1 {
        assert(all[pre.len() as int] == category_files(groups.last().0, groups.last().1)[0]);
    } else {
        lemma_category_index_written(groups.drop_last(), k);
        assert(groups.drop_last()[k] == groups[k]);
        let p = choose|p: int| 0 <= p < pre.len()
            && (#[trigger] pre[p]).0 == seq!["endpoints"@, groups[k].0, "index.md"@];
        assert(all[p] == pre[p]);
    }
}

/// The top endpoint index lists every category, and each listed category has its own index
/// file, `endpoints/<category>/index.md`, among the files written.
pub proof fn lemma_endpoint_index_lists_every_category(groups: Seq<(Seq<char>, Seq<EndpointView>)>, k: int)
    requires
        0 <= k < groups.len(),
    ensures
        endpoint_dir_files(groups)[0].0 == seq!["endpoints"@, "index.md"@],
        contains_seq(endpoint_dir_files(groups)[0].1, category_line(groups[k].0)),
        exists|p: int| 0 < p < endpoint_dir_files(groups).len()
            && (#[trigger] endpoint_dir_files(groups)[p]).0 == seq!["endpoints"@, groups[k].0, "index.md"@],
{
    let lines = groups.map_values(|g: (Seq<char>, Seq<EndpointView>)| category_line(g.0));
    lemma_concat_all_contains(lines, k);
    lemma_category_index_written(groups, k);
    let files = endpoint_dir_files(groups);
    let all = all_category_files(groups);
    let p = choose|p: int| 0 <= p < all.len() && (#[trigger] all[p]).0 == seq!["endpoints"@, groups[k].0, "index.md"@];
    assert(files[p + 1] == all[p]);
}

fn push_category_writes(slug: &str, endpoints: &Vec<Endpoint>, writes: &mut Writes)
    ensures
        writes_view(final(writes).entries@) == writes_view(old(writes).entries@) + category_files(
            slug@,
            endpoints@.map_values(|e: Endpoint| endpoint_view(e)),
        ),
{
    let ghost evs = endpoints@.map_values(|e: Endpoint| endpoint_view(e));
    let ghost start = writes_view(writes.entries@);
    let mut entries: Vec<String> = Vec::new();
    let mut i: usize = 0;
    while i < endpoints.len()
        invariant
            i <= endpoints@.len(),
            evs == endpoints@.map_values(|e: Endpoint| endpoint_view(e)),
            views(entries@) == evs.take(i as int).map_values(|e: EndpointView| index_entry_spec(e)),
        decreases endpoints@.len() - i,
    {
        let line = endpoints[i].index_entry();
        let ghost before = entries@;
        entries.push(line);
        assert(views(entries@) =~= views(before).push(line@));
        assert(evs.take(i + 1) =~= evs.take(i as int).push(evs[i as int]));
        assert(views(entries@) =~= evs.take(i + 1).map_values(|e: EndpointView| index_entry_spec(e)));
        i += 1;
    }
    assert(evs.take(evs.len() as int) =~= evs);
    let mut index = join(&entries, "\n");
    index.append("\n");
    let path = path3("endpoints", slug, "index.md");
    writes.add(path, index);
    let ghost head = writes_view(writes.entries@);
    let mut j: usize = 0;
    while j < endpoints.len()
        invariant
            j <= endpoints@.len(),
            evs == endpoints@.map_values(|e: Endpoint| endpoint_view(e)),
            writes_view(writes.entries@) == head + evs.take(j as int).map_values(
                |e: EndpointView| (seq!["endpoints"@, slug@, e.0], e.2),
            ),
        decreases endpoints@.len() - j,
    {
        let path = path3("endpoints", slug, endpoints[j].filename.as_str());
        writes.add(path, endpoints[j].content.clone());
        assert(evs.take(j + 1) =~= evs.take(j as int).push(evs[j as int]));
        assert(writes_view(writes.entries@) =~= head + evs.take(j + 1).map_values(
            |e: EndpointView| (seq!["endpoints"@, slug@, e.0], e.2),
        ));
        j += 1;
    }
    assert(evs.take(evs.len() as int) =~= evs);
    assert(writes_view(writes.entries@) =~= start + category_files(slug@, evs));
}

/// Adds the files of grouped endpoints: the category index, then each category's files.
pub fn push_endpoint_writes(groups: &Vec<(String, Vec<Endpoint>)>, writes: &mut Writes)
    ensures
        writes_view(final(writes).entries@) == writes_view(old(writes).entries@) + endpoint_dir_files(
            groups_view(groups@),
        ),
{
    let ghost gv = groups_view(groups@);
    let ghost start = writes_view(writes.entries@);
    let ghost f = |g: (Seq<char>, Seq<EndpointView>)| category_line(g.0);
    let mut top = String::new();
    let mut i: usize = 0;
    while i < groups.len()
        invariant
            i <= groups@.len(),
            gv == groups_view(groups@),
            f == (|g: (Seq<char>, Seq<EndpointView>)| category_line(g.0)),
            top@ == concat_all(gv.take(i as int).map_values(f)),
        decreases groups@.len() - i,
    {
        let slug = groups[i].0.as_str();
        let mut line = String::from_str("- [");
        let label = category_label(slug);
        line.append(label.as_str());
        line.append("](./");
        line.append(slug);
        line.append("/index.md)\n");
        proof {
            assert(gv.take(i + 1).map_values(f) =~= gv.take(i as int).map_values(f).push(f(gv[i as int])));
            lemma_concat_all_push(gv.take(i as int).map_values(f), line@);
        }
        top.append(line.as_str());
        i += 1;
    }
    assert(gv.take(gv.len() as int) =~= gv);
    let path = path2("endpoints", "index.md");
    writes.add(path, top);
    let ghost head = writes_view(writes.entries@);
    let mut k: usize = 0;
    while k < groups.len()
        invariant
            k <= groups@.len(),
            gv == groups_view(groups@),
            writes_view(writes.entries@) == head + all_category_files(gv.take(k as int)),
        decreases groups@.len() - k,
    {
        assert(gv.take(k + 1).drop_last() =~= gv.take(k as int));
        push_category_writes(groups[k].0.as_str(), &groups[k].1, writes);
        assert(writes_view(writes.entries@) =~= head + all_category_files(gv.take(k + 1)));
        k += 1;
    }
    assert(gv.take(gv.len() as int) =~= gv);
    assert(writes_view(writes.entries@) =~= start + endpoint_dir_files(gv));
}

/// The category and the endpoint of one operation; an over-long file name ends with the hash
/// of the operation's path.
pub open spec fn op_endpoint(
    entry: OperationEntry,
    spec: Spec,
    multi: Set<Seq<char>>,
    servers: Seq<Seq<char>>,
) -> (Seq<char>, EndpointView) {
    (
        op_category_spec(views(entry.op.tags@), entry.path@),
        (
            endpoint_filename_spec(entry.method@, entry.path@, path_hash(entry.path@)),
            match entry.op.summary {
                Some(s) => s@,
                None => entry.path@,
            },
            endpoint_spec(entry.path@, entry.method@, entry.op, spec, multi, servers),
            entry.op.deprecated == Some(true),
        ),
    )
}

pub open spec fn op_endpoints(
    ops: Seq<OperationEntry>,
    spec: Spec,
    multi: Set<Seq<char>>,
    servers: Seq<Seq<char>>,
) -> Seq<(Seq<char>, EndpointView)> {
    Seq::new(ops.len(), |i: int| op_endpoint(ops[i], spec, multi, servers))
}

/// The server bases of the full URLs: the overrides, else the document's servers, without
/// trailing `/`.
pub open spec fn server_bases(spec: Spec, servers_override: Seq<String>) -> Seq<Seq<char>> {
    server_sources(spec, servers_override).map_values(|u: Seq<char>| trim_end_char_seq(u, '/'))
}

/// The endpoint files of a document.
pub open spec fn endpoint_files(spec: Spec, servers_override: Seq<String>) -> Seq<(Seq<Seq<char>>, Seq<char>)> {
    endpoint_dir_files(
        grouped(
            op_endpoints(
                spec.operations@,
                spec,
                multi_use_set(spec.operations@),
                server_bases(spec, servers_override),
            ),
        ),
    )
}

fn make_item(entry: &OperationEntry, spec: &Spec, multi_use: &Vec<String>, servers: &Vec<String>) -> (r: (String, Endpoint))
    ensures
        (r.0@, endpoint_view(r.1)) == op_endpoint(*entry, *spec, views(multi_use@).to_set(), views(servers@)),
{
    let path = entry.path.as_str();
    let method = entry.method.as_str();
    let category = op_category(&entry.op, path);
    let filename = endpoint_filename(method, path);
    let summary = match &entry.op.summary {
        Some(s) => s.clone(),
        None => entry.path.clone(),
    };
    let content = render_endpoint(path, method, &entry.op, spec, multi_use, servers.as_slice());
    let e = Endpoint { filename, summary, content, deprecated: entry.op.deprecated == Some(true) };
    assert((category@, endpoint_view(e)) == op_endpoint(*entry, *spec, views(multi_use@).to_set(), views(servers@)));
    (category, e)
}

/// How many items the groups hold in all.
pub open spec fn total_len<E>(groups: Seq<(Seq<char>, Seq<E>)>) -> nat
    decreases groups.len(),
{
    if groups.len() == 0 {
        0
    } else {
        total_len(groups.drop_last()) + groups.last().1.len()
    }
}

proof fn lemma_total_len_update<E>(groups: Seq<(Seq<char>, Seq<E>)>, i: int, e: E)
    requires
        0 <= i < groups.len(),
    ensures
        total_len(groups.update(i, (groups[i].0, groups[i].1.push(e)))) == total_len(groups) + 1,
    decreases groups.len(),
{
    let g2 = groups.update(i, (groups[i].0, groups[i].1.push(e)));
    if i == groups.len() - 1 {
        assert(g2.drop_last() =~= groups.drop_last());
    } else {
        assert(g2.drop_last() =~= groups.drop_last().update(i, (groups[i].0, groups[i].1.push(e))));
        lemma_total_len_update(groups.drop_last(), i, e);
    }
}

proof fn lemma_total_len_insert<E>(groups: Seq<(Seq<char>, Seq<E>)>, p: int, k: Seq<char>, e: E)
    requires
        0 <= p <= groups.len(),
    ensures
        total_len(groups.insert(p, (k, seq![e]))) == total_len(groups) + 1,
    decreases groups.len(),
{
    let g2 = groups.insert(p, (k, seq![e]));
    if p == groups.len() {
        assert(g2.drop_last() =~= groups);
    } else {
        assert(g2.drop_last() =~= groups.drop_last().insert(p, (k, seq![e])));
        lemma_total_len_insert(groups.drop_last(), p, k, e);
    }
}

proof fn lemma_grouped_total<E>(items: Seq<(Seq<char>, E)>)
    ensures
        total_len(grouped(items)) == items.len(),
    decreases items.len(),
{
    if items.len() > 0 {
        let g = grouped(items.drop_last());
        lemma_grouped_total(items.drop_last());
        lemma_find_group(g, items.last().0);
        match find_group(g, items.last().0) {
            Some(i) => lemma_total_len_update(g, i, items.last().1),
            None => {
                lemma_insert_pos(g, items.last().0);
                lemma_total_len_insert(g, insert_pos(g, items.last().0) as int, items.last().0, items.last().1);
            },
        }
    }
}

proof fn lemma_category_files_len(groups: Seq<(Seq<char>, Seq<EndpointView>)>)
    ensures
        all_category_files(groups).len() == groups.len() + total_len(groups),
    decreases groups.len(),
{
    if groups.len() > 0 {
        lemma_category_files_len(groups.drop_last());
    }
}

/// One file per operation: the endpoint files are the top index, one index per category, and
/// one file for each operation of the document.
pub proof fn lemma_one_file_per_operation(spec: Spec, servers_override: Seq<String>)
    ensures
        endpoint_files(spec, servers_override).len() == 1 + grouped(
            op_endpoints(
                spec.operations@,
                spec,
                multi_use_set(spec.operations@),
                server_bases(spec, servers_override),
            ),
        ).len() + spec.operations@.len(),
{
    let items = op_endpoints(
        spec.operations@,
        spec,
        multi_use_set(spec.operations@),
        server_bases(spec, servers_override),
    );
    lemma_grouped_total(items);
    lemma_category_files_len(grouped(items));
}

impl EndpointWriter {
    /// Renders every operation and groups the endpoints by category, categories in order.
    #[verifier::rlimit(50)]
    pub fn group_endpoints(&self, spec: &Spec) -> (r: Vec<(String, Vec<Endpoint>)>)
        ensures
            groups_view(r@) == grouped(
                op_endpoints(
                    spec.operations@,
                    *spec,
                    multi_use_set(spec.operations@),
                    server_bases(*spec, self.servers_override@),
                ),
            ),
    {
        let multi_use = collect_multi_use_schemas(spec);
        let servers = effective_server_bases(spec, self.servers_override.as_slice());
        let ghost multi = multi_use_set(spec.operations@);
        let ghost bases = server_bases(*spec, self.servers_override@);
        let ops = &spec.operations;
        let mut items: Vec<(String, Endpoint)> = Vec::new();
        let mut i: usize = 0;
        while i < ops.len()
            invariant
                i <= ops@.len(),
                views(multi_use@).to_set() == multi,
                views(servers@) == bases,
                multi == multi_use_set(spec.operations@),
                ops@ == spec.operations@,
                items_view(items@) == op_endpoints(ops@.take(i as int), *spec, multi, bases),
            decreases ops@.len() - i,
        {
            let (category, e) = make_item(&ops[i], spec, &multi_use, &servers);
            let ghost before = items@;
            items.push((category, e));
            proof {
                assert(items_view(items@) =~= items_view(before).push((category@, endpoint_view(e))));
                assert(op_endpoints(ops@.take(i + 1), *spec, multi, bases) =~= op_endpoints(
                    ops@.take(i as int),
                    *spec,
                    multi,
                    bases,
                ).push(op_endpoint(ops@[i as int], *spec, multi, bases)));
            }
            i += 1;
        }
        assert(ops@.take(ops@.len() as int) =~= ops@);
        group_by_category(items)
    }

    /// Adds the endpoint files.
    pub fn collect_writes(&self, spec: &Spec, writes: &mut Writes)
        ensures
            writes_view(final(writes).entries@) == writes_view(old(writes).entries@) + endpoint_files(
                *spec,
                self.servers_override@,
            ),
    {
        let groups = self.group_endpoints(spec);
        push_endpoint_writes(&groups, writes);
    }
}

} // verus!
