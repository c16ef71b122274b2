//! The schemas shared by several operations. These get their own file and are linked to
//! rather than inlined, so that a shared payload is not repeated in every endpoint.

use vstd::prelude::*;
use vstd::string::*;
use crate::model::{MediaType, Operation, OperationEntry, Response, Spec};
use crate::text::{contains_string, views};
use crate::writer::refs::{schema_ref_name, schema_ref_name_spec};

verus! {

/// The component schema names that a content map's media types reference directly, in order.
pub open spec fn content_ref_names(content: Seq<(String, MediaType)>) -> Seq<Seq<char>>
    decreases content.len(),
{
    if content.len() == 0 {
        seq![]
    } else {
        let prefix = content_ref_names(content.drop_last());
        match content.last().1.schema {
            Some(s) => match schema_ref_name_spec(s) {
                Some(n) => prefix.push(n),
                None => prefix,
            },
            None => prefix,
        }
    }
}

/// The names referenced by the responses that resolve, in order.
pub open spec fn response_ref_names(responses: Seq<(String, Option<Response>)>) -> Seq<Seq<char>>
    decreases responses.len(),
{
    if responses.len() == 0 {
        seq![]
    } else {
        response_ref_names(responses.drop_last()) + match responses.last().1 {
            Some(r) => content_ref_names(r.content@),
            None => seq![],
        }
    }
}

/// The names an operation references from its resolved request body and responses.
pub open spec fn op_ref_names(op: Operation) -> Seq<Seq<char>> {
    (match op.request_body {
        Some(Some(b)) => content_ref_names(b.content@),
        _ => seq![],
    }) + match op.responses {
        Some(rs) => response_ref_names(rs@),
        None => seq![],
    }
}

/// How many operations reference `name`.
pub open spec fn use_count(ops: Seq<OperationEntry>, name: Seq<char>) -> nat
    decreases ops.len(),
{
    if ops.len() == 0 {
        0
    } else {
        use_count(ops.drop_last(), name) + if op_ref_names(ops.last().op).contains(name) {
            1nat
        } else {
            0nat
        }
    }
}

fn push_content_refs(content: &Vec<(String, MediaType)>, names: &mut Vec<String>)
    ensures
        views(final(names)@) == views(old(names)@) + content_ref_names(content@),
{
    let ghost start = views(names@);
    let mut i: usize = 0;
    while i < content.len()
        invariant
            i <= content@.len(),
            views(names@) == start + content_ref_names(content@.take(i as int)),
        decreases content@.len() - i,
    {
        assert(content@.take(i + 1).drop_last() =~= content@.take(i as int));
        if let Some(s) = &content[i].1.schema {
            if let Some(n) = schema_ref_name(s) {
                let ghost before = names@;
                names.push(n);
                assert(views(names@) =~= views(before).push(n@));
            }
        }
        assert(views(names@) =~= start + content_ref_names(content@.take(i + 1)));
        i += 1;
    }
    assert(content@.take(content@.len() as int) =~= content@);
}

/// The names an operation references, in order (a name may repeat).
pub fn collect_op_refs(op: &Operation) -> (r: Vec<String>)
    ensures
        views(r@) == op_ref_names(*op),
{
    let mut names: Vec<String> = Vec::new();
    assert(views(names@) =~= seq![]);
    if let Some(Some(body)) = &op.request_body {
        push_content_refs(&body.content, &mut names);
    }
    let ghost after_body = views(names@);
    if let Some(responses) = &op.responses {
        let mut i: usize = 0;
        while i < responses.len()
            invariant
                i <= responses@.len(),
                views(names@) == after_body + response_ref_names(responses@.take(i as int)),
            decreases responses@.len() - i,
        {
            assert(responses@.take(i + 1).drop_last() =~= responses@.take(i as int));
            if let Some(r) = &responses[i].1 {
                push_content_refs(&r.content, &mut names);
            }
            assert(views(names@) =~= after_body + response_ref_names(responses@.take(i + 1)));
            i += 1;
        }
        assert(responses@.take(responses@.len() as int) =~= responses@);
    }
    assert(views(names@) =~= op_ref_names(*op));
    names
}

proof fn lemma_push_contains<A>(s: Seq<A>, x: A)
    ensures
        forall|n: A| #[trigger] s.push(x).contains(n) <==> (s.contains(n) || n == x),
{
    assert forall|n: A| #[trigger] s.push(x).contains(n) implies (s.contains(n) || n == x) by {
        let k = choose|k: int| 0 <= k < s.push(x).len() && #[trigger] s.push(x)[k] == n;
        if k < s.len() {
            assert(s[k] == n);
        }
    }
    assert forall|n: A| (s.contains(n) || n == x) implies #[trigger] s.push(x).contains(n) by {
        if n == x {
            assert(s.push(x)[s.len() as int] == x);
        } else {
            let k = choose|k: int| 0 <= k < s.len() && #[trigger] s[k] == n;
            assert(s.push(x)[k] == n);
        }
    }
}

/// The names that two or more operations reference.
pub open spec fn multi_use_set(ops: Seq<OperationEntry>) -> Set<Seq<char>> {
    Set::new(|n: Seq<char>| use_count(ops, n) >= 2)
}

/// The schema names that two or more operations reference (each once).
pub fn collect_multi_use_schemas(spec: &Spec) -> (r: Vec<String>)
    ensures
        forall|n: Seq<char>| views(r@).contains(n) <==> use_count(spec.operations@, n) >= 2,
        views(r@).to_set() == multi_use_set(spec.operations@),
{
    let ops = &spec.operations;
    let mut seen: Vec<String> = Vec::new();
    let mut multi: Vec<String> = Vec::new();
    let mut i: usize = 0;
    while i < ops.len()
        invariant
            i <= ops@.len(),
            forall|n: Seq<char>| views(seen@).contains(n) <==> use_count(ops@.take(i as int), n) >= 1,
            forall|n: Seq<char>| views(multi@).contains(n) <==> use_count(ops@.take(i as int), n) >= 2,
        decreases ops@.len() - i,
    {
        let names = collect_op_refs(&ops[i].op);
        let ghost ns = views(names@);
        let ghost prev = ops@.take(i as int);
        assert(ops@.take(i + 1).drop_last() =~= prev);
        assert(ops@.take(i + 1).last() == ops@[i as int]);
        let mut done: Vec<String> = Vec::new();
        let mut j: usize = 0;
        while j < names.len()
            invariant
                j <= names@.len(),
                ns == views(names@),
                views(done@) == ns.take(j as int),
                forall|n: Seq<char>| views(seen@).contains(n) <==> (use_count(prev, n) >= 1 || ns.take(j as int).contains(n)),
                forall|n: Seq<char>| views(multi@).contains(n) <==> (use_count(prev, n) >= 2 || (use_count(prev, n) >= 1
                    && ns.take(j as int).contains(n))),
            decreases names@.len() - j,
        {
            let name = names[j].as_str();
            let ghost x = ns[j as int];
            assert(ns.take(j + 1) =~= ns.take(j as int).push(x));
            proof {
                lemma_push_contains(ns.take(j as int), x);
            }
            if !contains_string(&done, name) {
                if contains_string(&seen, name) {
                    if !contains_string(&multi, name) {
                        let ghost before = multi@;
                        multi.push(names[j].clone());
                        assert(views(multi@) =~= views(before).push(x));
                        proof {
                            lemma_push_contains(views(before), x);
                        }
                    }
                } else {
                    let ghost before = seen@;
                    seen.push(names[j].clone());
                    assert(views(seen@) =~= views(before).push(x));
                    proof {
                        lemma_push_contains(views(before), x);
                    }
                }
            }
            let ghost dbefore = done@;
            done.push(names[j].clone());
            assert(views(done@) =~= views(dbefore).push(x));
            j += 1;
        }
        assert(ns.take(names@.len() as int) =~= ns);
        i += 1;
    }
    assert(ops@.take(ops@.len() as int) =~= ops@);
    assert(views(multi@).to_set() =~= multi_use_set(spec.operations@));
    multi
}

} // verus!
