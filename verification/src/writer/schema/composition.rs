//! `allOf` composition: the effective schema of an object with its `allOf` parts merged in.

use vstd::prelude::*;
use vstd::string::*;
use crate::model::{ObjectSchema, Schema, SchemaTypeSet, Spec};
use crate::text::{contains_string, str_eq, views};
use crate::writer::refs::{resolve_schema, resolve_spec, schema_ref_name, schema_ref_name_spec};
use crate::writer::schema::types::opt_type;

verus! {

/// How many nested `allOf` levels one merge may follow: `usize::MAX`. Every level is a nested
/// call, and a call takes at least a return address on the stack, so no thread can hold this
/// many: a merge that nests this deep (only through a self-reference the name tracking cannot
/// see, a `$ref` with a document part such as `other.json#/components/schemas/A`) runs out of
/// stack first, as an unbounded merge does. The bound is what lets the merge be proved to end.
pub const MAX_MERGE_DEPTH: usize = usize::MAX;

/// An object schema with its `allOf` parts merged in. The other fields are read from `obj`.
pub struct Merged<'a> {
    pub obj: &'a ObjectSchema,
    pub properties: Vec<(&'a String, &'a Schema)>,
    pub required: Vec<&'a String>,
    pub schema_type: Option<&'a SchemaTypeSet>,
}

/// The merged parts of an object schema: properties in order, required names, type.
pub struct MergedView {
    pub properties: Seq<(Seq<char>, Schema)>,
    pub required: Seq<Seq<char>>,
    pub schema_type: Option<SchemaTypeSet>,
}

pub open spec fn merged_view(m: Merged) -> MergedView {
    MergedView {
        properties: m.properties@.map_values(|p: (&String, &Schema)| ((*p.0)@, *p.1)),
        required: m.required@.map_values(|r: &String| (*r)@),
        schema_type: opt_type(m.schema_type),
    }
}

pub open spec fn prop_keys(ps: Seq<(Seq<char>, Schema)>) -> Seq<Seq<char>> {
    ps.map_values(|p: (Seq<char>, Schema)| p.0)
}

/// `acc` followed by the properties of `new` whose names are not yet taken, in order.
pub open spec fn add_properties(acc: Seq<(Seq<char>, Schema)>, new: Seq<(Seq<char>, Schema)>) -> Seq<(Seq<char>, Schema)>
    decreases new.len(),
{
    if new.len() == 0 {
        acc
    } else {
        let a = add_properties(acc, new.drop_last());
        if prop_keys(a).contains(new.last().0) {
            a
        } else {
            a.push(new.last())
        }
    }
}

/// `acc` followed by the names of `new` that it does not hold yet, in order.
pub open spec fn add_required(acc: Seq<Seq<char>>, new: Seq<Seq<char>>) -> Seq<Seq<char>>
    decreases new.len(),
{
    if new.len() == 0 {
        acc
    } else {
        let a = add_required(acc, new.drop_last());
        if a.contains(new.last()) {
            a
        } else {
            a.push(new.last())
        }
    }
}

/// Merges `sub` into `acc`: new properties and required names are appended, and the type is
/// taken from `sub` when `acc` has none.
pub open spec fn absorb(acc: MergedView, sub: MergedView) -> MergedView {
    MergedView {
        properties: add_properties(acc.properties, sub.properties),
        required: add_required(acc.required, sub.required),
        schema_type: match acc.schema_type {
            Some(t) => Some(t),
            None => sub.schema_type,
        },
    }
}

/// The parts of an object schema before any merging.
pub open spec fn unmerged(obj: ObjectSchema) -> MergedView {
    MergedView {
        properties: obj.properties@.map_values(|p: (String, Schema)| (p.0@, p.1)),
        required: views(obj.required@),
        schema_type: obj.schema_type,
    }
}

pub open spec fn push_name(visiting: Seq<Seq<char>>, name: Option<Seq<char>>) -> Seq<Seq<char>> {
    match name {
        Some(n) => visiting.push(n),
        None => visiting,
    }
}

/// The merged parts of `obj`: itself when it has no `allOf`, else each part merged in, in order.
/// `visiting` holds the schema names being expanded; a part that names one of them is skipped.
pub open spec fn merged_spec(obj: ObjectSchema, spec: Spec, visiting: Seq<Seq<char>>, fuel: nat) -> MergedView
    decreases fuel, obj.all_of@.len() + 2,
{
    if obj.all_of@.len() == 0 {
        unmerged(obj)
    } else {
        merge_subs(unmerged(obj), obj.all_of@, spec, visiting, fuel)
    }
}

pub open spec fn merge_subs(acc: MergedView, subs: Seq<Schema>, spec: Spec, visiting: Seq<Seq<char>>, fuel: nat) -> MergedView
    decreases fuel, subs.len() + 1,
{
    if subs.len() == 0 {
        acc
    } else {
        merge_sub(merge_subs(acc, subs.drop_last(), spec, visiting, fuel), subs.last(), spec, visiting, fuel)
    }
}

/// Merges one `allOf` part: a part naming a schema being expanded is skipped; a part that
/// resolves to an object schema is merged (with its own `allOf` merged first, its name
/// being expanded meanwhile); boolean and unresolved parts add nothing.
pub open spec fn merge_sub(acc: MergedView, sub: Schema, spec: Spec, visiting: Seq<Seq<char>>, fuel: nat) -> MergedView
    decreases fuel, 0int,
{
    let name = schema_ref_name_spec(sub);
    match name {
        Some(n) if visiting.contains(n) => acc,
        _ => match resolve_spec(sub, spec) {
            Some(Schema::Object(o)) => if fuel == 0 {
                acc
            } else {
                absorb(acc, merged_spec(*o, spec, push_name(visiting, name), (fuel - 1) as nat))
            },
            _ => acc,
        },
    }
}

/// Past position `from`, every item differs from all the items before it.
pub open spec fn fresh_after<A>(r: Seq<A>, from: int) -> bool {
    forall|i: int, j: int| 0 <= i < j < r.len() && j >= from ==> #[trigger] r[i] != #[trigger] r[j]
}

/// `acc` extended: `acc` comes first, kept as it was, the added items are new, and an
/// existing type is kept.
pub open spec fn extends(acc: MergedView, r: MergedView) -> bool {
    &&& acc.properties.len() <= r.properties.len()
    &&& r.properties.take(acc.properties.len() as int) == acc.properties
    &&& acc.required.len() <= r.required.len()
    &&& r.required.take(acc.required.len() as int) == acc.required
    &&& (acc.schema_type is Some ==> r.schema_type == acc.schema_type)
    &&& (fresh_after(prop_keys(acc.properties), acc.properties.len() as int)
        ==> fresh_after(prop_keys(r.properties), acc.properties.len() as int))
    &&& (fresh_after(acc.required, acc.required.len() as int)
        ==> fresh_after(r.required, acc.required.len() as int))
}

proof fn lemma_add_properties(acc: Seq<(Seq<char>, Schema)>, new: Seq<(Seq<char>, Schema)>, from: int)
    requires
        0 <= from <= acc.len(),
        fresh_after(prop_keys(acc), from),
    ensures
        acc.len() <= add_properties(acc, new).len(),
        add_properties(acc, new).take(acc.len() as int) == acc,
        fresh_after(prop_keys(add_properties(acc, new)), from),
    decreases new.len(),
{
    if new.len() > 0 {
        lemma_add_properties(acc, new.drop_last(), from);
        let a = add_properties(acc, new.drop_last());
        if !prop_keys(a).contains(new.last().0) {
            let r = a.push(new.last());
            assert(r.take(acc.len() as int) =~= a.take(acc.len() as int));
            let ka = prop_keys(a);
            let kr = prop_keys(r);
            assert forall|i: int, j: int| 0 <= i < j < kr.len() && j >= from implies #[trigger] kr[i] != #[trigger] kr[j] by {
                if j == kr.len() - 1 {
                    assert(kr[j] == new.last().0);
                    assert(kr[i] == ka[i]);
                } else {
                    assert(kr[i] == ka[i] && kr[j] == ka[j]);
                }
            }
        }
    }
}

proof fn lemma_add_required(acc: Seq<Seq<char>>, new: Seq<Seq<char>>, from: int)
    requires
        0 <= from <= acc.len(),
        fresh_after(acc, from),
    ensures
        acc.len() <= add_required(acc, new).len(),
        add_required(acc, new).take(acc.len() as int) == acc,
        fresh_after(add_required(acc, new), from),
    decreases new.len(),
{
    if new.len() > 0 {
        lemma_add_required(acc, new.drop_last(), from);
        let a = add_required(acc, new.drop_last());
        if !a.contains(new.last()) {
            let r = a.push(new.last());
            assert(r.take(acc.len() as int) =~= a.take(acc.len() as int));
            assert forall|i: int, j: int| 0 <= i < j < r.len() && j >= from implies #[trigger] r[i] != #[trigger] r[j] by {
                if j == r.len() - 1 {
                    assert(r[i] == a[i]);
                } else {
                    assert(r[i] == a[i] && r[j] == a[j]);
                }
            }
        }
    }
}

proof fn lemma_add_properties_plain(acc: Seq<(Seq<char>, Schema)>, new: Seq<(Seq<char>, Schema)>)
    ensures
        acc.len() <= add_properties(acc, new).len(),
        add_properties(acc, new).take(acc.len() as int) == acc,
    decreases new.len(),
{
    if new.len() > 0 {
        lemma_add_properties_plain(acc, new.drop_last());
        let a = add_properties(acc, new.drop_last());
        assert(a.push(new.last()).take(acc.len() as int) =~= a.take(acc.len() as int));
    }
}

proof fn lemma_add_required_plain(acc: Seq<Seq<char>>, new: Seq<Seq<char>>)
    ensures
        acc.len() <= add_required(acc, new).len(),
        add_required(acc, new).take(acc.len() as int) == acc,
    decreases new.len(),
{
    if new.len() > 0 {
        lemma_add_required_plain(acc, new.drop_last());
        let a = add_required(acc, new.drop_last());
        assert(a.push(new.last()).take(acc.len() as int) =~= a.take(acc.len() as int));
    }
}

proof fn lemma_absorb_extends(acc: MergedView, sub: MergedView)
    ensures
        extends(acc, absorb(acc, sub)),
{
    lemma_add_properties_plain(acc.properties, sub.properties);
    lemma_add_required_plain(acc.required, sub.required);
    if fresh_after(prop_keys(acc.properties), acc.properties.len() as int) {
        lemma_add_properties(acc.properties, sub.properties, acc.properties.len() as int);
    }
    if fresh_after(acc.required, acc.required.len() as int) {
        lemma_add_required(acc.required, sub.required, acc.required.len() as int);
    }
}

proof fn lemma_extends_trans(a: MergedView, b: MergedView, c: MergedView)
    requires
        extends(a, b),
        extends(b, c),
    ensures
        extends(a, c),
{
    assert(c.properties.take(a.properties.len() as int) =~= c.properties.take(b.properties.len() as int).take(
        a.properties.len() as int,
    ));
    assert(c.required.take(a.required.len() as int) =~= c.required.take(b.required.len() as int).take(
        a.required.len() as int,
    ));
    if fresh_after(prop_keys(a.properties), a.properties.len() as int) {
        let kb = prop_keys(b.properties);
        let kc = prop_keys(c.properties);
        assert forall|i: int, j: int| 0 <= i < j < kc.len() && j >= a.properties.len() implies #[trigger] kc[i] != #[trigger] kc[j] by {
            if j < b.properties.len() {
                assert(kc[i] == c.properties.take(b.properties.len() as int)[i].0);
                assert(kc[j] == c.properties.take(b.properties.len() as int)[j].0);
                assert(kc[i] == kb[i] && kc[j] == kb[j]);
            } else {
                assert(fresh_after(kb, b.properties.len() as int)) by {
                    assert forall|x: int, y: int| 0 <= x < y < kb.len() && y >= b.properties.len() implies #[trigger] kb[x] != #[trigger] kb[y] by {}
                }
            }
        }
    }
    if fresh_after(a.required, a.required.len() as int) {
        assert(fresh_after(b.required, b.required.len() as int));
        assert forall|i: int, j: int| 0 <= i < j < c.required.len() && j >= a.required.len() implies #[trigger] c.required[i] != #[trigger] c.required[j] by {
            if j < b.required.len() {
                assert(c.required[i] == c.required.take(b.required.len() as int)[i]);
                assert(c.required[j] == c.required.take(b.required.len() as int)[j]);
            }
        }
    }
}

proof fn lemma_extends_refl(a: MergedView)
    ensures
        extends(a, a),
{
    assert(a.properties.take(a.properties.len() as int) =~= a.properties);
    assert(a.required.take(a.required.len() as int) =~= a.required);
}

/// Merging one `allOf` part extends what was merged so far: it comes first, unchanged, the
/// added properties and required names are new, and a type already there is kept. A part
/// that names a schema being expanded, or that does not resolve to an object schema, adds
/// nothing.
pub proof fn lemma_merge_sub_extends(acc: MergedView, sub: Schema, spec: Spec, visiting: Seq<Seq<char>>, fuel: nat)
    ensures
        extends(acc, merge_sub(acc, sub, spec, visiting, fuel)),
        (schema_ref_name_spec(sub) matches Some(n) && visiting.contains(n)) ==> merge_sub(acc, sub, spec, visiting, fuel) == acc,
        !(resolve_spec(sub, spec) matches Some(Schema::Object(_))) ==> merge_sub(acc, sub, spec, visiting, fuel) == acc,
{
    lemma_extends_refl(acc);
    let name = schema_ref_name_spec(sub);
    match name {
        Some(n) if visiting.contains(n) => {},
        _ => match resolve_spec(sub, spec) {
            Some(Schema::Object(o)) => if fuel > 0 {
                lemma_absorb_extends(acc, merged_spec(*o, spec, push_name(visiting, name), (fuel - 1) as nat));
            },
            _ => {},
        },
    }
}

/// The required names of an `allOf` part as it is merged in: `None` when the part is skipped
/// (it names a schema being expanded, does not resolve to an object schema, or lies past the
/// depth bound).
pub open spec fn merged_part_required(sub: Schema, spec: Spec, visiting: Seq<Seq<char>>, fuel: nat) -> Option<Seq<Seq<char>>> {
    let name = schema_ref_name_spec(sub);
    match name {
        Some(n) if visiting.contains(n) => None,
        _ => match resolve_spec(sub, spec) {
            Some(Schema::Object(o)) => if fuel == 0 {
                None
            } else {
                Some(merged_spec(*o, spec, push_name(visiting, name), (fuel - 1) as nat).required)
            },
            _ => None,
        },
    }
}

proof fn lemma_add_required_contains(acc: Seq<Seq<char>>, new: Seq<Seq<char>>)
    ensures
        forall|r: Seq<char>| acc.contains(r) ==> #[trigger] add_required(acc, new).contains(r),
        forall|r: Seq<char>| new.contains(r) ==> #[trigger] add_required(acc, new).contains(r),
    decreases new.len(),
{
    if new.len() > 0 {
        lemma_add_required_contains(acc, new.drop_last());
        let a = add_required(acc, new.drop_last());
        let res = add_required(acc, new);
        assert forall|r: Seq<char>| a.contains(r) implies res.contains(r) by {
            let i = choose|i: int| 0 <= i < a.len() && a[i] == r;
            if !a.contains(new.last()) {
                assert(res[i] == r);
            }
        }
        assert(res.contains(new.last())) by {
            if !a.contains(new.last()) {
                assert(res[a.len() as int] == new.last());
            }
        }
        assert forall|r: Seq<char>| new.contains(r) implies #[trigger] res.contains(r) by {
            let i = choose|i: int| 0 <= i < new.len() && new[i] == r;
            if i < new.len() - 1 {
                assert(new.drop_last()[i] == r);
                assert(new.drop_last().contains(r));
            }
        }
        assert forall|r: Seq<char>| acc.contains(r) implies #[trigger] res.contains(r) by {
            assert(a.contains(r));
        }
    }
}

/// Merging a part keeps every required name there was, and adds every required name of the
/// part when the part is merged in.
pub proof fn lemma_merge_sub_required(acc: MergedView, sub: Schema, spec: Spec, visiting: Seq<Seq<char>>, fuel: nat)
    ensures
        forall|r: Seq<char>| acc.required.contains(r) ==> #[trigger] merge_sub(acc, sub, spec, visiting, fuel).required.contains(r),
        merged_part_required(sub, spec, visiting, fuel) matches Some(pr) ==> forall|r: Seq<char>| pr.contains(r)
            ==> #[trigger] merge_sub(acc, sub, spec, visiting, fuel).required.contains(r),
{
    let name = schema_ref_name_spec(sub);
    match name {
        Some(n) if visiting.contains(n) => {},
        _ => match resolve_spec(sub, spec) {
            Some(Schema::Object(o)) => if fuel > 0 {
                let part = merged_spec(*o, spec, push_name(visiting, name), (fuel - 1) as nat);
                lemma_add_required_contains(acc.required, part.required);
            },
            _ => {},
        },
    }
}

proof fn lemma_merge_subs_required(acc: MergedView, subs: Seq<Schema>, spec: Spec, visiting: Seq<Seq<char>>, fuel: nat)
    ensures
        forall|r: Seq<char>| acc.required.contains(r) ==> #[trigger] merge_subs(acc, subs, spec, visiting, fuel).required.contains(r),
        forall|k: int, r: Seq<char>| 0 <= k < subs.len() && (#[trigger] merged_part_required(subs[k], spec, visiting, fuel))
            is Some && merged_part_required(subs[k], spec, visiting, fuel).unwrap().contains(r)
            ==> #[trigger] merge_subs(acc, subs, spec, visiting, fuel).required.contains(r),
    decreases subs.len(),
{
    if subs.len() > 0 {
        let pre = subs.drop_last();
        lemma_merge_subs_required(acc, pre, spec, visiting, fuel);
        let mid = merge_subs(acc, pre, spec, visiting, fuel);
        lemma_merge_sub_required(mid, subs.last(), spec, visiting, fuel);
        let res = merge_subs(acc, subs, spec, visiting, fuel);
        assert(res == merge_sub(mid, subs.last(), spec, visiting, fuel));
        assert forall|k: int, r: Seq<char>| 0 <= k < subs.len() && (#[trigger] merged_part_required(subs[k], spec, visiting, fuel))
            is Some && merged_part_required(subs[k], spec, visiting, fuel).unwrap().contains(r)
            implies #[trigger] res.required.contains(r) by {
            if k < subs.len() - 1 {
                assert(pre[k] == subs[k]);
                assert(mid.required.contains(r));
            }
        }
    }
}

/// After `allOf` merging, every required name of the object, and every required name of each
/// part that is merged in, is required: a part's names are added whatever was required
/// before it.
pub proof fn lemma_merged_required(obj: ObjectSchema, spec: Spec, visiting: Seq<Seq<char>>, fuel: nat)
    ensures
        forall|r: Seq<char>| views(obj.required@).contains(r) ==> #[trigger] merged_spec(obj, spec, visiting, fuel).required.contains(r),
        forall|k: int, r: Seq<char>| 0 <= k < obj.all_of@.len() && (#[trigger] merged_part_required(obj.all_of@[k], spec, visiting, fuel))
            is Some && merged_part_required(obj.all_of@[k], spec, visiting, fuel).unwrap().contains(r)
            ==> #[trigger] merged_spec(obj, spec, visiting, fuel).required.contains(r),
{
    if obj.all_of@.len() > 0 {
        lemma_merge_subs_required(unmerged(obj), obj.all_of@, spec, visiting, fuel);
    }
}

proof fn lemma_merge_subs_extends(acc: MergedView, subs: Seq<Schema>, spec: Spec, visiting: Seq<Seq<char>>, fuel: nat)
    ensures
        extends(acc, merge_subs(acc, subs, spec, visiting, fuel)),
    decreases subs.len(),
{
    if subs.len() == 0 {
        lemma_extends_refl(acc);
    } else {
        lemma_merge_subs_extends(acc, subs.drop_last(), spec, visiting, fuel);
        let mid = merge_subs(acc, subs.drop_last(), spec, visiting, fuel);
        lemma_merge_sub_extends(mid, subs.last(), spec, visiting, fuel);
        lemma_extends_trans(acc, mid, merge_subs(acc, subs, spec, visiting, fuel));
    }
}

/// The merged schema extends the object's own parts: its properties, in order, then only
/// properties of new names; its required names, in order, then only new names; its own
/// type, when it has one. Without `allOf`, it is the object's own parts.
pub proof fn lemma_merged_extends(obj: ObjectSchema, spec: Spec, visiting: Seq<Seq<char>>, fuel: nat)
    ensures
        extends(unmerged(obj), merged_spec(obj, spec, visiting, fuel)),
        obj.all_of@.len() == 0 ==> merged_spec(obj, spec, visiting, fuel) == unmerged(obj),
{
    if obj.all_of@.len() == 0 {
        lemma_extends_refl(unmerged(obj));
    } else {
        lemma_merge_subs_extends(unmerged(obj), obj.all_of@, spec, visiting, fuel);
    }
}

fn has_key(props: &Vec<(&String, &Schema)>, key: &str) -> (b: bool)
    ensures
        b == prop_keys(props@.map_values(|p: (&String, &Schema)| ((*p.0)@, *p.1))).contains(key@),
{
    let ghost ks = prop_keys(props@.map_values(|p: (&String, &Schema)| ((*p.0)@, *p.1)));
    let mut i: usize = 0;
    while i < props.len()
        invariant
            i <= props@.len(),
            ks == prop_keys(props@.map_values(|p: (&String, &Schema)| ((*p.0)@, *p.1))),
            forall|k: int| 0 <= k < i ==> ks[k] != key@,
        decreases props@.len() - i,
    {
        if str_eq(props[i].0.as_str(), key) {
            assert(ks[i as int] == key@);
            return true;
        }
        i += 1;
    }
    false
}

fn has_name(names: &Vec<&String>, name: &str) -> (b: bool)
    ensures
        b == names@.map_values(|r: &String| (*r)@).contains(name@),
{
    let ghost ns = names@.map_values(|r: &String| (*r)@);
    let mut i: usize = 0;
    while i < names.len()
        invariant
            i <= names@.len(),
            ns == names@.map_values(|r: &String| (*r)@),
            forall|k: int| 0 <= k < i ==> ns[k] != name@,
        decreases names@.len() - i,
    {
        if str_eq(names[i].as_str(), name) {
            assert(ns[i as int] == name@);
            return true;
        }
        i += 1;
    }
    false
}

fn merge_into<'a>(acc: &mut Merged<'a>, sub: &Merged<'a>)
    ensures
        merged_view(*final(acc)) == absorb(merged_view(*old(acc)), merged_view(*sub)),
        final(acc).obj == old(acc).obj,
{
    let ghost start = merged_view(*acc);
    let ghost subv = merged_view(*sub);
    let mut i: usize = 0;
    while i < sub.properties.len()
        invariant
            i <= sub.properties@.len(),
            subv == merged_view(*sub),
            acc.obj == old(acc).obj,
            acc.required == old(acc).required,
            acc.schema_type == old(acc).schema_type,
            merged_view(*acc).properties == add_properties(start.properties, subv.properties.take(i as int)),
        decreases sub.properties@.len() - i,
    {
        assert(subv.properties.take(i + 1).drop_last() =~= subv.properties.take(i as int));
        let (k, s) = sub.properties[i];
        if !has_key(&acc.properties, k.as_str()) {
            let ghost before = acc.properties@;
            acc.properties.push((k, s));
            assert(acc.properties@.map_values(|p: (&String, &Schema)| ((*p.0)@, *p.1)) =~= before.map_values(
                |p: (&String, &Schema)| ((*p.0)@, *p.1),
            ).push((k@, *s)));
        }
        i += 1;
    }
    assert(subv.properties.take(subv.properties.len() as int) =~= subv.properties);
    let ghost mid = merged_view(*acc);
    let mut j: usize = 0;
    while j < sub.required.len()
        invariant
            j <= sub.required@.len(),
            subv == merged_view(*sub),
            acc.obj == old(acc).obj,
            merged_view(*acc).properties == mid.properties,
            acc.schema_type == old(acc).schema_type,
            merged_view(*acc).required == add_required(start.required, subv.required.take(j as int)),
        decreases sub.required@.len() - j,
    {
        assert(subv.required.take(j + 1).drop_last() =~= subv.required.take(j as int));
        let r = sub.required[j];
        if !has_name(&acc.required, r.as_str()) {
            let ghost before = acc.required@;
            acc.required.push(r);
            assert(acc.required@.map_values(|x: &String| (*x)@) =~= before.map_values(|x: &String| (*x)@).push(r@));
        }
        j += 1;
    }
    assert(subv.required.take(subv.required.len() as int) =~= subv.required);
    if acc.schema_type.is_none() {
        acc.schema_type = sub.schema_type;
    }
}

fn unmerged_exec<'a>(obj: &'a ObjectSchema) -> (m: Merged<'a>)
    ensures
        merged_view(m) == unmerged(*obj),
        m.obj == obj,
{
    let mut properties: Vec<(&'a String, &'a Schema)> = Vec::new();
    let mut i: usize = 0;
    while i < obj.properties.len()
        invariant
            i <= obj.properties@.len(),
            properties@.map_values(|p: (&String, &Schema)| ((*p.0)@, *p.1)) == obj.properties@.take(i as int).map_values(
                |p: (String, Schema)| (p.0@, p.1),
            ),
        decreases obj.properties@.len() - i,
    {
        let entry = &obj.properties[i];
        let ghost before = properties@;
        properties.push((&entry.0, &entry.1));
        assert(properties@.map_values(|p: (&String, &Schema)| ((*p.0)@, *p.1)) =~= before.map_values(
            |p: (&String, &Schema)| ((*p.0)@, *p.1),
        ).push((entry.0@, entry.1)));
        assert(obj.properties@.take(i + 1) =~= obj.properties@.take(i as int).push(obj.properties@[i as int]));
        assert(properties@.map_values(|p: (&String, &Schema)| ((*p.0)@, *p.1)) =~= obj.properties@.take(i + 1).map_values(
            |p: (String, Schema)| (p.0@, p.1),
        ));
        i += 1;
    }
    assert(obj.properties@.take(obj.properties@.len() as int) =~= obj.properties@);
    let mut required: Vec<&'a String> = Vec::new();
    let mut j: usize = 0;
    while j < obj.required.len()
        invariant
            j <= obj.required@.len(),
            required@.map_values(|r: &String| (*r)@) == views(obj.required@.take(j as int)),
        decreases obj.required@.len() - j,
    {
        let ghost before = required@;
        required.push(&obj.required[j]);
        assert(required@.map_values(|r: &String| (*r)@) =~= before.map_values(|r: &String| (*r)@).push(obj.required@[j as int]@));
        assert(obj.required@.take(j + 1) =~= obj.required@.take(j as int).push(obj.required@[j as int]));
        assert(required@.map_values(|r: &String| (*r)@) =~= views(obj.required@.take(j + 1)));
        j += 1;
    }
    assert(obj.required@.take(obj.required@.len() as int) =~= obj.required@);
    Merged { obj, properties, required, schema_type: obj.schema_type.as_ref() }
}

/// Merges the `allOf` parts of `obj`, with the names in `visiting` already being expanded.
pub fn merge_all_of_in<'a>(obj: &'a ObjectSchema, spec: &'a Spec, visiting: &mut Vec<String>, fuel: usize) -> (m: Merged<'a>)
    ensures
        merged_view(m) == merged_spec(*obj, *spec, views(old(visiting)@), fuel as nat),
        final(visiting)@ == old(visiting)@,
        m.obj == obj,
    decreases fuel, obj.all_of@.len() + 2,
{
    let mut m = unmerged_exec(obj);
    if obj.all_of.len() == 0 {
        return m;
    }
    let ghost vis = views(visiting@);
    let mut i: usize = 0;
    while i < obj.all_of.len()
        invariant
            i <= obj.all_of@.len(),
            visiting@ == old(visiting)@,
            vis == views(visiting@),
            m.obj == obj,
            merged_view(m) == merge_subs(unmerged(*obj), obj.all_of@.take(i as int), *spec, vis, fuel as nat),
        decreases obj.all_of@.len() - i,
    {
        assert(obj.all_of@.take(i + 1).drop_last() =~= obj.all_of@.take(i as int));
        assert(obj.all_of@.take(i + 1).last() == obj.all_of@[i as int]);
        merge_subschema_into(&mut m, &obj.all_of[i], spec, visiting, fuel);
        i += 1;
    }
    assert(obj.all_of@.take(obj.all_of@.len() as int) =~= obj.all_of@);
    m
}

fn merge_subschema_into<'a>(merged: &mut Merged<'a>, sub: &'a Schema, spec: &'a Spec, visiting: &mut Vec<String>, fuel: usize)
    ensures
        merged_view(*final(merged)) == merge_sub(merged_view(*old(merged)), *sub, *spec, views(old(visiting)@), fuel as nat),
        final(visiting)@ == old(visiting)@,
        final(merged).obj == old(merged).obj,
    decreases fuel, 0int,
{
    let pushed = schema_ref_name(sub);
    if let Some(n) = &pushed {
        if contains_string(visiting, n.as_str()) {
            return;
        }
        let ghost before = visiting@;
        visiting.push(n.clone());
        assert(views(visiting@) =~= views(before).push(n@));
    }
    match resolve_schema(sub, spec) {
        Some(Schema::Object(o)) => {
            if fuel > 0 {
                let sm = merge_all_of_in(o, spec, visiting, fuel - 1);
                merge_into(merged, &sm);
            }
        },
        _ => {},
    }
    if pushed.is_some() {
        let ghost before = visiting@;
        visiting.pop();
        assert(visiting@ =~= old(visiting)@);
    }
}

/// The effective schema of `obj`: its `allOf` parts merged in, recursively, with an outer
/// property or type taking precedence over a merged one.
pub fn merge_all_of<'a>(obj: &'a ObjectSchema, spec: &'a Spec) -> (m: Merged<'a>)
    ensures
        merged_view(m) == merged_spec(*obj, *spec, seq![], MAX_MERGE_DEPTH as nat),
        m.obj == obj,
{
    let mut visiting: Vec<String> = Vec::new();
    assert(views(visiting@) =~= seq![]);
    merge_all_of_in(obj, spec, &mut visiting, MAX_MERGE_DEPTH)
}

impl<'a> Merged<'a> {
    /// The schema of the merged property `name`, if there is one.
    pub fn property(&self, name: &str) -> (r: Option<&'a Schema>)
        ensures
            r is Some <==> prop_keys(merged_view(*self).properties).contains(name@),
    {
        let ghost ks = prop_keys(merged_view(*self).properties);
        let mut i: usize = 0;
        while i < self.properties.len()
            invariant
                i <= self.properties@.len(),
                ks == prop_keys(merged_view(*self).properties),
                forall|k: int| 0 <= k < i ==> ks[k] != name@,
            decreases self.properties@.len() - i,
        {
            if str_eq(self.properties[i].0.as_str(), name) {
                assert(ks[i as int] == name@);
                return Some(self.properties[i].1);
            }
            i += 1;
        }
        None
    }

    /// The merged required names, in order.
    pub fn required_names(&self) -> (r: Vec<String>)
        ensures
            views(r@) == merged_view(*self).required,
    {
        let mut out: Vec<String> = Vec::new();
        let mut i: usize = 0;
        while i < self.required.len()
            invariant
                i <= self.required@.len(),
                views(out@) == self.required@.take(i as int).map_values(|r: &String| (*r)@),
            decreases self.required@.len() - i,
        {
            let ghost before = out@;
            out.push(self.required[i].clone());
            assert(views(out@) =~= views(before).push(self.required@[i as int]@));
            assert(self.required@.take(i + 1) =~= self.required@.take(i as int).push(self.required@[i as int]));
            assert(views(out@) =~= self.required@.take(i + 1).map_values(|r: &String| (*r)@));
            i += 1;
        }
        assert(self.required@.take(self.required@.len() as int) =~= self.required@);
        out
    }
}

} // verus!
