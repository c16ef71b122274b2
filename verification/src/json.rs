//! JSON documents and the clean-up applied to them before they are read as OpenAPI.

use vstd::prelude::*;
use vstd::string::*;

verus! {

/// A JSON value. Numbers are held as their JSON text; object members keep their order.
#[derive(Debug, PartialEq)]
pub enum Json {
    Null,
    Bool(bool),
    Number(String),
    String(String),
    Array(Vec<Json>),
    Object(Vec<(String, Json)>),
}

/// The mathematical value of a [`Json`].
pub enum JsonV {
    Null,
    Bool(bool),
    Number(Seq<char>),
    Str(Seq<char>),
    Array(Seq<JsonV>),
    Object(Seq<(Seq<char>, JsonV)>),
}

pub open spec fn items_view(items: Seq<Json>) -> Seq<JsonV>
    decreases items,
{
    if items.len() == 0 {
        seq![]
    } else {
        items_view(items.drop_last()).push(json_view(items.last()))
    }
}

pub open spec fn members_view(members: Seq<(String, Json)>) -> Seq<(Seq<char>, JsonV)>
    decreases members,
{
    if members.len() == 0 {
        seq![]
    } else {
        members_view(members.drop_last()).push((members.last().0@, json_view(members.last().1)))
    }
}

pub open spec fn json_view(j: Json) -> JsonV
    decreases j,
{
    match j {
        Json::Null => JsonV::Null,
        Json::Bool(b) => JsonV::Bool(b),
        Json::Number(n) => JsonV::Number(n@),
        Json::String(s) => JsonV::Str(s@),
        Json::Array(v) => JsonV::Array(items_view(v@)),
        Json::Object(m) => JsonV::Object(members_view(m@)),
    }
}

impl View for Json {
    type V = JsonV;

    open spec fn view(&self) -> JsonV {
        json_view(*self)
    }
}

} // verus!

verus! {

pub proof fn lemma_items_view(items: Seq<Json>)
    ensures
        items_view(items).len() == items.len(),
        forall|i: int| 0 <= i < items.len() ==> #[trigger] items_view(items)[i] == json_view(items[i]),
    decreases items.len(),
{
    if items.len() > 0 {
        lemma_items_view(items.drop_last());
    }
}

pub proof fn lemma_members_view(members: Seq<(String, Json)>)
    ensures
        members_view(members).len() == members.len(),
        forall|i: int| 0 <= i < members.len() ==> #[trigger] members_view(members)[i] == (members[i].0@, json_view(members[i].1)),
    decreases members.len(),
{
    if members.len() > 0 {
        lemma_members_view(members.drop_last());
    }
}

/// A copy of `v`.
#[verifier::loop_isolation(false)]
pub fn copy_json(v: &Json) -> (r: Json)
    ensures
        r@ == v@,
    decreases v,
{
    match v {
        Json::Null => Json::Null,
        Json::Bool(b) => Json::Bool(*b),
        Json::Number(n) => Json::Number(n.clone()),
        Json::String(s) => Json::String(s.clone()),
        Json::Array(items) => {
            let mut out: Vec<Json> = Vec::new();
            let mut i: usize = 0;
            proof { lemma_items_view(items@); }
            while i < items.len()
                invariant
                    i <= items@.len(),
                    items_view(out@) == items_view(items@).take(i as int),
                decreases items@.len() - i,
            {
                proof {
                    assert(decreases_to!(*v => *items));
                    assert(decreases_to!(*items => items@));
                    assert(decreases_to!(items@ => items@[i as int]));
                }
                let c = copy_json(&items[i]);
                let ghost before = out@;
                out.push(c);
                proof {
                    assert(out@.drop_last() == before);
                    lemma_items_view(items@);
                    assert(items_view(items@).take(i + 1) =~= items_view(items@).take(i as int).push(json_view(items@[i as int])));
                }
                i += 1;
            }
            proof { lemma_items_view(items@); }
            assert(items_view(items@).take(items@.len() as int) =~= items_view(items@));
            Json::Array(out)
        },
        Json::Object(members) => {
            let mut out: Vec<(String, Json)> = Vec::new();
            let mut i: usize = 0;
            proof { lemma_members_view(members@); }
            while i < members.len()
                invariant
                    i <= members@.len(),
                    members_view(out@) == members_view(members@).take(i as int),
                decreases members@.len() - i,
            {
                proof {
                    assert(decreases_to!(*v => *members));
                    assert(decreases_to!(*members => members@));
                    assert(decreases_to!(members@ => members@[i as int]));
                    assert(decreases_to!(members@[i as int] => members@[i as int].1));
                }
                let c = copy_json(&members[i].1);
                let k = members[i].0.clone();
                let ghost before = out@;
                out.push((k, c));
                proof {
                    assert(out@.drop_last() == before);
                    lemma_members_view(members@);
                    assert(members_view(members@).take(i + 1) =~= members_view(members@).take(i as int).push((members@[i as int].0@, json_view(members@[i as int].1))));
                }
                i += 1;
            }
            proof { lemma_members_view(members@); }
            assert(members_view(members@).take(members@.len() as int) =~= members_view(members@));
            Json::Object(out)
        },
    }
}

/// The value of the first member named `key`.
pub open spec fn get_member(m: Seq<(Seq<char>, JsonV)>, key: Seq<char>) -> Option<JsonV>
    decreases m.len(),
{
    if m.len() == 0 {
        None
    } else if m[0].0 == key {
        Some(m[0].1)
    } else {
        get_member(m.drop_first(), key)
    }
}

/// The value of the first member named `key`.
pub fn find_member<'a>(m: &'a Vec<(String, Json)>, key: &str) -> (r: Option<&'a Json>)
    ensures
        match r {
            Some(j) => get_member(members_view(m@), key@) == Some(j@),
            None => get_member(members_view(m@), key@) is None,
        },
{
    proof { lemma_members_view(m@); }
    let ghost mv = members_view(m@);
    let mut i: usize = 0;
    assert(mv.skip(0) =~= mv);
    while i < m.len()
        invariant
            i <= m@.len(),
            mv == members_view(m@),
            mv.len() == m@.len(),
            forall|k: int| 0 <= k < m@.len() ==> #[trigger] mv[k] == (m@[k].0@, json_view(m@[k].1)),
            get_member(mv, key@) == get_member(mv.skip(i as int), key@),
        decreases m@.len() - i,
    {
        assert(mv.skip(i as int)[0] == mv[i as int]);
        assert(mv.skip(i as int).drop_first() =~= mv.skip(i + 1));
        if crate::text::str_eq(m[i].0.as_str(), key) {
            return Some(&m[i].1);
        }
        i += 1;
    }
    None
}

/// `url::Url::parse(s).is_ok()` for `s`.
pub uninterp spec fn parses_as_absolute_url(s: Seq<char>) -> bool;

/// Whether `url::Url::parse` accepts `s`, that is whether it is an absolute URL; the
/// outcome is named, not stated.
#[verifier::external_body]
fn is_absolute_url(s: &str) -> (b: bool)
    ensures
        b == parses_as_absolute_url(s@),
{
    url::Url::parse(s).is_ok()
}

pub open spec fn is_bool(v: JsonV) -> bool {
    v is Bool
}

/// Whether an item of a `type` array is kept: a string other than `any`.
pub open spec fn keeps_type_item(v: JsonV) -> bool {
    match v {
        JsonV::Str(s) => s != "any"@,
        _ => false,
    }
}

/// `type`: `"any"` is dropped; a list keeps its string items other than `"any"`, and is
/// dropped when none is left; anything else is kept.
pub open spec fn normalized_type(v: JsonV) -> Option<JsonV> {
    match v {
        JsonV::Str(s) => if s == "any"@ { None } else { Some(v) },
        JsonV::Array(items) => {
            let kept = items.filter(|i: JsonV| keeps_type_item(i));
            if kept.len() == 0 { None } else { Some(JsonV::Array(kept)) }
        },
        _ => Some(v),
    }
}

/// Security requirements: a `null` scope list becomes an empty list.
pub open spec fn fixed_scopes(req: JsonV) -> JsonV {
    match req {
        JsonV::Object(m) => JsonV::Object(m.map_values(|e: (Seq<char>, JsonV)|
            if e.1 is Null { (e.0, JsonV::Array(seq![])) } else { e }
        )),
        _ => req,
    }
}

pub open spec fn sanitized_security(v: JsonV) -> JsonV {
    match v {
        JsonV::Array(reqs) => JsonV::Array(reqs.map_values(|r: JsonV| fixed_scopes(r))),
        _ => v,
    }
}

/// `externalDocs` is kept only with an absolute `url`.
pub open spec fn sanitized_external_docs(v: JsonV) -> Option<JsonV> {
    match v {
        JsonV::Object(m) => match get_member(m, "url"@) {
            Some(JsonV::Str(s)) if parses_as_absolute_url(s) => Some(v),
            _ => None,
        },
        _ => Some(v),
    }
}

/// The index of the first member named `key`.
pub open spec fn key_index(m: Seq<(Seq<char>, JsonV)>, key: Seq<char>) -> Option<int>
    decreases m.len(),
{
    if m.len() == 0 {
        None
    } else if m[0].0 == key {
        Some(0)
    } else {
        match key_index(m.drop_first(), key) {
            Some(i) => Some(i + 1),
            None => None,
        }
    }
}

/// A `url` member that is not absolute is removed, as `serde_json::Map::remove` removes it.
pub open spec fn sanitized_url_field(v: JsonV) -> JsonV {
    match v {
        JsonV::Object(m) => match key_index(m, "url"@) {
            Some(i) => match m[i].1 {
                JsonV::Str(s) => if parses_as_absolute_url(s) {
                    v
                } else {
                    JsonV::Object(swap_removed(m, i))
                },
                _ => v,
            },
            None => v,
        },
        _ => v,
    }
}

pub open spec fn is_exclusive_key(k: Seq<char>) -> bool {
    k == "exclusiveMinimum"@ || k == "exclusiveMaximum"@
}

/// `s` without its item at `i`, the last item taking its place: how `serde_json::Map::remove`
/// removes a member when the map keeps its order of insertion.
pub open spec fn swap_removed<A>(s: Seq<A>, i: int) -> Seq<A> {
    s.update(i, s.last()).drop_last()
}

/// The members of an object as it is being rewritten: each slot names the member whose key it
/// carries and the member whose value it carries.
pub open spec fn identity_slots(n: nat) -> Seq<(int, int)> {
    Seq::new(n, |i: int| (i, i))
}

/// The first slot whose key is `key`.
pub open spec fn slot_index(m: Seq<(Seq<char>, JsonV)>, slots: Seq<(int, int)>, key: Seq<char>) -> Option<int>
    decreases slots.len(),
{
    if slots.len() == 0 {
        None
    } else if 0 <= slots[0].0 < m.len() && m[slots[0].0].0 == key {
        Some(0)
    } else {
        match slot_index(m, slots.drop_first(), key) {
            Some(i) => Some(i + 1),
            None => None,
        }
    }
}

/// The value a slot carries.
pub open spec fn slot_value(m: Seq<(Seq<char>, JsonV)>, slot: (int, int)) -> JsonV {
    m[slot.1].1
}

/// An OpenAPI 3.0 (draft 4) boolean exclusive bound turned into the 3.1 form: with `true`,
/// the bound's value moves under the exclusive key and the bound is removed; `false` is
/// removed. Removals follow `serde_json::Map::remove`.
pub open spec fn normalize_bound_pair(
    m: Seq<(Seq<char>, JsonV)>,
    slots: Seq<(int, int)>,
    excl: Seq<char>,
    bound: Seq<char>,
) -> Seq<(int, int)> {
    match slot_index(m, slots, excl) {
        Some(ie) => if slot_value(m, slots[ie]) == JsonV::Bool(true) {
            match slot_index(m, slots, bound) {
                Some(ib) => {
                    let moved = slots[ib].1;
                    let rest = swap_removed(slots, ib);
                    match slot_index(m, rest, excl) {
                        Some(j) => rest.update(j, (rest[j].0, moved)),
                        None => rest,
                    }
                },
                None => slots,
            }
        } else if slot_value(m, slots[ie]) == JsonV::Bool(false) {
            swap_removed(slots, ie)
        } else {
            slots
        },
        None => slots,
    }
}

/// The members of a schema object with both draft-4 exclusive bounds normalized, minimum first.
pub open spec fn bound_slots(m: Seq<(Seq<char>, JsonV)>) -> Seq<(int, int)> {
    normalize_bound_pair(
        m,
        normalize_bound_pair(m, identity_slots(m.len()), "exclusiveMinimum"@, "minimum"@),
        "exclusiveMaximum"@,
        "maximum"@,
    )
}

/// The slots of an object before its members are sanitized: normalized bounds in a schema.
pub open spec fn object_slots(m: Seq<(Seq<char>, JsonV)>, in_schema: bool) -> Seq<(int, int)> {
    if in_schema {
        bound_slots(m)
    } else {
        identity_slots(m.len())
    }
}

/// The sanitized members of the first `n` slots: each member sanitized by its key, or dropped.
pub open spec fn sanitized_slots(m: Seq<(Seq<char>, JsonV)>, slots: Seq<(int, int)>, n: int, in_schema: bool) -> Seq<(Seq<char>, JsonV)>
    decreases m, n,
{
    if n <= 0 || n > slots.len() {
        seq![]
    } else {
        let prefix = sanitized_slots(m, slots, n - 1, in_schema);
        let s = slots[n - 1];
        if 0 <= s.0 < m.len() && 0 <= s.1 < m.len() {
            match sanitized_entry(m[s.0].0, m[s.1].1, in_schema) {
                Some(x) => prefix.push((m[s.0].0, x)),
                None => prefix,
            }
        } else {
            prefix
        }
    }
}

/// The sanitized members of an object.
pub open spec fn sanitized_members(m: Seq<(Seq<char>, JsonV)>, in_schema: bool) -> Seq<(Seq<char>, JsonV)>
    decreases m, object_slots(m, in_schema).len() + 1,
{
    let slots = object_slots(m, in_schema);
    sanitized_slots(m, slots, slots.len() as int, in_schema)
}

/// The first `n` members of `m` with each value sanitized.
pub open spec fn sanitized_values(m: Seq<(Seq<char>, JsonV)>, n: int, in_schema: bool) -> Seq<(Seq<char>, JsonV)>
    decreases m, n,
{
    if n <= 0 || n > m.len() {
        seq![]
    } else {
        sanitized_values(m, n - 1, in_schema).push((m[n - 1].0, sanitized(m[n - 1].1, in_schema)))
    }
}

/// The first `n` items of `a`, each sanitized.
pub open spec fn sanitized_items(a: Seq<JsonV>, n: int, in_schema: bool) -> Seq<JsonV>
    decreases a, n,
{
    if n <= 0 || n > a.len() {
        seq![]
    } else {
        sanitized_items(a, n - 1, in_schema).push(sanitized(a[n - 1], in_schema))
    }
}

/// A map of schemas (`properties`, `schemas`): each value sanitized.
pub open spec fn sanitized_map_values(v: JsonV, in_schema: bool) -> JsonV
    decreases v, 0int,
{
    match v {
        JsonV::Object(m) => JsonV::Object(sanitized_values(m, m.len() as int, in_schema)),
        _ => v,
    }
}

/// A list of schemas (`allOf` and the like): each item sanitized.
pub open spec fn sanitized_array_items(v: JsonV, in_schema: bool) -> JsonV
    decreases v, 0int,
{
    match v {
        JsonV::Array(a) => JsonV::Array(sanitized_items(a, a.len() as int, in_schema)),
        _ => v,
    }
}

/// The sanitized value kept under `key`, or `None` to drop the member.
pub open spec fn sanitized_entry(key: Seq<char>, v: JsonV, in_schema: bool) -> Option<JsonV>
    decreases v, 1int,
{
    if key == "example"@ || key == "examples"@ || key == "default"@ {
        Some(v)
    } else if key == "type"@ {
        normalized_type(v)
    } else if key == "required"@ && in_schema {
        if is_bool(v) { None } else { Some(sanitized(v, false)) }
    } else if is_exclusive_key(key) && in_schema {
        if is_bool(v) { None } else { Some(v) }
    } else if key == "schema"@ {
        Some(sanitized(v, true))
    } else if key == "schemas"@ {
        Some(sanitized_map_values(v, true))
    } else if (key == "items"@ || key == "additionalProperties"@ || key == "not"@) && in_schema {
        Some(sanitized(v, true))
    } else if key == "properties"@ && in_schema {
        Some(sanitized_map_values(v, true))
    } else if (key == "allOf"@ || key == "anyOf"@ || key == "oneOf"@ || key == "prefixItems"@)
        && in_schema {
        Some(sanitized_array_items(v, true))
    } else if key == "description"@ {
        if v is Str { Some(v) } else { None }
    } else if key == "security"@ {
        Some(sanitized_security(v))
    } else if key == "externalDocs"@ {
        sanitized_external_docs(v)
    } else if key == "license"@ || key == "contact"@ {
        Some(sanitized_url_field(v))
    } else if key == "termsOfService"@ || key == "authorizationUrl"@ || key == "tokenUrl"@
        || key == "refreshUrl"@ {
        match v {
            JsonV::Str(s) if !parses_as_absolute_url(s) => None,
            _ => Some(v),
        }
    } else {
        Some(sanitized(v, in_schema))
    }
}

/// A document with its non-compliant fields normalized; `in_schema` tells whether `v` is a
/// schema object.
pub open spec fn sanitized(v: JsonV, in_schema: bool) -> JsonV
    decreases v, 0int,
{
    match v {
        JsonV::Object(m) => JsonV::Object(sanitized_members(m, in_schema)),
        JsonV::Array(a) => JsonV::Array(sanitized_items(a, a.len() as int, in_schema)),
        _ => v,
    }
}

} // verus!

verus! {

pub open spec fn opt_json_view(o: Option<Json>) -> Option<JsonV> {
    match o {
        Some(j) => Some(j@),
        None => None,
    }
}

/// `normalize_type_value`: see [`normalized_type`].
pub fn normalize_type_value(v: &Json) -> (r: Option<Json>)
    ensures
        opt_json_view(r) == normalized_type(v@),
{
    match v {
        Json::String(s) => {
            if crate::text::str_eq(s.as_str(), "any") {
                None
            } else {
                Some(Json::String(s.clone()))
            }
        },
        Json::Array(items) => {
            proof { lemma_items_view(items@); }
            let ghost iv = items_view(items@);
            let mut kept: Vec<Json> = Vec::new();
            let mut i: usize = 0;
            while i < items.len()
                invariant
                    i <= items@.len(),
                    iv == items_view(items@),
                    iv.len() == items@.len(),
                    forall|k: int| 0 <= k < items@.len() ==> #[trigger] iv[k] == json_view(items@[k]),
                    items_view(kept@) == iv.take(i as int).filter(|x: JsonV| keeps_type_item(x)),
                decreases items@.len() - i,
            {
                reveal_with_fuel(Seq::filter, 1);
                assert(iv.take(i + 1).drop_last() =~= iv.take(i as int));
                assert(iv.take(i + 1).last() == json_view(items@[i as int]));
                if let Json::String(s) = &items[i] {
                    if !crate::text::str_eq(s.as_str(), "any") {
                        let ghost before = kept@;
                        kept.push(Json::String(s.clone()));
                        assert(kept@.drop_last() == before);
                    }
                }
                i += 1;
            }
            assert(iv.take(items@.len() as int) =~= iv);
            if kept.len() == 0 {
                None
            } else {
                Some(Json::Array(kept))
            }
        },
        _ => Some(copy_json(v)),
    }
}

/// `null` scopes of one security requirement become `[]`.
pub fn fix_scopes(req: &Json) -> (r: Json)
    ensures
        r@ == fixed_scopes(req@),
{
    match req {
        Json::Object(m) => {
            proof { lemma_members_view(m@); }
            let ghost mv = members_view(m@);
            let mut out: Vec<(String, Json)> = Vec::new();
            let mut i: usize = 0;
            while i < m.len()
                invariant
                    i <= m@.len(),
                    mv == members_view(m@),
                    mv.len() == m@.len(),
                    forall|k: int| 0 <= k < m@.len() ==> #[trigger] mv[k] == (m@[k].0@, json_view(m@[k].1)),
                    members_view(out@) == mv.take(i as int).map_values(|e: (Seq<char>, JsonV)|
                        if e.1 is Null { (e.0, JsonV::Array(seq![])) } else { e }
                    ),
                decreases m@.len() - i,
            {
                let k = m[i].0.clone();
                let val = match &m[i].1 {
                    Json::Null => {
                        let e: Vec<Json> = Vec::new();
                        assert(items_view(e@) =~= Seq::<JsonV>::empty());
                        Json::Array(e)
                    },
                    other => {
                        assert(!(json_view(*other) is Null));
                        copy_json(other)
                    },
                };
                assert(mv[i as int].1 is Null <==> m@[i as int].1 is Null);
                let ghost before = out@;
                let ghost kv = (k@, val@);
                assert(kv == (if mv[i as int].1 is Null { (mv[i as int].0, JsonV::Array(seq![])) } else { mv[i as int] }));
                out.push((k, val));
                proof {
                    assert(out@.drop_last() == before);
                    assert(members_view(out@) == members_view(before).push(kv));
                    assert(mv.take(i + 1) =~= mv.take(i as int).push(mv[i as int]));
                    assert(members_view(out@) =~= mv.take(i + 1).map_values(|e: (Seq<char>, JsonV)|
                        if e.1 is Null { (e.0, JsonV::Array(seq![])) } else { e }
                    ));
                }
                i += 1;
            }
            assert(mv.take(m@.len() as int) =~= mv);
            Json::Object(out)
        },
        _ => copy_json(req),
    }
}

pub fn sanitize_security_requirements(v: &Json) -> (r: Json)
    ensures
        r@ == sanitized_security(v@),
{
    match v {
        Json::Array(reqs) => {
            proof { lemma_items_view(reqs@); }
            let ghost iv = items_view(reqs@);
            let mut out: Vec<Json> = Vec::new();
            let mut i: usize = 0;
            while i < reqs.len()
                invariant
                    i <= reqs@.len(),
                    iv == items_view(reqs@),
                    iv.len() == reqs@.len(),
                    forall|k: int| 0 <= k < reqs@.len() ==> #[trigger] iv[k] == json_view(reqs@[k]),
                    items_view(out@) == iv.take(i as int).map_values(|r: JsonV| fixed_scopes(r)),
                decreases reqs@.len() - i,
            {
                let f = fix_scopes(&reqs[i]);
                let ghost before = out@;
                out.push(f);
                proof {
                    assert(out@.drop_last() == before);
                    assert(iv.take(i + 1) =~= iv.take(i as int).push(iv[i as int]));
                    assert(items_view(out@) =~= iv.take(i + 1).map_values(|r: JsonV| fixed_scopes(r)));
                }
                i += 1;
            }
            assert(iv.take(reqs@.len() as int) =~= iv);
            Json::Array(out)
        },
        _ => copy_json(v),
    }
}

pub fn sanitize_external_docs(v: &Json) -> (r: Option<Json>)
    ensures
        opt_json_view(r) == sanitized_external_docs(v@),
{
    match v {
        Json::Object(m) => match find_member(m, "url") {
            Some(Json::String(s)) => {
                if is_absolute_url(s.as_str()) {
                    Some(copy_json(v))
                } else {
                    None
                }
            },
            _ => None,
        },
        _ => Some(copy_json(v)),
    }
}

/// The index of the first member named `key`.
fn find_key_index(m: &Vec<(String, Json)>, key: &str) -> (r: Option<usize>)
    ensures
        match r {
            Some(i) => key_index(members_view(m@), key@) == Some(i as int) && i < m@.len(),
            None => key_index(members_view(m@), key@) is None,
        },
{
    proof { lemma_members_view(m@); }
    let ghost mv = members_view(m@);
    let mut i: usize = 0;
    assert(mv.skip(0) =~= mv);
    while i < m.len()
        invariant
            i <= m@.len(),
            mv == members_view(m@),
            mv.len() == m@.len(),
            forall|k: int| 0 <= k < m@.len() ==> #[trigger] mv[k] == (m@[k].0@, json_view(m@[k].1)),
            key_index(mv, key@) == match key_index(mv.skip(i as int), key@) {
                Some(k) => Some(k + i),
                None => None,
            },
        decreases m@.len() - i,
    {
        assert(mv.skip(i as int)[0] == mv[i as int]);
        assert(mv.skip(i as int).drop_first() =~= mv.skip(i + 1));
        if crate::text::str_eq(m[i].0.as_str(), key) {
            return Some(i);
        }
        i += 1;
    }
    None
}

/// Removes the `url` member of an object when it is not an absolute URL.
pub fn sanitize_url_field(v: &Json) -> (r: Json)
    ensures
        r@ == sanitized_url_field(v@),
{
    match v {
        Json::Object(m) => {
            proof { lemma_members_view(m@); }
            let i = match find_key_index(m, "url") {
                Some(i) => i,
                None => return copy_json(v),
            };
            let drop = match &m[i].1 {
                Json::String(s) => !is_absolute_url(s.as_str()),
                _ => false,
            };
            if !drop {
                return copy_json(v);
            }
            let mut out: Vec<(String, Json)> = Vec::new();
            let mut k: usize = 0;
            while k < m.len()
                invariant
                    k <= m@.len(),
                    i < m@.len(),
                    members_view(out@) == members_view(m@).take(k as int),
                decreases m@.len() - k,
            {
                let c = copy_json(&m[k].1);
                let ghost before = out@;
                out.push((m[k].0.clone(), c));
                proof {
                    assert(out@.drop_last() == before);
                    lemma_members_view(m@);
                    assert(members_view(m@).take(k + 1) =~= members_view(m@).take(k as int).push(
                        (m@[k as int].0@, json_view(m@[k as int].1)),
                    ));
                }
                k += 1;
            }
            assert(members_view(m@).take(m@.len() as int) =~= members_view(m@));
            let ghost full = out@;
            proof { lemma_members_view(out@); }
            out.swap_remove(i);
            proof {
                lemma_members_view(full);
                lemma_members_view(out@);
                assert(members_view(out@) =~= swap_removed(members_view(full), i as int));
            }
            Json::Object(out)
        },
        _ => copy_json(v),
    }
}

/// Normalizes non-compliant fields found in real-world OpenAPI documents, starting outside
/// any schema. See [`sanitized`].
pub fn sanitize_invalid_types(value: &Json) -> (r: Json)
    ensures
        r@ == sanitized(value@, false),
{
    sanitize(value, false)
}

/// Sanitizes `v`; `in_schema` tells whether `v` is a schema object.
pub fn sanitize(v: &Json, in_schema: bool) -> (r: Json)
    ensures
        r@ == sanitized(v@, in_schema),
    decreases v, 0int,
{
    match v {
        Json::Object(m) => {
            proof {
                assert(decreases_to!(*v => *m));
                lemma_members_view(m@);
            }
            Json::Object(sanitize_members(m, in_schema))
        },
        Json::Array(a) => {
            proof {
                assert(decreases_to!(*v => *a));
                lemma_items_view(a@);
            }
            Json::Array(sanitize_items(a, in_schema))
        },
        _ => copy_json(v),
    }
}

/// Sanitizes every item of a list.
pub fn sanitize_items(a: &Vec<Json>, in_schema: bool) -> (r: Vec<Json>)
    ensures
        items_view(r@) == sanitized_items(items_view(a@), a@.len() as int, in_schema),
    decreases a, 1int,
{
    proof { lemma_items_view(a@); }
    let ghost iv = items_view(a@);
    let mut out: Vec<Json> = Vec::new();
    let mut i: usize = 0;
    while i < a.len()
        invariant
            i <= a@.len(),
            iv == items_view(a@),
            iv.len() == a@.len(),
            forall|k: int| 0 <= k < a@.len() ==> #[trigger] iv[k] == json_view(a@[k]),
            items_view(out@) == sanitized_items(iv, i as int, in_schema),
        decreases a@.len() - i,
    {
        proof {
            assert(decreases_to!(*a => a@));
            assert(decreases_to!(a@ => a@[i as int]));
        }
        let s = sanitize(&a[i], in_schema);
        let ghost before = out@;
        out.push(s);
        assert(out@.drop_last() == before);
        i += 1;
    }
    out
}

/// Sanitizes each value of a map of schemas.
#[verifier::loop_isolation(false)]
pub fn sanitize_map_values(v: &Json, in_schema: bool) -> (r: Json)
    ensures
        r@ == sanitized_map_values(v@, in_schema),
    decreases v, 0int,
{
    match v {
        Json::Object(m) => {
            proof { lemma_members_view(m@); }
            let ghost mv = members_view(m@);
            let mut out: Vec<(String, Json)> = Vec::new();
            let mut i: usize = 0;
            while i < m.len()
                invariant
                    i <= m@.len(),
                    mv == members_view(m@),
                    mv.len() == m@.len(),
                    forall|k: int| 0 <= k < m@.len() ==> #[trigger] mv[k] == (m@[k].0@, json_view(m@[k].1)),
                    members_view(out@) == sanitized_values(mv, i as int, in_schema),
                decreases m@.len() - i,
            {
                proof {
                    assert(decreases_to!(*v => *m));
                    assert(decreases_to!(*m => m@));
                    assert(decreases_to!(m@ => m@[i as int]));
                    assert(decreases_to!(m@[i as int] => m@[i as int].1));
                }
                let s = sanitize(&m[i].1, in_schema);
                let k = m[i].0.clone();
                let ghost before = out@;
                out.push((k, s));
                assert(out@.drop_last() == before);
                i += 1;
            }
            Json::Object(out)
        },
        _ => copy_json(v),
    }
}

/// Sanitizes each item of a list of schemas.
pub fn sanitize_array_items(v: &Json, in_schema: bool) -> (r: Json)
    ensures
        r@ == sanitized_array_items(v@, in_schema),
    decreases v, 0int,
{
    match v {
        Json::Array(a) => {
            proof {
                assert(decreases_to!(*v => *a));
                lemma_items_view(a@);
            }
            Json::Array(sanitize_items(a, in_schema))
        },
        _ => copy_json(v),
    }
}

/// Whether `key` is one of the literal keys `a`.
fn key_is(key: &str, a: &str) -> (b: bool)
    ensures
        b == (key@ == a@),
{
    crate::text::str_eq(key, a)
}

/// The sanitized value kept under `key`, or `None` to drop the member.
pub fn sanitize_entry(key: &str, v: &Json, in_schema: bool) -> (r: Option<Json>)
    ensures
        opt_json_view(r) == sanitized_entry(key@, v@, in_schema),
    decreases v, 1int,
{
    let is_bool = matches!(v, Json::Bool(_));
    if key_is(key, "example") || key_is(key, "examples") || key_is(key, "default") {
        Some(copy_json(v))
    } else if key_is(key, "type") {
        normalize_type_value(v)
    } else if key_is(key, "required") && in_schema {
        if is_bool { None } else { Some(sanitize(v, false)) }
    } else if (key_is(key, "exclusiveMinimum") || key_is(key, "exclusiveMaximum")) && in_schema {
        if is_bool { None } else { Some(copy_json(v)) }
    } else if key_is(key, "schema") {
        Some(sanitize(v, true))
    } else if key_is(key, "schemas") {
        Some(sanitize_map_values(v, true))
    } else if (key_is(key, "items") || key_is(key, "additionalProperties") || key_is(key, "not"))
        && in_schema {
        Some(sanitize(v, true))
    } else if key_is(key, "properties") && in_schema {
        Some(sanitize_map_values(v, true))
    } else if (key_is(key, "allOf") || key_is(key, "anyOf") || key_is(key, "oneOf") || key_is(
        key,
        "prefixItems",
    )) && in_schema {
        Some(sanitize_array_items(v, true))
    } else if key_is(key, "description") {
        if matches!(v, Json::String(_)) { Some(copy_json(v)) } else { None }
    } else if key_is(key, "security") {
        Some(sanitize_security_requirements(v))
    } else if key_is(key, "externalDocs") {
        sanitize_external_docs(v)
    } else if key_is(key, "license") || key_is(key, "contact") {
        Some(sanitize_url_field(v))
    } else if key_is(key, "termsOfService") || key_is(key, "authorizationUrl") || key_is(
        key,
        "tokenUrl",
    ) || key_is(key, "refreshUrl") {
        match v {
            Json::String(s) => if is_absolute_url(s.as_str()) { Some(copy_json(v)) } else { None },
            _ => Some(copy_json(v)),
        }
    } else {
        Some(sanitize(v, in_schema))
    }
}

pub open spec fn slots_view(slots: Seq<(usize, usize)>) -> Seq<(int, int)> {
    slots.map_values(|p: (usize, usize)| (p.0 as int, p.1 as int))
}

/// Every slot names members of an object of `n` members.
pub open spec fn slots_within(slots: Seq<(int, int)>, n: int) -> bool {
    forall|k: int| 0 <= k < slots.len() ==> 0 <= #[trigger] slots[k].0 < n && 0 <= slots[k].1 < n
}

fn identity_slots_exec(n: usize) -> (r: Vec<(usize, usize)>)
    ensures
        slots_view(r@) == identity_slots(n as nat),
{
    let mut r: Vec<(usize, usize)> = Vec::new();
    let mut i: usize = 0;
    while i < n
        invariant
            i <= n,
            slots_view(r@) == identity_slots(i as nat),
        decreases n - i,
    {
        let ghost before = r@;
        r.push((i, i));
        assert(slots_view(r@) =~= slots_view(before).push((i as int, i as int)));
        assert(slots_view(r@) =~= identity_slots((i + 1) as nat));
        i += 1;
    }
    r
}

fn find_slot(m: &Vec<(String, Json)>, slots: &Vec<(usize, usize)>, key: &str) -> (r: Option<usize>)
    ensures
        match r {
            Some(i) => slot_index(members_view(m@), slots_view(slots@), key@) == Some(i as int) && i < slots@.len(),
            None => slot_index(members_view(m@), slots_view(slots@), key@) is None,
        },
{
    proof { lemma_members_view(m@); }
    let ghost mv = members_view(m@);
    let ghost sv = slots_view(slots@);
    let mut i: usize = 0;
    assert(sv.skip(0) =~= sv);
    while i < slots.len()
        invariant
            i <= slots@.len(),
            mv == members_view(m@),
            mv.len() == m@.len(),
            forall|k: int| 0 <= k < m@.len() ==> #[trigger] mv[k] == (m@[k].0@, json_view(m@[k].1)),
            sv == slots_view(slots@),
            slot_index(mv, sv, key@) == match slot_index(mv, sv.skip(i as int), key@) {
                Some(k) => Some(k + i),
                None => None,
            },
        decreases slots@.len() - i,
    {
        assert(sv.skip(i as int)[0] == sv[i as int]);
        assert(sv.skip(i as int).drop_first() =~= sv.skip(i + 1));
        let ki = slots[i].0;
        if ki < m.len() && crate::text::str_eq(m[ki].0.as_str(), key) {
            return Some(i);
        }
        i += 1;
    }
    None
}

proof fn lemma_swap_removed_within(slots: Seq<(int, int)>, i: int, n: int)
    requires
        slots_within(slots, n),
        0 <= i < slots.len(),
    ensures
        slots_within(swap_removed(slots, i), n),
{
    let r = swap_removed(slots, i);
    assert forall|k: int| 0 <= k < r.len() implies 0 <= #[trigger] r[k].0 < n && 0 <= r[k].1 < n by {
        if k == i {
            assert(r[k] == slots[slots.len() - 1]);
        } else {
            assert(r[k] == slots[k]);
        }
    }
}

fn normalize_bound_pair_exec(m: &Vec<(String, Json)>, slots: &mut Vec<(usize, usize)>, excl: &str, bound: &str)
    requires
        slots_within(slots_view(old(slots)@), m@.len() as int),
    ensures
        slots_view(final(slots)@) == normalize_bound_pair(members_view(m@), slots_view(old(slots)@), excl@, bound@),
        slots_within(slots_view(final(slots)@), m@.len() as int),
{
    proof { lemma_members_view(m@); }
    let ghost mv = members_view(m@);
    let ghost sv = slots_view(slots@);
    let ie = match find_slot(m, slots, excl) {
        Some(i) => i,
        None => return,
    };
    let vi = slots[ie].1;
    assert(sv[ie as int].1 == vi as int);
    assert(slot_value(mv, sv[ie as int]) == json_view(m@[vi as int].1));
    match &m[vi].1 {
        Json::Bool(true) => {
            let ib = match find_slot(m, slots, bound) {
                Some(i) => i,
                None => return,
            };
            let moved = slots[ib].1;
            assert(sv[ib as int].1 == moved as int);
            assert(0 <= moved < m@.len());
            slots.swap_remove(ib);
            proof {
                lemma_swap_removed_within(sv, ib as int, m@.len() as int);
                assert(slots_view(slots@) =~= swap_removed(sv, ib as int));
            }
            if let Some(j) = find_slot(m, slots, excl) {
                let k0 = slots[j].0;
                let ghost rest = slots_view(slots@);
                assert(rest[j as int].0 == k0 as int);
                assert(0 <= k0 < m@.len());
                slots.set(j, (k0, moved));
                proof {
                    assert(slots_view(slots@) =~= rest.update(j as int, (rest[j as int].0, moved as int)));
                    let r = slots_view(slots@);
                    assert forall|k: int| 0 <= k < r.len() implies 0 <= #[trigger] r[k].0 < m@.len() && 0 <= r[k].1 < m@.len() by {
                        if k != j {
                            assert(r[k] == rest[k]);
                        }
                    }
                }
            }
        },
        Json::Bool(false) => {
            slots.swap_remove(ie);
            proof {
                lemma_swap_removed_within(sv, ie as int, m@.len() as int);
                assert(slots_view(slots@) =~= swap_removed(sv, ie as int));
            }
        },
        _ => {},
    }
}

/// The slots of an object's members before they are sanitized. See [`object_slots`].
fn object_slots_exec(m: &Vec<(String, Json)>, in_schema: bool) -> (r: Vec<(usize, usize)>)
    ensures
        slots_view(r@) == object_slots(members_view(m@), in_schema),
        slots_within(slots_view(r@), m@.len() as int),
{
    proof { lemma_members_view(m@); }
    let mut slots = identity_slots_exec(m.len());
    assert(slots_within(slots_view(slots@), m@.len() as int));
    if in_schema {
        normalize_bound_pair_exec(m, &mut slots, "exclusiveMinimum", "minimum");
        normalize_bound_pair_exec(m, &mut slots, "exclusiveMaximum", "maximum");
    }
    slots
}

/// Sanitizes the members of an object. See [`sanitized_members`].
pub fn sanitize_members(m: &Vec<(String, Json)>, in_schema: bool) -> (r: Vec<(String, Json)>)
    ensures
        members_view(r@) == sanitized_members(members_view(m@), in_schema),
    decreases m, 1int,
{
    proof { lemma_members_view(m@); }
    let ghost mv = members_view(m@);
    let slots = object_slots_exec(m, in_schema);
    let ghost sv = slots_view(slots@);
    let mut out: Vec<(String, Json)> = Vec::new();
    let mut i: usize = 0;
    while i < slots.len()
        invariant
            i <= slots@.len(),
            mv == members_view(m@),
            mv.len() == m@.len(),
            forall|k: int| 0 <= k < m@.len() ==> #[trigger] mv[k] == (m@[k].0@, json_view(m@[k].1)),
            sv == slots_view(slots@),
            sv == object_slots(mv, in_schema),
            slots_within(sv, m@.len() as int),
            members_view(out@) == sanitized_slots(mv, sv, i as int, in_schema),
        decreases slots@.len() - i,
    {
        let (ki, vi) = slots[i];
        assert(sv[i as int] == (ki as int, vi as int));
        proof {
            assert(decreases_to!(*m => m@));
            assert(decreases_to!(m@ => m@[vi as int]));
            assert(decreases_to!(m@[vi as int] => m@[vi as int].1));
        }
        match sanitize_entry(m[ki].0.as_str(), &m[vi].1, in_schema) {
            Some(x) => {
                let ghost before = out@;
                out.push((m[ki].0.clone(), x));
                assert(out@.drop_last() == before);
            },
            None => {},
        }
        i += 1;
    }
    out
}

} // verus!

verus! {

/// No two members of an object share a key.
pub open spec fn unique_keys(m: Seq<(Seq<char>, JsonV)>) -> bool {
    forall|i: int, j: int| 0 <= i < j < m.len() ==> #[trigger] m[i].0 != #[trigger] m[j].0
}

/// Every object of `v`, at any depth, has distinct keys, as every parsed JSON text gives.
pub open spec fn well_keyed(v: JsonV) -> bool
    decreases v, 0int,
{
    match v {
        JsonV::Object(m) => unique_keys(m) && members_well_keyed(m, m.len() as int),
        JsonV::Array(a) => items_well_keyed(a, a.len() as int),
        _ => true,
    }
}

pub open spec fn members_well_keyed(m: Seq<(Seq<char>, JsonV)>, n: int) -> bool
    decreases m, n,
{
    if n <= 0 || n > m.len() {
        true
    } else {
        members_well_keyed(m, n - 1) && well_keyed(m[n - 1].1)
    }
}

pub open spec fn items_well_keyed(a: Seq<JsonV>, n: int) -> bool
    decreases a, n,
{
    if n <= 0 || n > a.len() {
        true
    } else {
        items_well_keyed(a, n - 1) && well_keyed(a[n - 1])
    }
}

proof fn lemma_members_well_keyed(m: Seq<(Seq<char>, JsonV)>, n: int)
    requires
        0 <= n <= m.len(),
        members_well_keyed(m, n),
    ensures
        forall|i: int| 0 <= i < n ==> well_keyed(#[trigger] m[i].1),
    decreases n,
{
    if n > 0 {
        lemma_members_well_keyed(m, n - 1);
    }
}

proof fn lemma_items_well_keyed(a: Seq<JsonV>, n: int)
    requires
        0 <= n <= a.len(),
        items_well_keyed(a, n),
    ensures
        forall|i: int| 0 <= i < n ==> well_keyed(#[trigger] a[i]),
    decreases n,
{
    if n > 0 {
        lemma_items_well_keyed(a, n - 1);
    }
}

proof fn lemma_key_index(m: Seq<(Seq<char>, JsonV)>, key: Seq<char>)
    ensures
        match key_index(m, key) {
            Some(i) => 0 <= i < m.len() && m[i].0 == key,
            None => forall|k: int| 0 <= k < m.len() ==> #[trigger] m[k].0 != key,
        },
    decreases m.len(),
{
    if m.len() > 0 {
        lemma_key_index(m.drop_first(), key);
        assert forall|k: int| 0 < k < m.len() implies #[trigger] m[k] == m.drop_first()[k - 1] by {}
    }
}

proof fn lemma_slot_index(m: Seq<(Seq<char>, JsonV)>, slots: Seq<(int, int)>, key: Seq<char>)
    ensures
        match slot_index(m, slots, key) {
            Some(i) => 0 <= i < slots.len() && 0 <= slots[i].0 < m.len() && m[slots[i].0].0 == key,
            None => true,
        },
    decreases slots.len(),
{
    if slots.len() > 0 {
        lemma_slot_index(m, slots.drop_first(), key);
    }
}

/// Each sanitized member comes from a slot: its key, and the sanitized value of the slot's value.
proof fn lemma_sanitized_slots_shape(m: Seq<(Seq<char>, JsonV)>, slots: Seq<(int, int)>, n: int, s: bool)
    ensures
        forall|i: int| 0 <= i < sanitized_slots(m, slots, n, s).len() ==> exists|j: int| {
            &&& 0 <= j < slots.len()
            &&& 0 <= slots[j].0 < m.len()
            &&& 0 <= slots[j].1 < m.len()
            &&& (#[trigger] sanitized_slots(m, slots, n, s)[i]).0 == m[slots[j].0].0
            &&& sanitized_entry(m[slots[j].0].0, m[slots[j].1].1, s) == Some(sanitized_slots(m, slots, n, s)[i].1)
        },
    decreases n,
{
    if !(n <= 0 || n > slots.len()) {
        lemma_sanitized_slots_shape(m, slots, n - 1, s);
        let r = sanitized_slots(m, slots, n, s);
        let p = sanitized_slots(m, slots, n - 1, s);
        assert forall|i: int| 0 <= i < r.len() implies exists|j: int| {
            &&& 0 <= j < slots.len()
            &&& 0 <= slots[j].0 < m.len()
            &&& 0 <= slots[j].1 < m.len()
            &&& (#[trigger] r[i]).0 == m[slots[j].0].0
            &&& sanitized_entry(m[slots[j].0].0, m[slots[j].1].1, s) == Some(r[i].1)
        } by {
            if i < p.len() {
                assert(r[i] == p[i]);
                let j = choose|j: int| {
                    &&& 0 <= j < slots.len()
                    &&& 0 <= slots[j].0 < m.len()
                    &&& 0 <= slots[j].1 < m.len()
                    &&& (#[trigger] p[i]).0 == m[slots[j].0].0
                    &&& sanitized_entry(m[slots[j].0].0, m[slots[j].1].1, s) == Some(p[i].1)
                };
                assert(r[i].0 == m[slots[j].0].0);
            } else {
                let j = n - 1;
                assert(0 <= slots[j].0 < m.len() && 0 <= slots[j].1 < m.len());
                assert(r[i].0 == m[slots[j].0].0);
            }
        }
    }
}

proof fn lemma_identity_slots_fixed(m: Seq<(Seq<char>, JsonV)>, n: int, s: bool)
    requires
        0 <= n <= m.len(),
        forall|i: int| 0 <= i < m.len() ==> sanitized_entry(#[trigger] m[i].0, m[i].1, s) == Some(m[i].1),
    ensures
        sanitized_slots(m, identity_slots(m.len()), n, s) == m.take(n),
    decreases n,
{
    if n > 0 {
        lemma_identity_slots_fixed(m, n - 1, s);
        assert(identity_slots(m.len())[n - 1] == (n - 1, n - 1));
        assert(m.take(n) =~= m.take(n - 1).push(m[n - 1]));
    } else {
        assert(m.take(0) =~= Seq::<(Seq<char>, JsonV)>::empty());
    }
}

proof fn lemma_sanitized_items(a: Seq<JsonV>, n: int, s: bool)
    requires
        0 <= n <= a.len(),
    ensures
        sanitized_items(a, n, s).len() == n,
        forall|i: int| 0 <= i < n ==> #[trigger] sanitized_items(a, n, s)[i] == sanitized(a[i], s),
    decreases n,
{
    if n > 0 {
        lemma_sanitized_items(a, n - 1, s);
    }
}

proof fn lemma_sanitized_values(m: Seq<(Seq<char>, JsonV)>, n: int, s: bool)
    requires
        0 <= n <= m.len(),
    ensures
        sanitized_values(m, n, s).len() == n,
        forall|i: int| 0 <= i < n ==> #[trigger] sanitized_values(m, n, s)[i] == (m[i].0, sanitized(m[i].1, s)),
    decreases n,
{
    if n > 0 {
        lemma_sanitized_values(m, n - 1, s);
    }
}

proof fn lemma_filter_all(s: Seq<JsonV>)
    requires
        forall|i: int| 0 <= i < s.len() ==> keeps_type_item(#[trigger] s[i]),
    ensures
        s.filter(|i: JsonV| keeps_type_item(i)) == s,
    decreases s.len(),
{
    reveal_with_fuel(Seq::filter, 1);
    if s.len() > 0 {
        lemma_filter_all(s.drop_last());
        assert(s.drop_last().push(s.last()) =~= s);
    }
}

proof fn lemma_normalized_type_fixed(v: JsonV)
    ensures
        match normalized_type(v) {
            Some(x) => normalized_type(x) == Some(x),
            None => true,
        },
{
    if let JsonV::Array(items) = v {
        let kept = items.filter(|i: JsonV| keeps_type_item(i));
        broadcast use vstd::seq_lib::group_filter_ensures;
        lemma_filter_all(kept);
    }
}

proof fn lemma_security_fixed(v: JsonV)
    ensures
        sanitized_security(sanitized_security(v)) == sanitized_security(v),
{
    if let JsonV::Array(reqs) = v {
        let once = reqs.map_values(|r: JsonV| fixed_scopes(r));
        assert forall|i: int| 0 <= i < once.len() implies #[trigger] fixed_scopes(once[i]) == once[i] by {
            if let JsonV::Object(m) = reqs[i] {
                let f = |e: (Seq<char>, JsonV)| if e.1 is Null { (e.0, JsonV::Array(seq![])) } else { e };
                assert(m.map_values(f).map_values(f) =~= m.map_values(f));
            }
        }
        assert(once.map_values(|r: JsonV| fixed_scopes(r)) =~= once);
    }
}

proof fn lemma_url_field_fixed(v: JsonV)
    requires
        well_keyed(v),
    ensures
        sanitized_url_field(sanitized_url_field(v)) == sanitized_url_field(v),
{
    if let JsonV::Object(m) = v {
        lemma_key_index(m, "url"@);
        if let Some(i) = key_index(m, "url"@) {
            if let JsonV::Str(s) = m[i].1 {
                if !parses_as_absolute_url(s) {
                    let m2 = swap_removed(m, i);
                    assert forall|k: int| 0 <= k < m2.len() implies #[trigger] m2[k].0 != "url"@ by {
                        if k == i {
                            assert(m2[k] == m[m.len() - 1]);
                        } else {
                            assert(m2[k] == m[k]);
                        }
                    }
                    lemma_key_index(m2, "url"@);
                }
            }
        }
    }
}

/// A sanitized value is left as it is by another pass.
proof fn lemma_sanitized_fixed(v: JsonV, s: bool)
    requires
        well_keyed(v),
    ensures
        sanitized(sanitized(v, s), s) == sanitized(v, s),
    decreases v, 2int,
{
    match v {
        JsonV::Object(m) => {
            lemma_members_well_keyed(m, m.len() as int);
            let slots = object_slots(m, s);
            let m1 = sanitized_members(m, s);
            assert(m1 == sanitized_slots(m, slots, slots.len() as int, s));
            lemma_sanitized_slots_shape(m, slots, slots.len() as int, s);
            assert forall|i: int| 0 <= i < m1.len() implies sanitized_entry(#[trigger] m1[i].0, m1[i].1, s) == Some(m1[i].1) by {
                let r = sanitized_slots(m, slots, slots.len() as int, s);
                assert(r[i] == m1[i]);
                let j = choose|j: int| {
                    &&& 0 <= j < slots.len()
                    &&& 0 <= slots[j].0 < m.len()
                    &&& 0 <= slots[j].1 < m.len()
                    &&& (#[trigger] r[i]).0 == m[slots[j].0].0
                    &&& sanitized_entry(m[slots[j].0].0, m[slots[j].1].1, s) == Some(r[i].1)
                };
                let idx = slots[j].1;
                assert(well_keyed(m[idx].1));
                assert(decreases_to!(v => m));
                assert(decreases_to!(m => m[idx]));
                assert(decreases_to!(m[idx] => m[idx].1));
                lemma_entry_fixed(m[slots[j].0].0, m[idx].1, s);
            }
            if s {
                lemma_bounds_already_normal(m1, "exclusiveMinimum"@, "minimum"@);
                lemma_bounds_already_normal(m1, "exclusiveMaximum"@, "maximum"@);
            }
            assert(object_slots(m1, s) == identity_slots(m1.len()));
            lemma_identity_slots_fixed(m1, m1.len() as int, s);
            assert(m1.take(m1.len() as int) =~= m1);
        },
        JsonV::Array(a) => {
            lemma_items_well_keyed(a, a.len() as int);
            let a1 = sanitized_items(a, a.len() as int, s);
            lemma_sanitized_items(a, a.len() as int, s);
            lemma_sanitized_items(a1, a1.len() as int, s);
            assert forall|i: int| 0 <= i < a1.len() implies #[trigger] sanitized(a1[i], s) == a1[i] by {
                assert(decreases_to!(v => a));
                assert(decreases_to!(a => a[i]));
                lemma_sanitized_fixed(a[i], s);
            }
            assert(sanitized_items(a1, a1.len() as int, s) =~= a1);
        },
        _ => {},
    }
}

/// In sanitized schema members, no exclusive bound is a boolean, so bound normalization leaves
/// them as they are.
proof fn lemma_bounds_already_normal(m: Seq<(Seq<char>, JsonV)>, excl: Seq<char>, bound: Seq<char>)
    requires
        is_exclusive_key(excl),
        forall|i: int| 0 <= i < m.len() ==> sanitized_entry(#[trigger] m[i].0, m[i].1, true) == Some(m[i].1),
    ensures
        normalize_bound_pair(m, identity_slots(m.len()), excl, bound) == identity_slots(m.len()),
{
    let id = identity_slots(m.len());
    lemma_slot_index(m, id, excl);
    if let Some(ie) = slot_index(m, id, excl) {
        assert(id[ie] == (ie, ie));
        reveal_strlit("exclusiveMinimum");
        reveal_strlit("exclusiveMaximum");
        reveal_strlit("example");
        reveal_strlit("examples");
        reveal_strlit("default");
        reveal_strlit("type");
        reveal_strlit("required");
        assert(m[ie].0 == excl);
        assert(excl != "example"@ && excl != "examples"@ && excl != "default"@);
        assert(excl != "type"@ && excl != "required"@);
        assert(sanitized_entry(m[ie].0, m[ie].1, true) == Some(m[ie].1));
        assert(!is_bool(m[ie].1));
    }
}

proof fn lemma_map_values_fixed(v: JsonV)
    requires
        well_keyed(v),
    ensures
        sanitized_map_values(sanitized_map_values(v, true), true) == sanitized_map_values(v, true),
    decreases v, 1int,
{
    if let JsonV::Object(m) = v {
        lemma_members_well_keyed(m, m.len() as int);
        let m1 = sanitized_values(m, m.len() as int, true);
        lemma_sanitized_values(m, m.len() as int, true);
        lemma_sanitized_values(m1, m1.len() as int, true);
        assert forall|i: int| 0 <= i < m1.len() implies #[trigger] sanitized(m1[i].1, true) == m1[i].1 by {
            assert(well_keyed(m[i].1));
            assert(decreases_to!(v => m));
            assert(decreases_to!(m => m[i]));
            assert(decreases_to!(m[i] => m[i].1));
            lemma_sanitized_fixed(m[i].1, true);
        }
        assert(sanitized_values(m1, m1.len() as int, true) =~= m1);
    }
}

proof fn lemma_array_items_fixed(v: JsonV)
    requires
        well_keyed(v),
    ensures
        sanitized_array_items(sanitized_array_items(v, true), true) == sanitized_array_items(v, true),
    decreases v, 1int,
{
    if let JsonV::Array(a) = v {
        lemma_items_well_keyed(a, a.len() as int);
        let a1 = sanitized_items(a, a.len() as int, true);
        lemma_sanitized_items(a, a.len() as int, true);
        lemma_sanitized_items(a1, a1.len() as int, true);
        assert forall|i: int| 0 <= i < a1.len() implies #[trigger] sanitized(a1[i], true) == a1[i] by {
            assert(well_keyed(a[i]));
            assert(decreases_to!(v => a));
            assert(decreases_to!(a => a[i]));
            lemma_sanitized_fixed(a[i], true);
        }
        assert(sanitized_items(a1, a1.len() as int, true) =~= a1);
    }
}

proof fn lemma_entry_fixed(k: Seq<char>, v: JsonV, s: bool)
    requires
        well_keyed(v),
    ensures
        match sanitized_entry(k, v, s) {
            Some(x) => sanitized_entry(k, x, s) == Some(x),
            None => true,
        },
    decreases v, 3int,
{
    if k == "example"@ || k == "examples"@ || k == "default"@ {
    } else if k == "type"@ {
        lemma_normalized_type_fixed(v);
    } else if k == "required"@ && s {
        if !is_bool(v) {
            lemma_sanitized_fixed(v, false);
            assert(!is_bool(sanitized(v, false)));
        }
    } else if is_exclusive_key(k) && s {
    } else if k == "schema"@ {
        lemma_sanitized_fixed(v, true);
    } else if k == "schemas"@ {
        lemma_map_values_fixed(v);
    } else if (k == "items"@ || k == "additionalProperties"@ || k == "not"@) && s {
        lemma_sanitized_fixed(v, true);
    } else if k == "properties"@ && s {
        lemma_map_values_fixed(v);
    } else if (k == "allOf"@ || k == "anyOf"@ || k == "oneOf"@ || k == "prefixItems"@) && s {
        lemma_array_items_fixed(v);
    } else if k == "description"@ {
    } else if k == "security"@ {
        lemma_security_fixed(v);
    } else if k == "externalDocs"@ {
    } else if k == "license"@ || k == "contact"@ {
        lemma_url_field_fixed(v);
    } else if k == "termsOfService"@ || k == "authorizationUrl"@ || k == "tokenUrl"@
        || k == "refreshUrl"@ {
    } else {
        lemma_sanitized_fixed(v, s);
    }
}

/// The keys whose values sanitizing copies as they are.
pub open spec fn is_verbatim_key(k: Seq<char>) -> bool {
    k == "example"@ || k == "examples"@ || k == "default"@
}

proof fn lemma_swap_removed_contains<A>(s: Seq<A>, i: int, p: int)
    requires
        0 <= i < s.len(),
        0 <= p < s.len(),
        p != i,
    ensures
        swap_removed(s, i).contains(s[p]),
{
    let r = swap_removed(s, i);
    if p == s.len() - 1 {
        assert(r[i] == s[p]);
    } else {
        assert(r[p] == s[p]);
    }
}

/// A slot whose key is neither bound key is kept by the normalization of that bound pair.
proof fn lemma_bound_pair_keeps_slot(
    m: Seq<(Seq<char>, JsonV)>,
    slots: Seq<(int, int)>,
    excl: Seq<char>,
    bound: Seq<char>,
    x: (int, int),
)
    requires
        slots.contains(x),
        0 <= x.0 < m.len(),
        m[x.0].0 != excl,
        m[x.0].0 != bound,
    ensures
        normalize_bound_pair(m, slots, excl, bound).contains(x),
{
    let p = choose|p: int| 0 <= p < slots.len() && slots[p] == x;
    lemma_slot_index(m, slots, excl);
    lemma_slot_index(m, slots, bound);
    if let Some(ie) = slot_index(m, slots, excl) {
        if slot_value(m, slots[ie]) == JsonV::Bool(true) {
            if let Some(ib) = slot_index(m, slots, bound) {
                let rest = swap_removed(slots, ib);
                lemma_swap_removed_contains(slots, ib, p);
                let q = choose|q: int| 0 <= q < rest.len() && rest[q] == x;
                lemma_slot_index(m, rest, excl);
                if let Some(j) = slot_index(m, rest, excl) {
                    let r = rest.update(j, (rest[j].0, slots[ib].1));
                    assert(q != j);
                    assert(r[q] == x);
                }
            }
        } else if slot_value(m, slots[ie]) == JsonV::Bool(false) {
            lemma_swap_removed_contains(slots, ie, p);
        }
    }
}

/// A slot whose entry survives sanitizing gives its member to the sanitized members.
proof fn lemma_sanitized_slots_contains(
    m: Seq<(Seq<char>, JsonV)>,
    slots: Seq<(int, int)>,
    n: int,
    s: bool,
    p: int,
    v: JsonV,
)
    requires
        0 <= p < n <= slots.len(),
        0 <= slots[p].0 < m.len(),
        0 <= slots[p].1 < m.len(),
        sanitized_entry(m[slots[p].0].0, m[slots[p].1].1, s) == Some(v),
    ensures
        sanitized_slots(m, slots, n, s).contains((m[slots[p].0].0, v)),
    decreases n,
{
    let r = sanitized_slots(m, slots, n, s);
    let prefix = sanitized_slots(m, slots, n - 1, s);
    if p == n - 1 {
        assert(r.last() == (m[slots[p].0].0, v));
    } else {
        lemma_sanitized_slots_contains(m, slots, n - 1, s, p, v);
        let q = choose|q: int| 0 <= q < prefix.len() && prefix[q] == (m[slots[p].0].0, v);
        let x = slots[n - 1];
        if 0 <= x.0 < m.len() && 0 <= x.1 < m.len() {
            if let Some(y) = sanitized_entry(m[x.0].0, m[x.1].1, s) {
                assert(r[q] == prefix[q]);
            }
        }
    }
}

/// Sanitizing copies `example`, `examples` and `default` as they are, inside a schema or
/// outside: each such member of an object is a member of the sanitized object.
pub proof fn lemma_sanitize_keeps_examples(m: Seq<(Seq<char>, JsonV)>, in_schema: bool, i: int)
    requires
        0 <= i < m.len(),
        is_verbatim_key(m[i].0),
    ensures
        sanitized(JsonV::Object(m), in_schema) == JsonV::Object(sanitized_members(m, in_schema)),
        sanitized_members(m, in_schema).contains(m[i]),
{
    reveal_strlit("example");
    reveal_strlit("examples");
    reveal_strlit("default");
    reveal_strlit("exclusiveMinimum");
    reveal_strlit("exclusiveMaximum");
    reveal_strlit("minimum");
    reveal_strlit("maximum");
    let k = m[i].0;
    assert(k.len() <= 8);
    assert("exclusiveMinimum"@.len() == 16 && "exclusiveMaximum"@.len() == 16);
    assert(k != "exclusiveMinimum"@ && k != "exclusiveMaximum"@);
    assert(k != "minimum"@) by {
        if k == "minimum"@ {
            assert(k[0] == 'm');
        }
    }
    assert(k != "maximum"@) by {
        if k == "maximum"@ {
            assert(k[0] == 'm');
        }
    }
    let id = identity_slots(m.len());
    assert(id[i] == (i, i));
    assert(id.contains((i, i)));
    let slots = object_slots(m, in_schema);
    if in_schema {
        let first = normalize_bound_pair(m, id, "exclusiveMinimum"@, "minimum"@);
        lemma_bound_pair_keeps_slot(m, id, "exclusiveMinimum"@, "minimum"@, (i, i));
        lemma_bound_pair_keeps_slot(m, first, "exclusiveMaximum"@, "maximum"@, (i, i));
    }
    assert(slots.contains((i, i)));
    let p = choose|p: int| 0 <= p < slots.len() && slots[p] == (i, i);
    assert(sanitized_entry(m[i].0, m[i].1, in_schema) == Some(m[i].1));
    lemma_sanitized_slots_contains(m, slots, slots.len() as int, in_schema, p, m[i].1);
}

/// The slots name distinct members of `m` for their keys.
pub open spec fn distinct_key_slots(slots: Seq<(int, int)>, n: int) -> bool {
    &&& forall|a: int| 0 <= a < slots.len() ==> 0 <= #[trigger] slots[a].0 < n
    &&& forall|a: int, b: int| 0 <= a < b < slots.len() ==> #[trigger] slots[a].0 != #[trigger] slots[b].0
}

proof fn lemma_swap_removed_distinct(slots: Seq<(int, int)>, i: int, n: int)
    requires
        0 <= i < slots.len(),
        distinct_key_slots(slots, n),
    ensures
        distinct_key_slots(swap_removed(slots, i), n),
{
    let r = swap_removed(slots, i);
    let last = slots.len() - 1;
    assert forall|a: int| 0 <= a < r.len() implies 0 <= #[trigger] r[a].0 < n by {
        if a == i {
            assert(r[a] == slots[last]);
        } else {
            assert(r[a] == slots[a]);
        }
    }
    assert forall|a: int, b: int| 0 <= a < b < r.len() implies #[trigger] r[a].0 != #[trigger] r[b].0 by {
        let sa = if a == i { last } else { a };
        let sb = if b == i { last } else { b };
        assert(r[a] == slots[sa]);
        assert(r[b] == slots[sb]);
        assert(sa != sb);
    }
}

proof fn lemma_bound_pair_distinct(m: Seq<(Seq<char>, JsonV)>, slots: Seq<(int, int)>, excl: Seq<char>, bound: Seq<char>)
    requires
        distinct_key_slots(slots, m.len() as int),
    ensures
        distinct_key_slots(normalize_bound_pair(m, slots, excl, bound), m.len() as int),
{
    lemma_slot_index(m, slots, excl);
    lemma_slot_index(m, slots, bound);
    if let Some(ie) = slot_index(m, slots, excl) {
        if slot_value(m, slots[ie]) == JsonV::Bool(true) {
            if let Some(ib) = slot_index(m, slots, bound) {
                let rest = swap_removed(slots, ib);
                lemma_swap_removed_distinct(slots, ib, m.len() as int);
                lemma_slot_index(m, rest, excl);
                if let Some(j) = slot_index(m, rest, excl) {
                    let r = rest.update(j, (rest[j].0, slots[ib].1));
                    assert forall|a: int| 0 <= a < r.len() implies 0 <= #[trigger] r[a].0 < m.len() by {
                        assert(r[a].0 == rest[a].0);
                    }
                    assert forall|a: int, b: int| 0 <= a < b < r.len() implies #[trigger] r[a].0 != #[trigger] r[b].0 by {
                        assert(r[a].0 == rest[a].0 && r[b].0 == rest[b].0);
                    }
                }
            }
        } else if slot_value(m, slots[ie]) == JsonV::Bool(false) {
            lemma_swap_removed_distinct(slots, ie, m.len() as int);
        }
    }
}

proof fn lemma_object_slots_distinct(m: Seq<(Seq<char>, JsonV)>, s: bool)
    ensures
        distinct_key_slots(object_slots(m, s), m.len() as int),
{
    let id = identity_slots(m.len());
    assert(distinct_key_slots(id, m.len() as int));
    if s {
        lemma_bound_pair_distinct(m, id, "exclusiveMinimum"@, "minimum"@);
        lemma_bound_pair_distinct(
            m,
            normalize_bound_pair(m, id, "exclusiveMinimum"@, "minimum"@),
            "exclusiveMaximum"@,
            "maximum"@,
        );
    }
}

/// Each sanitized member of the first `n` slots takes its key from one of those slots.
proof fn lemma_sanitized_slots_keys(m: Seq<(Seq<char>, JsonV)>, slots: Seq<(int, int)>, n: int, s: bool)
    requires
        0 <= n <= slots.len(),
        distinct_key_slots(slots, m.len() as int),
        unique_keys(m),
    ensures
        unique_keys(sanitized_slots(m, slots, n, s)),
        forall|q: int| 0 <= q < sanitized_slots(m, slots, n, s).len() ==> exists|j: int|
            0 <= j < n && (#[trigger] sanitized_slots(m, slots, n, s)[q]).0 == m[slots[j].0].0,
    decreases n,
{
    if n > 0 {
        lemma_sanitized_slots_keys(m, slots, n - 1, s);
        let r = sanitized_slots(m, slots, n, s);
        let p = sanitized_slots(m, slots, n - 1, s);
        let x = slots[n - 1];
        assert forall|q: int| 0 <= q < r.len() implies exists|j: int|
            0 <= j < n && (#[trigger] r[q]).0 == m[slots[j].0].0 by {
            if q < p.len() {
                assert(r[q] == p[q]);
                let j = choose|j: int| 0 <= j < n - 1 && (#[trigger] p[q]).0 == m[slots[j].0].0;
            } else {
                assert(r[q].0 == m[x.0].0);
            }
        }
        if r.len() > p.len() {
            assert forall|a: int, b: int| 0 <= a < b < r.len() implies #[trigger] r[a].0 != #[trigger] r[b].0 by {
                if b < p.len() {
                    assert(r[a] == p[a] && r[b] == p[b]);
                } else {
                    assert(r[a] == p[a]);
                    let j = choose|j: int| 0 <= j < n - 1 && (#[trigger] p[a]).0 == m[slots[j].0].0;
                    assert(slots[j].0 != slots[n - 1].0);
                    assert(r[b].0 == m[x.0].0);
                }
            }
        } else {
            assert(r == p);
        }
    }
}

proof fn lemma_get_member_unique(r: Seq<(Seq<char>, JsonV)>, k: Seq<char>, v: JsonV)
    requires
        unique_keys(r),
        r.contains((k, v)),
    ensures
        get_member(r, k) == Some(v),
    decreases r.len(),
{
    let q = choose|q: int| 0 <= q < r.len() && r[q] == (k, v);
    if q > 0 {
        assert(r[0].0 != r[q].0);
        let t = r.drop_first();
        assert(t[q - 1] == (k, v));
        assert(unique_keys(t)) by {
            assert forall|a: int, b: int| 0 <= a < b < t.len() implies #[trigger] t[a].0 != #[trigger] t[b].0 by {
                assert(t[a] == r[a + 1] && t[b] == r[b + 1]);
            }
        }
        lemma_get_member_unique(t, k, v);
    }
}

/// Looking up `example`, `examples` or `default` in a sanitized object gives the value of the
/// original object: sanitizing keeps such members as they are, and keeps keys distinct.
pub proof fn lemma_sanitize_example_lookup(m: Seq<(Seq<char>, JsonV)>, in_schema: bool, k: Seq<char>)
    requires
        unique_keys(m),
        is_verbatim_key(k),
    ensures
        unique_keys(sanitized_members(m, in_schema)),
        get_member(sanitized_members(m, in_schema), k) == get_member(m, k),
{
    let slots = object_slots(m, in_schema);
    lemma_object_slots_distinct(m, in_schema);
    lemma_sanitized_slots_keys(m, slots, slots.len() as int, in_schema);
    let r = sanitized_members(m, in_schema);
    lemma_key_index(m, k);
    match key_index(m, k) {
        Some(i) => {
            lemma_sanitize_keeps_examples(m, in_schema, i);
            lemma_get_member_unique(r, k, m[i].1);
            lemma_get_member_unique(m, k, m[i].1);
            assert(m.contains((k, m[i].1))) by {
                assert(m[i] == (k, m[i].1));
            }
        },
        None => {
            lemma_get_member_absent(m, k);
            assert forall|q: int| 0 <= q < r.len() implies #[trigger] r[q].0 != k by {
                let j = choose|j: int| 0 <= j < slots.len() && (#[trigger] r[q]).0 == m[slots[j].0].0;
            }
            lemma_get_member_absent(r, k);
        },
    }
}

proof fn lemma_get_member_absent(r: Seq<(Seq<char>, JsonV)>, k: Seq<char>)
    requires
        forall|q: int| 0 <= q < r.len() ==> #[trigger] r[q].0 != k,
    ensures
        get_member(r, k) is None,
    decreases r.len(),
{
    if r.len() > 0 {
        let t = r.drop_first();
        assert(r[0].0 != k);
        assert forall|q: int| 0 <= q < t.len() implies #[trigger] t[q].0 != k by {
            assert(t[q] == r[q + 1]);
        }
        lemma_get_member_absent(t, k);
    }
}

/// Under `contact` and `license`, sanitizing keeps the object, removes a `url` member whose
/// value is a string that is not an absolute URL, and keeps every other member; no member
/// with such a `url` is left.
pub proof fn lemma_sanitize_drops_relative_contact_url(k: Seq<char>, m: Seq<(Seq<char>, JsonV)>, in_schema: bool)
    requires
        k == "contact"@ || k == "license"@,
        unique_keys(m),
    ensures
        sanitized_entry(k, JsonV::Object(m), in_schema) matches Some(JsonV::Object(m2)) && {
            &&& forall|q: int| 0 <= q < m2.len() && (#[trigger] m2[q]).0 == "url"@
                ==> !(m2[q].1 matches JsonV::Str(u) && !parses_as_absolute_url(u))
            &&& forall|i: int| 0 <= i < m.len() && (#[trigger] m[i]).0 != "url"@ ==> m2.contains(m[i])
            &&& forall|i: int| 0 <= i < m.len() && (#[trigger] m[i]).0 == "url"@
                && !(m[i].1 matches JsonV::Str(u) && !parses_as_absolute_url(u)) ==> m2.contains(m[i])
        },
{
    reveal_strlit("contact");
    reveal_strlit("license");
    reveal_strlit("example");
    reveal_strlit("examples");
    reveal_strlit("default");
    reveal_strlit("type");
    reveal_strlit("required");
    reveal_strlit("exclusiveMinimum");
    reveal_strlit("exclusiveMaximum");
    reveal_strlit("schema");
    reveal_strlit("schemas");
    reveal_strlit("items");
    reveal_strlit("additionalProperties");
    reveal_strlit("not");
    reveal_strlit("properties");
    reveal_strlit("allOf");
    reveal_strlit("anyOf");
    reveal_strlit("oneOf");
    reveal_strlit("prefixItems");
    reveal_strlit("description");
    reveal_strlit("security");
    reveal_strlit("externalDocs");
    reveal_strlit("url");
    assert(k[0] == 'c' || k[0] == 'l');
    assert(k.len() == 7);
    assert(sanitized_entry(k, JsonV::Object(m), in_schema) == Some(sanitized_url_field(JsonV::Object(m)))) by {
        assert(k != "example"@) by { assert("example"@[0] == 'e'); }
        assert(k != "default"@) by { assert("default"@[0] == 'd'); }
        assert(k != "schemas"@) by { assert("schemas"@[0] == 's'); }
        assert(k != "examples"@ && k != "type"@ && k != "required"@ && !is_exclusive_key(k) && k != "schema"@);
        assert(k != "items"@ && k != "additionalProperties"@ && k != "not"@ && k != "properties"@);
        assert(k != "allOf"@ && k != "anyOf"@ && k != "oneOf"@ && k != "prefixItems"@);
        assert(k != "description"@ && k != "security"@ && k != "externalDocs"@);
    }
    lemma_key_index(m, "url"@);
    match key_index(m, "url"@) {
        Some(i) => {
            if m[i].1 matches JsonV::Str(u) && !parses_as_absolute_url(u) {
                let m2 = swap_removed(m, i);
                assert forall|q: int| 0 <= q < m2.len() implies (#[trigger] m2[q]).0 != "url"@ by {
                    if q == i {
                        assert(m2[q] == m[m.len() - 1]);
                    } else {
                        assert(m2[q] == m[q]);
                    }
                }
                assert forall|j: int| 0 <= j < m.len() && (#[trigger] m[j]).0 != "url"@ implies m2.contains(m[j]) by {
                    lemma_swap_removed_contains(m, i, j);
                }
                assert forall|j: int| 0 <= j < m.len() && (#[trigger] m[j]).0 == "url"@
                    && !(m[j].1 matches JsonV::Str(u) && !parses_as_absolute_url(u)) implies m2.contains(m[j]) by {
                    assert(j == i);
                }
            } else {
                assert forall|j: int| 0 <= j < m.len() implies m.contains(#[trigger] m[j]) by {}
            }
        },
        None => {
            assert forall|j: int| 0 <= j < m.len() implies m.contains(#[trigger] m[j]) by {}
        },
    }
}

/// Sanitizing twice is sanitizing once, inside a schema or outside: another pass leaves a
/// sanitized document as it is. Stated for documents whose objects have distinct keys, which
/// is every document a JSON map can hold.
pub proof fn lemma_sanitize_idempotent(v: JsonV, in_schema: bool)
    requires
        well_keyed(v),
    ensures
        sanitized(sanitized(v, in_schema), in_schema) == sanitized(v, in_schema),
{
    lemma_sanitized_fixed(v, in_schema);
}

} // verus!
