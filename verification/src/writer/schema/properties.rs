//! The `jsonc` lines of object properties and array items, expanded recursively.
//!
//! A referenced schema is linked rather than expanded when it is shared by several endpoints
//! or when it is already being expanded further up (a cycle).

use vstd::prelude::*;
use vstd::string::*;
use crate::model::{ObjectSchema, Schema, Spec};
use crate::text::{contains_string, push_char, views};
use crate::writer::refs::{
    ref_display_name, ref_display_name_spec, resolve_schema, resolve_spec, schema_doc_link,
    schema_doc_link_spec, schema_ref_name, schema_ref_name_spec,
};
use crate::writer::schema::composition::{
    merge_all_of_in, merged_spec, merged_view, push_name, Merged, MergedView, MAX_MERGE_DEPTH,
};
use crate::writer::schema::types::{
    primitive_example_spec, primitive_example_with, primitive_type_name,
    primitive_type_name_spec, type_comment_spec, type_comment_with,
};
use crate::writer::types::{is_array_or_nullable_array, is_array_or_nullable_array_spec};

verus! {

/// How deep properties and items may nest in one rendering: `usize::MAX` levels. Every level
/// is a nested call, and a call takes at least a return address on the stack, so no thread
/// can hold this many: a rendering that nests this deep (only a schema that refers to itself
/// through a `$ref` the name tracking cannot see, one with a document part) runs out of stack
/// first, as the unbounded recursion of a plain renderer does. The bound is what lets the
/// rendering be proved to end.
pub const MAX_DEPTH: usize = usize::MAX;

/// The nesting levels left below `depth`.
pub open spec fn room(depth: nat) -> nat {
    if depth < MAX_DEPTH {
        (MAX_DEPTH - depth) as nat
    } else {
        0
    }
}

/// Two spaces per level.
pub open spec fn indent_spec(depth: nat) -> Seq<char> {
    Seq::new(2 * depth, |i: int| ' ')
}

pub fn indent(depth: usize) -> (r: String)
    ensures
        r@ == indent_spec(depth as nat),
{
    let mut r = String::new();
    let mut i: usize = 0;
    while i < depth
        invariant
            i <= depth,
            r@ == indent_spec(i as nat),
        decreases depth - i,
    {
        push_char(&mut r, ' ');
        push_char(&mut r, ' ');
        assert(r@ =~= indent_spec((i + 1) as nat));
        i += 1;
    }
    r
}

pub open spec fn requirement_label(is_required: bool) -> Seq<char> {
    if is_required {
        "required"@
    } else {
        "optional"@
    }
}

fn requirement_label_exec(is_required: bool) -> (r: &'static str)
    ensures
        r@ == requirement_label(is_required),
{
    if is_required {
        "required"
    } else {
        "optional"
    }
}

pub open spec fn bool_text(b: bool) -> Seq<char> {
    if b {
        "true"@
    } else {
        "false"@
    }
}

fn bool_text_exec(b: bool) -> (r: &'static str)
    ensures
        r@ == bool_text(b),
{
    if b {
        "true"
    } else {
        "false"
    }
}

/// The body shown for a `$ref` that the document does not define, naming what it points at.
pub open spec fn placeholder_spec(ref_path: Seq<char>) -> Seq<char> {
    "{ /* "@ + ref_display_name_spec(ref_path) + " (not defined in this spec) */ }"@
}

fn undefined_ref_placeholder(ref_path: &str) -> (r: String)
    ensures
        r@ == placeholder_spec(ref_path@),
{
    let mut r = String::from_str("{ /* ");
    let n = ref_display_name(ref_path);
    r.append(n.as_str());
    r.append(" (not defined in this spec) */ }");
    r
}

/// The body shown for a linked schema: a comment with a link to its file.
pub open spec fn link_body(name: Seq<char>) -> Seq<char> {
    "{ /* ["@ + name + "]("@ + schema_doc_link_spec(name) + ") */ }"@
}

fn link_body_exec(name: &str) -> (r: String)
    ensures
        r@ == link_body(name@),
{
    let mut r = String::from_str("{ /* [");
    r.append(name);
    r.append("](");
    let l = schema_doc_link(name);
    r.append(l.as_str());
    r.append(") */ }");
    r
}

/// The indented `"name": ` that starts a property line.
pub open spec fn key_prefix(depth: nat, name: Seq<char>) -> Seq<char> {
    indent_spec(depth) + "\""@ + name + "\": "@
}

fn key_prefix_exec(depth: usize, name: &str) -> (r: String)
    ensures
        r@ == key_prefix(depth as nat, name@),
{
    let mut r = indent(depth);
    r.append("\"");
    r.append(name);
    r.append("\": ");
    r
}

/// The schema name to link to instead of expanding: a shared schema or one being expanded.
pub open spec fn linked_ref_name_spec(schema: Schema, multi: Set<Seq<char>>, visiting: Seq<Seq<char>>) -> Option<Seq<char>> {
    match schema_ref_name_spec(schema) {
        Some(n) => if multi.contains(n) || visiting.contains(n) {
            Some(n)
        } else {
            None
        },
        None => None,
    }
}

fn linked_ref_name(schema: &Schema, multi_use: &Vec<String>, visiting: &Vec<String>) -> (r: Option<String>)
    ensures
        crate::writer::refs::opt_view(r) == linked_ref_name_spec(*schema, views(multi_use@).to_set(), views(visiting@)),
{
    match schema_ref_name(schema) {
        Some(n) => {
            if contains_string(multi_use, n.as_str()) || contains_string(visiting, n.as_str()) {
                Some(n)
            } else {
                None
            }
        },
        None => None,
    }
}

pub open spec fn is_array_merged(m: MergedView) -> bool {
    match m.schema_type {
        Some(ts) => is_array_or_nullable_array_spec(ts),
        None => false,
    }
}

fn is_array(m: &Merged) -> (b: bool)
    ensures
        b == is_array_merged(merged_view(*m)),
{
    match m.schema_type {
        Some(ts) => is_array_or_nullable_array(ts),
        None => false,
    }
}

/// What an array holds, for its comment: the referenced name, the scalar type of an inline
/// item schema, `boolean`, or `any` when it declares no items.
pub open spec fn array_item_type_label_spec(array_obj: ObjectSchema) -> Seq<char> {
    match array_obj.items {
        None => "any"@,
        Some(items) => match *items {
            Schema::Ref(p) => ref_display_name_spec(p@),
            Schema::Object(o) => primitive_type_name_spec(o.schema_type),
            Schema::Boolean(_) => "boolean"@,
        },
    }
}

fn array_item_type_label(array_obj: &ObjectSchema) -> (r: String)
    ensures
        r@ == array_item_type_label_spec(*array_obj),
{
    match &array_obj.items {
        None => String::from_str("any"),
        Some(items) => match &**items {
            Schema::Ref(p) => ref_display_name(p.as_str()),
            Schema::Object(o) => primitive_type_name(o),
            Schema::Boolean(_) => String::from_str("boolean"),
        },
    }
}

/// The line of a property whose schema does not resolve.
pub open spec fn unresolved_property_line(name: Seq<char>, schema: Schema, trail: Seq<char>, depth: nat, req: Seq<char>) -> Seq<char> {
    match schema {
        Schema::Ref(p) => key_prefix(depth, name) + placeholder_spec(p@) + trail + "  // unresolved ref, "@ + req,
        _ => key_prefix(depth, name) + "null"@ + trail + "  // unknown, "@ + req,
    }
}

/// The line of an array item whose schema does not resolve.
pub open spec fn unresolved_item_line(items: Schema, depth: nat) -> Seq<char> {
    match items {
        Schema::Ref(p) => indent_spec(depth) + placeholder_spec(p@),
        _ => indent_spec(depth) + "null"@,
    }
}

/// `,` after every property but the last.
pub open spec fn trail_spec(i: int, n: int) -> Seq<char> {
    if i + 1 == n {
        ""@
    } else {
        ","@
    }
}

/// The lines of a property: a link, a placeholder, or its expansion with its own name being
/// expanded meanwhile.
pub open spec fn property_lines_spec(
    name: Seq<char>,
    schema: Schema,
    is_required: bool,
    trail: Seq<char>,
    depth: nat,
    spec: Spec,
    multi: Set<Seq<char>>,
    visiting: Seq<Seq<char>>,
) -> Seq<Seq<char>>
    decreases room(depth), 4int, 0int,
{
    match linked_ref_name_spec(schema, multi, visiting) {
        Some(n) => seq![
            key_prefix(depth, name) + link_body(n) + trail + "  // object, "@ + requirement_label(is_required),
        ],
        None => resolved_property_lines_spec(
            name,
            schema,
            is_required,
            trail,
            depth,
            spec,
            multi,
            push_name(visiting, schema_ref_name_spec(schema)),
        ),
    }
}

pub open spec fn resolved_property_lines_spec(
    name: Seq<char>,
    schema: Schema,
    is_required: bool,
    trail: Seq<char>,
    depth: nat,
    spec: Spec,
    multi: Set<Seq<char>>,
    visiting: Seq<Seq<char>>,
) -> Seq<Seq<char>>
    decreases room(depth), 3int, 0int,
{
    let req = requirement_label(is_required);
    match resolve_spec(schema, spec) {
        None => seq![unresolved_property_line(name, schema, trail, depth, req)],
        Some(Schema::Boolean(b)) => seq![key_prefix(depth, name) + bool_text(b) + trail + "  // boolean, "@ + req],
        Some(Schema::Object(o)) => object_property_lines_spec(name, *o, is_required, trail, depth, spec, multi, visiting),
        Some(Schema::Ref(p)) => seq![
            key_prefix(depth, name) + placeholder_spec(p@) + trail + "  // unresolved ref, "@ + req,
        ],
    }
}

/// An inline object property: an array with its item, a nested object with its properties,
/// or a single line with an example value and a comment.
pub open spec fn object_property_lines_spec(
    name: Seq<char>,
    obj: ObjectSchema,
    is_required: bool,
    trail: Seq<char>,
    depth: nat,
    spec: Spec,
    multi: Set<Seq<char>>,
    visiting: Seq<Seq<char>>,
) -> Seq<Seq<char>>
    decreases room(depth), 2int, 0int,
{
    let req = requirement_label(is_required);
    let m = merged_spec(obj, spec, visiting, MAX_MERGE_DEPTH as nat);
    if depth >= MAX_DEPTH {
        seq![key_prefix(depth, name) + "null"@ + trail + "  // unknown, "@ + req]
    } else if is_array_merged(m) {
        seq![key_prefix(depth, name) + "[  // array of "@ + array_item_type_label_spec(obj) + ", "@ + req]
            + item_lines_or_null_spec(obj, depth + 1, spec, multi, visiting) + seq![indent_spec(depth) + "]"@ + trail]
    } else if m.properties.len() > 0 {
        seq![key_prefix(depth, name) + "{"@] + properties_lines_spec(
            m.properties,
            m.required,
            depth + 1,
            spec,
            multi,
            visiting,
        ) + seq![indent_spec(depth) + "}"@ + trail]
    } else {
        seq![
            key_prefix(depth, name) + primitive_example_spec(obj, m.schema_type) + trail + "  // "@
                + type_comment_spec(obj, m.schema_type, req),
        ]
    }
}

/// The lines of the first `k` properties, each followed by `,` but the last of all.
pub open spec fn props_lines_upto(
    props: Seq<(Seq<char>, Schema)>,
    required: Seq<Seq<char>>,
    depth: nat,
    k: nat,
    spec: Spec,
    multi: Set<Seq<char>>,
    visiting: Seq<Seq<char>>,
) -> Seq<Seq<char>>
    decreases room(depth), 5int, k,
{
    if k == 0 || k > props.len() {
        seq![]
    } else {
        let i = k - 1;
        props_lines_upto(props, required, depth, (k - 1) as nat, spec, multi, visiting) + property_lines_spec(
            props[i].0,
            props[i].1,
            required.contains(props[i].0),
            trail_spec(i, props.len() as int),
            depth,
            spec,
            multi,
            visiting,
        )
    }
}

pub open spec fn properties_lines_spec(
    props: Seq<(Seq<char>, Schema)>,
    required: Seq<Seq<char>>,
    depth: nat,
    spec: Spec,
    multi: Set<Seq<char>>,
    visiting: Seq<Seq<char>>,
) -> Seq<Seq<char>>
    decreases room(depth), 6int, 0int,
{
    props_lines_upto(props, required, depth, props.len(), spec, multi, visiting)
}

/// The item lines of an array, or `null` when it declares no items.
pub open spec fn item_lines_or_null_spec(
    array_obj: ObjectSchema,
    depth: nat,
    spec: Spec,
    multi: Set<Seq<char>>,
    visiting: Seq<Seq<char>>,
) -> Seq<Seq<char>>
    decreases room(depth), 7int, 0int,
{
    match array_obj.items {
        Some(items) => array_item_lines_spec(*items, depth, spec, multi, visiting),
        None => seq![indent_spec(depth) + "null"@],
    }
}

pub open spec fn array_item_lines_spec(
    items: Schema,
    depth: nat,
    spec: Spec,
    multi: Set<Seq<char>>,
    visiting: Seq<Seq<char>>,
) -> Seq<Seq<char>>
    decreases room(depth), 6int, 0int,
{
    match linked_ref_name_spec(items, multi, visiting) {
        Some(n) => seq![indent_spec(depth) + link_body(n)],
        None => resolved_array_item_lines_spec(
            items,
            depth,
            spec,
            multi,
            push_name(visiting, schema_ref_name_spec(items)),
        ),
    }
}

pub open spec fn resolved_array_item_lines_spec(
    items: Schema,
    depth: nat,
    spec: Spec,
    multi: Set<Seq<char>>,
    visiting: Seq<Seq<char>>,
) -> Seq<Seq<char>>
    decreases room(depth), 5int, 0int,
{
    match resolve_spec(items, spec) {
        None => seq![unresolved_item_line(items, depth)],
        Some(Schema::Boolean(b)) => seq![indent_spec(depth) + bool_text(b)],
        Some(Schema::Object(o)) => {
            let m = merged_spec(*o, spec, visiting, MAX_MERGE_DEPTH as nat);
            if m.properties.len() == 0 {
                seq![indent_spec(depth) + primitive_example_spec(*o, m.schema_type)]
            } else if depth >= MAX_DEPTH {
                seq![indent_spec(depth) + "null"@]
            } else {
                seq![indent_spec(depth) + "{"@] + properties_lines_spec(
                    m.properties,
                    m.required,
                    depth + 1,
                    spec,
                    multi,
                    visiting,
                ) + seq![indent_spec(depth) + "}"@]
            }
        },
        Some(Schema::Ref(p)) => seq![indent_spec(depth) + placeholder_spec(p@)],
    }
}

proof fn lemma_views_append(a: Seq<String>, b: Seq<String>)
    ensures
        views(a + b) == views(a) + views(b),
{
    assert(views(a + b) =~= views(a) + views(b));
}

fn push_line(lines: &mut Vec<String>, line: String)
    ensures
        views(final(lines)@) == views(old(lines)@).push(line@),
{
    lines.push(line);
    assert(views(lines@) =~= views(old(lines)@).push(line@));
}

fn append_lines(lines: &mut Vec<String>, more: Vec<String>)
    ensures
        views(final(lines)@) == views(old(lines)@) + views(more@),
{
    let mut more = more;
    proof {
        lemma_views_append(lines@, more@);
    }
    lines.append(&mut more);
}

fn one_line(line: String) -> (r: Vec<String>)
    ensures
        views(r@) == seq![line@],
{
    let mut r: Vec<String> = Vec::new();
    r.push(line);
    assert(views(r@) =~= seq![line@]);
    r
}

fn pop_name(visiting: &mut Vec<String>, pushed: bool)
    requires
        pushed ==> old(visiting)@.len() > 0,
    ensures
        pushed ==> final(visiting)@ == old(visiting)@.drop_last(),
        !pushed ==> final(visiting)@ == old(visiting)@,
{
    if pushed {
        visiting.pop();
    }
}

pub fn property_lines(
    name: &str,
    schema: &Schema,
    is_required: bool,
    trail: &str,
    depth: usize,
    spec: &Spec,
    multi_use: &Vec<String>,
    visiting: &mut Vec<String>,
) -> (r: Vec<String>)
    ensures
        views(r@) == property_lines_spec(
            name@,
            *schema,
            is_required,
            trail@,
            depth as nat,
            *spec,
            views(multi_use@).to_set(),
            views(old(visiting)@),
        ),
        final(visiting)@ == old(visiting)@,
    decreases room(depth as nat), 4int, 0int,
{
    if let Some(n) = linked_ref_name(schema, multi_use, visiting) {
        let mut line = key_prefix_exec(depth, name);
        let body = link_body_exec(n.as_str());
        line.append(body.as_str());
        line.append(trail);
        line.append("  // object, ");
        line.append(requirement_label_exec(is_required));
        return one_line(line);
    }
    let pushed = schema_ref_name(schema);
    let ghost vis0 = visiting@;
    if let Some(n) = &pushed {
        visiting.push(n.clone());
        assert(views(visiting@) =~= views(vis0).push(n@));
    }
    let r = resolved_property_lines(name, schema, is_required, trail, depth, spec, multi_use, visiting);
    pop_name(visiting, pushed.is_some());
    assert(visiting@ =~= vis0);
    r
}

fn resolved_property_lines(
    name: &str,
    schema: &Schema,
    is_required: bool,
    trail: &str,
    depth: usize,
    spec: &Spec,
    multi_use: &Vec<String>,
    visiting: &mut Vec<String>,
) -> (r: Vec<String>)
    ensures
        views(r@) == resolved_property_lines_spec(
            name@,
            *schema,
            is_required,
            trail@,
            depth as nat,
            *spec,
            views(multi_use@).to_set(),
            views(old(visiting)@),
        ),
        final(visiting)@ == old(visiting)@,
    decreases room(depth as nat), 3int, 0int,
{
    let req = requirement_label_exec(is_required);
    match resolve_schema(schema, spec) {
        None => {
            let mut line = key_prefix_exec(depth, name);
            match schema {
                Schema::Ref(p) => {
                    let ph = undefined_ref_placeholder(p.as_str());
                    line.append(ph.as_str());
                    line.append(trail);
                    line.append("  // unresolved ref, ");
                },
                _ => {
                    line.append("null");
                    line.append(trail);
                    line.append("  // unknown, ");
                },
            }
            line.append(req);
            one_line(line)
        },
        Some(Schema::Boolean(b)) => {
            let mut line = key_prefix_exec(depth, name);
            line.append(bool_text_exec(*b));
            line.append(trail);
            line.append("  // boolean, ");
            line.append(req);
            one_line(line)
        },
        Some(Schema::Object(o)) => object_property_lines(name, o, is_required, trail, depth, spec, multi_use, visiting),
        Some(Schema::Ref(p)) => {
            let mut line = key_prefix_exec(depth, name);
            let ph = undefined_ref_placeholder(p.as_str());
            line.append(ph.as_str());
            line.append(trail);
            line.append("  // unresolved ref, ");
            line.append(req);
            one_line(line)
        },
    }
}

fn object_property_lines(
    name: &str,
    obj: &ObjectSchema,
    is_required: bool,
    trail: &str,
    depth: usize,
    spec: &Spec,
    multi_use: &Vec<String>,
    visiting: &mut Vec<String>,
) -> (r: Vec<String>)
    ensures
        views(r@) == object_property_lines_spec(
            name@,
            *obj,
            is_required,
            trail@,
            depth as nat,
            *spec,
            views(multi_use@).to_set(),
            views(old(visiting)@),
        ),
        final(visiting)@ == old(visiting)@,
    decreases room(depth as nat), 2int, 0int,
{
    let req = requirement_label_exec(is_required);
    let m = merge_all_of_in(obj, spec, visiting, MAX_MERGE_DEPTH);
    if depth >= MAX_DEPTH {
        let mut line = key_prefix_exec(depth, name);
        line.append("null");
        line.append(trail);
        line.append("  // unknown, ");
        line.append(req);
        return one_line(line);
    }
    if is_array(&m) {
        let mut open = key_prefix_exec(depth, name);
        open.append("[  // array of ");
        let label = array_item_type_label(obj);
        open.append(label.as_str());
        open.append(", ");
        open.append(req);
        let mut lines = one_line(open);
        let inner = item_lines_or_null(obj, depth + 1, spec, multi_use, visiting);
        append_lines(&mut lines, inner);
        let mut close = indent(depth);
        close.append("]");
        close.append(trail);
        push_line(&mut lines, close);
        return lines;
    }
    if m.properties.len() > 0 {
        let mut open = key_prefix_exec(depth, name);
        open.append("{");
        let mut lines = one_line(open);
        let inner = properties_lines(&m, depth + 1, spec, multi_use, visiting);
        append_lines(&mut lines, inner);
        let mut close = indent(depth);
        close.append("}");
        close.append(trail);
        push_line(&mut lines, close);
        return lines;
    }
    let mut line = key_prefix_exec(depth, name);
    let example = primitive_example_with(obj, m.schema_type);
    line.append(example.as_str());
    line.append(trail);
    line.append("  // ");
    let comment = type_comment_with(obj, m.schema_type, req);
    line.append(comment.as_str());
    one_line(line)
}

/// The lines of the merged properties of `m`, each marked required or optional.
pub fn properties_lines(
    m: &Merged,
    depth: usize,
    spec: &Spec,
    multi_use: &Vec<String>,
    visiting: &mut Vec<String>,
) -> (r: Vec<String>)
    ensures
        views(r@) == properties_lines_spec(
            merged_view(*m).properties,
            merged_view(*m).required,
            depth as nat,
            *spec,
            views(multi_use@).to_set(),
            views(old(visiting)@),
        ),
        final(visiting)@ == old(visiting)@,
    decreases room(depth as nat), 5int, 0int,
{
    let ghost mv = merged_view(*m);
    let ghost vis = views(visiting@);
    let n = m.properties.len();
    let mut out: Vec<String> = Vec::new();
    let mut i: usize = 0;
    while i < n
        invariant
            i <= n,
            n == m.properties@.len(),
            mv == merged_view(*m),
            visiting@ == old(visiting)@,
            vis == views(visiting@),
            views(out@) == props_lines_upto(mv.properties, mv.required, depth as nat, i as nat, *spec, views(multi_use@).to_set(), vis),
        decreases n - i,
    {
        let (key, schema) = m.properties[i];
        let is_req = has_required(m, key.as_str());
        let trail = if i + 1 == n {
            ""
        } else {
            ","
        };
        let lines = property_lines(key.as_str(), schema, is_req, trail, depth, spec, multi_use, visiting);
        append_lines(&mut out, lines);
        i += 1;
    }
    out
}

fn has_required(m: &Merged, name: &str) -> (b: bool)
    ensures
        b == merged_view(*m).required.contains(name@),
{
    let ghost ns = merged_view(*m).required;
    let mut i: usize = 0;
    while i < m.required.len()
        invariant
            i <= m.required@.len(),
            ns == merged_view(*m).required,
            forall|k: int| 0 <= k < i ==> ns[k] != name@,
        decreases m.required@.len() - i,
    {
        if crate::text::str_eq(m.required[i].as_str(), name) {
            assert(ns[i as int] == name@);
            return true;
        }
        i += 1;
    }
    false
}

/// The item lines of an array, or an indented `null` when it declares no items.
pub fn item_lines_or_null(
    array_obj: &ObjectSchema,
    depth: usize,
    spec: &Spec,
    multi_use: &Vec<String>,
    visiting: &mut Vec<String>,
) -> (r: Vec<String>)
    ensures
        views(r@) == item_lines_or_null_spec(*array_obj, depth as nat, *spec, views(multi_use@).to_set(), views(old(visiting)@)),
        final(visiting)@ == old(visiting)@,
    decreases room(depth as nat), 7int, 0int,
{
    match &array_obj.items {
        Some(items) => array_item_lines(items, depth, spec, multi_use, visiting),
        None => {
            let mut line = indent(depth);
            line.append("null");
            one_line(line)
        },
    }
}

fn array_item_lines(
    items: &Schema,
    depth: usize,
    spec: &Spec,
    multi_use: &Vec<String>,
    visiting: &mut Vec<String>,
) -> (r: Vec<String>)
    ensures
        views(r@) == array_item_lines_spec(*items, depth as nat, *spec, views(multi_use@).to_set(), views(old(visiting)@)),
        final(visiting)@ == old(visiting)@,
    decreases room(depth as nat), 6int, 0int,
{
    if let Some(n) = linked_ref_name(items, multi_use, visiting) {
        let mut line = indent(depth);
        let body = link_body_exec(n.as_str());
        line.append(body.as_str());
        return one_line(line);
    }
    let pushed = schema_ref_name(items);
    let ghost vis0 = visiting@;
    if let Some(n) = &pushed {
        visiting.push(n.clone());
        assert(views(visiting@) =~= views(vis0).push(n@));
    }
    let r = resolved_array_item_lines(items, depth, spec, multi_use, visiting);
    pop_name(visiting, pushed.is_some());
    assert(visiting@ =~= vis0);
    r
}

fn resolved_array_item_lines(
    items: &Schema,
    depth: usize,
    spec: &Spec,
    multi_use: &Vec<String>,
    visiting: &mut Vec<String>,
) -> (r: Vec<String>)
    ensures
        views(r@) == resolved_array_item_lines_spec(*items, depth as nat, *spec, views(multi_use@).to_set(), views(old(visiting)@)),
        final(visiting)@ == old(visiting)@,
    decreases room(depth as nat), 5int, 0int,
{
    match resolve_schema(items, spec) {
        None => {
            let mut line = indent(depth);
            match items {
                Schema::Ref(p) => {
                    let ph = undefined_ref_placeholder(p.as_str());
                    line.append(ph.as_str());
                },
                _ => line.append("null"),
            }
            one_line(line)
        },
        Some(Schema::Boolean(b)) => {
            let mut line = indent(depth);
            line.append(bool_text_exec(*b));
            one_line(line)
        },
        Some(Schema::Object(o)) => {
            let m = merge_all_of_in(o, spec, visiting, MAX_MERGE_DEPTH);
            if m.properties.len() == 0 {
                let mut line = indent(depth);
                let ex = primitive_example_with(o, m.schema_type);
                line.append(ex.as_str());
                return one_line(line);
            }
            if depth >= MAX_DEPTH {
                let mut line = indent(depth);
                line.append("null");
                return one_line(line);
            }
            let mut open = indent(depth);
            open.append("{");
            let mut lines = one_line(open);
            let inner = properties_lines(&m, depth + 1, spec, multi_use, visiting);
            append_lines(&mut lines, inner);
            let mut close = indent(depth);
            close.append("}");
            push_line(&mut lines, close);
            lines
        },
        Some(Schema::Ref(p)) => {
            let mut line = indent(depth);
            let ph = undefined_ref_placeholder(p.as_str());
            line.append(ph.as_str());
            one_line(line)
        },
    }
}

} // verus!
