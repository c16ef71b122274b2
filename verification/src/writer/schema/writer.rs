//! `schemas/`: one file per component schema and an index.

use vstd::prelude::*;
use vstd::string::*;
use crate::model::{JsonLiteral, Schema, Spec};
use crate::text::{contains_seq, views};
use crate::writer::extensions::{extensions_table_spec, render_extensions_table};
use crate::writer::markdown::{
    build_index, desc_paragraph, desc_paragraph_spec, index_line, index_text, lemma_index_lists_link,
    pair_views,
};
use crate::writer::naming::{camel_to_kebab, kebab};
use crate::writer::refs::{opt_view, resolve_schema, resolve_spec};
use crate::writer::schema::render::{render_schema_jsonc, schema_jsonc_spec};
use crate::writer::writes::{path2, writes_view, Writes};

verus! {

pub struct SchemaWriter;

/// The description of the schema a schema resolves to, when it is an inline object schema.
pub open spec fn schema_description_spec(schema: Schema, spec: Spec) -> Option<Seq<char>> {
    match resolve_spec(schema, spec) {
        Some(Schema::Object(o)) => opt_view(o.description),
        _ => None,
    }
}

pub fn schema_description(schema: &Schema, spec: &Spec) -> (r: Option<String>)
    ensures
        opt_view(r) == schema_description_spec(*schema, *spec),
{
    match resolve_schema(schema, spec) {
        Some(Schema::Object(o)) => match &o.description {
            Some(d) => Some(d.clone()),
            None => None,
        },
        _ => None,
    }
}

/// The `x-…` extensions of an inline object schema; none for a boolean schema or a `$ref`.
pub open spec fn schema_extensions_spec(schema: Schema) -> Seq<(String, JsonLiteral)> {
    match schema {
        Schema::Object(o) => o.extensions@,
        _ => seq![],
    }
}

/// The file of a component schema: title, description, extensions, and its `jsonc` rendering
/// with every schema expanded.
pub open spec fn schema_file_spec(name: Seq<char>, schema: Schema, spec: Spec) -> Seq<char> {
    "# "@ + name + "\n\n"@ + desc_paragraph_spec(schema_description_spec(schema, spec))
        + extensions_table_spec(schema_extensions_spec(schema)) + "```jsonc\n"@ + schema_jsonc_spec(
        schema,
        spec,
        Set::empty(),
    ) + "\n```\n"@
}

pub fn render_schema_file(name: &str, schema: &Schema, spec: &Spec) -> (r: String)
    ensures
        r@ == schema_file_spec(name@, *schema, *spec),
{
    let mut out = String::from_str("# ");
    out.append(name);
    out.append("\n\n");
    let description = schema_description(schema, spec);
    let d = match &description {
        Some(s) => desc_paragraph(Some(s.as_str())),
        None => desc_paragraph(None),
    };
    out.append(d.as_str());
    let no_extensions: Vec<(String, JsonLiteral)> = Vec::new();
    let extensions = match schema {
        Schema::Object(o) => &o.extensions,
        _ => &no_extensions,
    };
    let e = render_extensions_table(extensions);
    out.append(e.as_str());
    out.append("```jsonc\n");
    let none: Vec<String> = Vec::new();
    assert(views(none@).to_set() =~= Set::empty());
    let j = render_schema_jsonc(schema, spec, &none);
    out.append(j.as_str());
    out.append("\n```\n");
    out
}

/// The file name of a schema: its name in kebab case, then `.md`.
pub open spec fn schema_filename(name: Seq<char>) -> Seq<char> {
    kebab(name) + ".md"@
}

/// A schema link in an endpoint file reaches that schema's file: endpoint files lie two
/// directories down (`endpoints/<category>/`), and the link climbs both and names the file that
/// the schema writer writes under `schemas/`.
pub proof fn lemma_schema_link_reaches_file(name: Seq<char>)
    ensures
        crate::writer::refs::schema_doc_link_spec(name) == "../"@ + "../"@ + "schemas"@ + "/"@
            + schema_filename(name),
{
    reveal_strlit("../../schemas/");
    reveal_strlit("../");
    reveal_strlit("schemas");
    reveal_strlit("/");
    assert("../../schemas/"@ =~= "../"@ + "../"@ + "schemas"@ + "/"@);
}

/// The schema files of the given schemas, in order.
pub open spec fn schema_files(schemas: Seq<(String, Schema)>, spec: Spec) -> Seq<(Seq<Seq<char>>, Seq<char>)> {
    schemas.map_values(
        |s: (String, Schema)| (seq!["schemas"@, schema_filename(s.0@)], schema_file_spec(s.0@, s.1, spec)),
    )
}

/// The files under `schemas/`: one per component schema, then the index; none when the
/// document declares no schema.
pub open spec fn schema_dir_files(spec: Spec) -> Seq<(Seq<Seq<char>>, Seq<char>)> {
    match spec.components {
        Some(c) => if c.schemas@.len() == 0 {
            seq![]
        } else {
            schema_files(c.schemas@, spec).push((
                seq!["schemas"@, "index.md"@],
                index_text(c.schemas@.map_values(|s: (String, Schema)| (schema_filename(s.0@), s.0@))),
            ))
        },
        None => seq![],
    }
}

/// One file per component schema, named after it, then the index, which links each file.
pub proof fn lemma_one_file_per_schema(spec: Spec, k: int)
    requires
        crate::writer::skill::has_schemas_spec(spec),
        0 <= k < spec.components.unwrap().schemas@.len(),
    ensures
        schema_dir_files(spec).len() == spec.components.unwrap().schemas@.len() + 1,
        schema_dir_files(spec)[k].0 == seq!["schemas"@, schema_filename(spec.components.unwrap().schemas@[k].0@)],
        schema_dir_files(spec).last().0 == seq!["schemas"@, "index.md"@],
        contains_seq(
            schema_dir_files(spec).last().1,
            index_line(
                schema_filename(spec.components.unwrap().schemas@[k].0@),
                spec.components.unwrap().schemas@[k].0@,
            ),
        ),
{
    let schemas = spec.components.unwrap().schemas@;
    let links = schemas.map_values(|s: (String, Schema)| (schema_filename(s.0@), s.0@));
    lemma_index_lists_link(links, k);
}

impl SchemaWriter {
    /// Adds the schema files.
    pub fn collect_writes(&self, spec: &Spec, writes: &mut Writes)
        ensures
            writes_view(final(writes).entries@) == writes_view(old(writes).entries@) + schema_dir_files(*spec),
    {
        let ghost start = writes_view(writes.entries@);
        let components = match &spec.components {
            Some(c) => c,
            None => {
                assert(writes_view(writes.entries@) =~= start + schema_dir_files(*spec));
                return;
            },
        };
        if components.schemas.len() == 0 {
            assert(writes_view(writes.entries@) =~= start + schema_dir_files(*spec));
            return;
        }
        let schemas = &components.schemas;
        let mut links: Vec<(String, String)> = Vec::new();
        let mut i: usize = 0;
        while i < schemas.len()
            invariant
                i <= schemas@.len(),
                writes_view(writes.entries@) == start + schema_files(schemas@.take(i as int), *spec),
                pair_views(links@) == schemas@.take(i as int).map_values(
                    |s: (String, Schema)| (schema_filename(s.0@), s.0@),
                ),
            decreases schemas@.len() - i,
        {
            let name = schemas[i].0.as_str();
            let mut filename = camel_to_kebab(name);
            filename.append(".md");
            let content = render_schema_file(name, &schemas[i].1, spec);
            let path = path2("schemas", filename.as_str());
            writes.add(path, content);
            let ghost lbefore = links@;
            links.push((filename, schemas[i].0.clone()));
            assert(pair_views(links@) =~= pair_views(lbefore).push((filename@, schemas@[i as int].0@)));
            assert(schemas@.take(i + 1) =~= schemas@.take(i as int).push(schemas@[i as int]));
            assert(pair_views(links@) =~= schemas@.take(i + 1).map_values(
                |s: (String, Schema)| (schema_filename(s.0@), s.0@),
            ));
            assert(writes_view(writes.entries@) =~= start + schema_files(schemas@.take(i + 1), *spec));
            i += 1;
        }
        assert(schemas@.take(schemas@.len() as int) =~= schemas@);
        let index = build_index(links.as_slice());
        let path = path2("schemas", "index.md");
        writes.add(path, index);
        assert(writes_view(writes.entries@) =~= start + schema_dir_files(*spec));
    }
}

} // verus!
