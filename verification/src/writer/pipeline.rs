//! The whole skill: where it goes and every file of it, from every writer in turn.

use vstd::prelude::*;
use vstd::string::*;
use crate::model::Spec;
use crate::writer::auth::{auth_files, AuthWriter};
use crate::writer::endpoint::writer::{endpoint_files, lemma_endpoint_files_under_endpoints, EndpointWriter};
use crate::writer::manifest::{manifest_filename_spec, ManifestWriter};
use crate::writer::naming::{infer_skill_name, infer_skill_name_spec};
use crate::writer::refs::opt_view;
use crate::writer::schema::writer::{schema_dir_files, SchemaWriter};
use crate::writer::skill::{has_auth_spec, has_schemas_spec, skill_text, SkillWriter};
use crate::writer::writes::{writes_view, FileWrite, Writes};

verus! {

/// How and where a skill was generated, as opposed to what the document says: where the
/// document came from, its verbatim text for the manifest file, the command that produced the
/// skill, and the environment variable that holds the API credentials.
pub struct GenerationContext {
    pub source_url: Option<String>,
    pub manifest_raw: String,
    pub manifest_extension: String,
    pub command: String,
    pub token_env_var: Option<String>,
}

/// A skill to write: its directory and its files, with paths relative to that directory.
pub struct SkillPlan {
    pub name: String,
    pub dir: String,
    pub writes: Vec<FileWrite>,
}

pub open spec fn opt_str_view(o: Option<&str>) -> Option<Seq<char>> {
    match o {
        Some(s) => Some(s@),
        None => None,
    }
}

/// The directory of a skill: the one given, else the skill's name.
pub open spec fn skill_dir_spec(title: Seq<char>, output_dir: Option<Seq<char>>) -> Seq<char> {
    match output_dir {
        Some(d) => d,
        None => infer_skill_name_spec(title, None),
    }
}

/// Every file of a skill, in order: `SKILL.md`, the manifest, the authentication files, the
/// endpoint files and the schema files.
pub open spec fn skill_files(
    spec: Spec,
    output_dir: Option<Seq<char>>,
    servers_override: Seq<String>,
    g: GenerationContext,
) -> Seq<(Seq<Seq<char>>, Seq<char>)> {
    seq![(
        seq!["SKILL.md"@],
        skill_text(
            infer_skill_name_spec(spec.info.title@, output_dir),
            servers_override,
            opt_view(g.source_url),
            manifest_filename_spec(g.manifest_extension@),
            g.command@,
            spec,
        ),
    ), (seq![manifest_filename_spec(g.manifest_extension@)], g.manifest_raw@)] + auth_files(
        spec,
        opt_view(g.token_env_var),
    ) + endpoint_files(spec, servers_override) + schema_dir_files(spec)
}

/// `SKILL.md` links the authentication index exactly when the authentication files are
/// written, and the schema index exactly when the schema files are; each of these is then
/// written last in its directory.
pub proof fn lemma_skill_links_written_indexes(spec: Spec, token_env_var: Option<Seq<char>>)
    ensures
        has_auth_spec(spec) <==> auth_files(spec, token_env_var).len() > 0,
        has_auth_spec(spec) ==> auth_files(spec, token_env_var).last().0 == seq!["authentication"@, "index.md"@],
        has_schemas_spec(spec) <==> schema_dir_files(spec).len() > 0,
        has_schemas_spec(spec) ==> schema_dir_files(spec).last().0 == seq!["schemas"@, "index.md"@],
{
}

/// Without security schemes nothing is written under `authentication/`: the other files are
/// `SKILL.md`, the manifest, and the files under `endpoints/` and `schemas/`.
pub proof fn lemma_no_auth_files_without_schemes(
    spec: Spec,
    output_dir: Option<Seq<char>>,
    servers_override: Seq<String>,
    g: GenerationContext,
)
    requires
        !has_auth_spec(spec),
    ensures
        forall|k: int| 0 <= k < skill_files(spec, output_dir, servers_override, g).len()
            ==> (#[trigger] skill_files(spec, output_dir, servers_override, g)[k]).0[0] != "authentication"@,
{
    reveal_strlit("authentication");
    reveal_strlit("endpoints");
    reveal_strlit("schemas");
    reveal_strlit("SKILL.md");
    reveal_strlit("openapi.");
    let files = skill_files(spec, output_dir, servers_override, g);
    let head = seq![(
        seq!["SKILL.md"@],
        skill_text(
            infer_skill_name_spec(spec.info.title@, output_dir),
            servers_override,
            opt_view(g.source_url),
            manifest_filename_spec(g.manifest_extension@),
            g.command@,
            spec,
        ),
    ), (seq![manifest_filename_spec(g.manifest_extension@)], g.manifest_raw@)];
    let ep = endpoint_files(spec, servers_override);
    let sc = schema_dir_files(spec);
    assert(auth_files(spec, opt_view(g.token_env_var)) =~= seq![]);
    assert(files =~= head + ep + sc);
    lemma_endpoint_files_under_endpoints(spec, servers_override);
    assert forall|k: int| 0 <= k < files.len() implies (#[trigger] files[k]).0[0] != "authentication"@ by {
        if k == 0 {
            assert("SKILL.md"@[0] != "authentication"@[0]);
        } else if k == 1 {
            let f = manifest_filename_spec(g.manifest_extension@);
            assert(f[0] == 'o');
            assert("authentication"@[0] == 'a');
        } else if k < 2 + ep.len() {
            assert(files[k] == ep[k - 2]);
            assert("endpoints"@[0] != "authentication"@[0]);
        } else {
            assert(files[k] == sc[k - 2 - ep.len()]);
            let c = spec.components.unwrap();
            let j = k - 2 - ep.len();
            if j < c.schemas@.len() {
                assert(sc[j].0[0] == "schemas"@);
            } else {
                assert(sc[j].0[0] == "schemas"@);
            }
            assert("schemas"@[0] != "authentication"@[0]);
        }
    }
}

/// Plans a skill: its name and directory, and the content of each of its files.
pub fn plan_skill(
    spec: &Spec,
    output_dir: Option<&str>,
    servers_override: Vec<String>,
    generation: GenerationContext,
) -> (r: SkillPlan)
    ensures
        r.name@ == infer_skill_name_spec(spec.info.title@, opt_str_view(output_dir)),
        r.dir@ == skill_dir_spec(spec.info.title@, opt_str_view(output_dir)),
        writes_view(r.writes@) == skill_files(
            *spec,
            opt_str_view(output_dir),
            servers_override@,
            generation,
        ),
{
    let name = infer_skill_name(spec.info.title.as_str(), output_dir);
    let dir = match output_dir {
        Some(d) => String::from_str(d),
        None => name.clone(),
    };
    let mut writes = Writes::new();
    assert(writes_view(writes.entries@) =~= seq![]);
    let manifest_writer = ManifestWriter {
        raw: generation.manifest_raw.clone(),
        extension: generation.manifest_extension.clone(),
    };
    let skill_writer = SkillWriter {
        name: name.clone(),
        servers_override: servers_override.clone(),
        source_url: generation.source_url.clone(),
        manifest_filename: manifest_writer.filename(),
        command: generation.command.clone(),
    };
    let auth_writer = AuthWriter { token_env_var: generation.token_env_var.clone() };
    let endpoint_writer = EndpointWriter { servers_override };
    skill_writer.collect_writes(spec, &mut writes);
    manifest_writer.collect_writes(&mut writes);
    let ghost after_manifest = writes_view(writes.entries@);
    auth_writer.collect_writes(spec, &mut writes);
    let ghost after_auth = writes_view(writes.entries@);
    endpoint_writer.collect_writes(spec, &mut writes);
    let ghost after_endpoints = writes_view(writes.entries@);
    SchemaWriter.collect_writes(spec, &mut writes);
    assert(writes_view(writes.entries@) =~= skill_files(
        *spec,
        opt_str_view(output_dir),
        endpoint_writer.servers_override@,
        generation,
    ));
    SkillPlan { name, dir, writes: writes.into_vec() }
}

/// What to do with the output directory before writing.
#[derive(Debug, PartialEq, Eq, Structural)]
pub enum OutputAction {
    /// The directory does not exist: write.
    Write,
    /// It exists and `--force` was given: remove it, then write.
    ReplaceExisting,
    /// It exists without `--force`: refuse.
    RefuseExisting,
}

/// Decides what happens to the output directory: written when absent, replaced when present
/// and forced, refused otherwise.
pub fn output_dir_action(exists: bool, force: bool) -> (r: OutputAction)
    ensures
        r == (if !exists {
            OutputAction::Write
        } else if force {
            OutputAction::ReplaceExisting
        } else {
            OutputAction::RefuseExisting
        }),
{
    if !exists {
        OutputAction::Write
    } else if force {
        OutputAction::ReplaceExisting
    } else {
        OutputAction::RefuseExisting
    }
}

} // verus!
