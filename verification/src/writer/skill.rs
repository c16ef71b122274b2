//! `SKILL.md`: the top-level entry point that the agent reads first.

use vstd::prelude::*;
use vstd::string::*;
use crate::model::{OperationEntry, Server, Spec};
use crate::text::views;
use crate::writer::auth::{opt_as_str, opt_str};
use crate::writer::refs::opt_view;
use crate::writer::writes::{writes_view, Writes};

verus! {

pub struct SkillWriter {
    pub name: String,
    pub servers_override: Vec<String>,
    pub source_url: Option<String>,
    pub manifest_filename: String,
    pub command: String,
}

pub open spec fn skill_header_spec(name: Seq<char>, title: Seq<char>) -> Seq<char> {
    "---\nname: "@ + name + "\ndescription: The API documentation and specifications of "@ + title
        + "\nallowed-tools:\n  - Read\n  - Bash(ls *)\n  - Bash(grep *)\n  - Bash(find *)\n---\n\n# "@
        + title + " Documentation\n\n"@
}

/// The front matter and title of `SKILL.md`.
pub fn render_skill_header(name: &str, title: &str) -> (r: String)
    ensures
        r@ == skill_header_spec(name@, title@),
{
    let mut r = String::from_str("---\nname: ");
    r.append(name);
    r.append("\ndescription: The API documentation and specifications of ");
    r.append(title);
    r.append("\nallowed-tools:\n  - Read\n  - Bash(ls *)\n  - Bash(grep *)\n  - Bash(find *)\n---\n\n# ");
    r.append(title);
    r.append(" Documentation\n\n");
    r
}

pub open spec fn labelled_link_spec(label: Option<Seq<char>>, url: Seq<char>) -> Seq<char> {
    match label {
        Some(l) => if url.len() == 0 { l } else { "["@ + l + "]("@ + url + ")"@ },
        None => url,
    }
}

/// A markdown link when both parts are present, otherwise whichever one is.
pub fn labelled_link(label: Option<&str>, url: &str) -> (r: String)
    ensures
        r@ == labelled_link_spec(opt_str(label), url@),
{
    match label {
        Some(l) => {
            if url.unicode_len() == 0 {
                String::from_str(l)
            } else {
                let mut r = String::from_str("[");
                r.append(l);
                r.append("](");
                r.append(url);
                r.append(")");
                r
            }
        },
        None => String::from_str(url),
    }
}

pub open spec fn version_line_spec(spec: Spec) -> Seq<char> {
    "**Version:** "@ + spec.info.version@ + (match spec.info.license {
        Some(l) => " | **License:** "@ + labelled_link_spec(
            Some(l.name@),
            match l.url { Some(u) => u@, None => seq![] },
        ),
        None => seq![],
    }) + (match spec.info.terms_of_service {
        Some(t) => " | **Terms of Service:** "@ + t@,
        None => seq![],
    }) + "\n\n"@
}

/// The version line opens with `**Version:** ` and the version, and ends with the terms of
/// service, when there are any, then a blank line.
pub proof fn lemma_version_line_frame(spec: Spec)
    ensures
        ({
            let line = version_line_spec(spec);
            let head = "**Version:** "@ + spec.info.version@;
            let tail = (match spec.info.terms_of_service {
                Some(t) => " | **Terms of Service:** "@ + t@,
                None => seq![],
            }) + "\n\n"@;
            &&& head.len() + tail.len() <= line.len()
            &&& line.take(head.len() as int) == head
            &&& line.skip(line.len() - tail.len()) == tail
        }),
{
    let line = version_line_spec(spec);
    let head = "**Version:** "@ + spec.info.version@;
    let mid = match spec.info.license {
        Some(l) => " | **License:** "@ + labelled_link_spec(
            Some(l.name@),
            match l.url { Some(u) => u@, None => seq![] },
        ),
        None => seq![],
    };
    let tail = (match spec.info.terms_of_service {
        Some(t) => " | **Terms of Service:** "@ + t@,
        None => seq![],
    }) + "\n\n"@;
    assert(line =~= head + mid + tail);
    assert((head + mid + tail).take(head.len() as int) =~= head);
    assert((head + mid + tail).skip((head + mid + tail).len() - tail.len()) =~= tail);
}

/// With a license, the version line goes on with ` | **License:** ` and the license: its name
/// linked to its url when it has a non-empty one, else its name alone.
pub proof fn lemma_version_line_shows_license(spec: Spec)
    requires
        spec.info.license is Some,
    ensures
        ({
            let l = spec.info.license.unwrap();
            let shown = match l.url {
                Some(u) if u@.len() > 0 => "["@ + l.name@ + "]("@ + u@ + ")"@,
                _ => l.name@,
            };
            let head = "**Version:** "@ + spec.info.version@ + " | **License:** "@ + shown;
            head.len() <= version_line_spec(spec).len() && version_line_spec(spec).take(head.len() as int) == head
        }),
{
    let l = spec.info.license.unwrap();
    let shown = match l.url {
        Some(u) if u@.len() > 0 => "["@ + l.name@ + "]("@ + u@ + ")"@,
        _ => l.name@,
    };
    let head = "**Version:** "@ + spec.info.version@ + " | **License:** "@ + shown;
    let rest = (match spec.info.terms_of_service {
        Some(t) => " | **Terms of Service:** "@ + t@,
        None => seq![],
    }) + "\n\n"@;
    assert(version_line_spec(spec) =~= head + rest);
    assert((head + rest).take(head.len() as int) =~= head);
}

pub fn render_version_line(spec: &Spec) -> (r: String)
    ensures
        r@ == version_line_spec(*spec),
{
    let mut out = String::from_str("**Version:** ");
    out.append(spec.info.version.as_str());
    if let Some(license) = &spec.info.license {
        let url = match &license.url {
            Some(u) => u.clone(),
            None => String::new(),
        };
        out.append(" | **License:** ");
        let l = labelled_link(Some(license.name.as_str()), url.as_str());
        out.append(l.as_str());
    }
    if let Some(tos) = &spec.info.terms_of_service {
        out.append(" | **Terms of Service:** ");
        out.append(tos.as_str());
    }
    out.append("\n\n");
    out
}

pub open spec fn server_line(url: Seq<char>, description: Option<Seq<char>>) -> Seq<char> {
    match description {
        Some(d) => "- "@ + url + " — "@ + d + "\n"@,
        None => "- "@ + url + "\n"@,
    }
}

/// The server lines: the overrides when there are any, else the document's servers.
pub open spec fn server_lines(spec: Spec, overrides: Seq<String>) -> Seq<Seq<char>> {
    if overrides.len() == 0 {
        spec.servers@.map_values(|s: Server| server_line(s.url@, opt_view(s.description)))
    } else {
        overrides.map_values(|u: String| server_line(u@, None))
    }
}

pub open spec fn servers_section_spec(spec: Spec, overrides: Seq<String>) -> Seq<char> {
    let lines = server_lines(spec, overrides);
    if lines.len() == 0 {
        seq![]
    } else {
        "**Servers:**\n"@ + crate::writer::markdown::concat_all(lines) + "\n"@
    }
}

#[verifier::loop_isolation(false)]
pub fn render_servers_section(spec: &Spec, servers_override: &[String]) -> (r: String)
    ensures
        r@ == servers_section_spec(*spec, servers_override@),
{
    let ghost lines = server_lines(*spec, servers_override@);
    let n = if servers_override.len() == 0 { spec.servers.len() } else { servers_override.len() };
    assert(lines.len() == n);
    if n == 0 {
        return String::new();
    }
    let mut body = String::new();
    let mut i: usize = 0;
    while i < n
        invariant
            i <= n,
            body@ == crate::writer::markdown::concat_all(lines.take(i as int)),
        decreases n - i,
    {
        let (url, desc) = if servers_override.len() == 0 {
            (spec.servers[i].url.as_str(), opt_as_str(&spec.servers[i].description))
        } else {
            (servers_override[i].as_str(), None)
        };
        body.append("- ");
        body.append(url);
        if let Some(d) = desc {
            body.append(" — ");
            body.append(d);
        }
        body.append("\n");
        assert(lines.take(i + 1) =~= lines.take(i as int).push(lines[i as int]));
        assert(lines.take(i + 1).drop_last() =~= lines.take(i as int));
        i += 1;
    }
    assert(lines.take(n as int) =~= lines);
    let mut out = String::from_str("**Servers:**\n");
    out.append(body.as_str());
    out.append("\n");
    out
}

pub open spec fn metadata_spec(spec: Spec, overrides: Seq<String>, source_url: Option<Seq<char>>, command: Seq<char>) -> Seq<char> {
    version_line_spec(spec) + (match source_url {
        Some(u) => "**Source:** "@ + u + "\n\n"@,
        None => seq![],
    }) + "**Generated with:** `"@ + command + "`\n\n"@ + servers_section_spec(spec, overrides) + (
    match spec.external_docs {
        Some(e) => "**External Docs:** "@ + labelled_link_spec(opt_view(e.description), e.url@) + "\n\n"@,
        None => seq![],
    })
}

/// Version, source, generating command, servers and external docs.
pub fn render_metadata(spec: &Spec, servers_override: &[String], source_url: Option<&str>, command: &str) -> (r: String)
    ensures
        r@ == metadata_spec(*spec, servers_override@, opt_str(source_url), command@),
{
    let mut out = render_version_line(spec);
    if let Some(url) = source_url {
        out.append("**Source:** ");
        out.append(url);
        out.append("\n\n");
    }
    out.append("**Generated with:** `");
    out.append(command);
    out.append("`\n\n");
    let servers = render_servers_section(spec, servers_override);
    out.append(servers.as_str());
    if let Some(ext) = &spec.external_docs {
        out.append("**External Docs:** ");
        let l = labelled_link(opt_as_str(&ext.description), ext.url.as_str());
        out.append(l.as_str());
        out.append("\n\n");
    }
    out
}

pub open spec fn has_deprecated_spec(ops: Seq<OperationEntry>) -> bool {
    exists|i: int| 0 <= i < ops.len() && ops[i].op.deprecated == Some(true)
}

/// Whether any operation is marked deprecated.
pub fn has_deprecated_operations(spec: &Spec) -> (b: bool)
    ensures
        b == has_deprecated_spec(spec.operations@),
{
    let mut i: usize = 0;
    while i < spec.operations.len()
        invariant
            i <= spec.operations@.len(),
            forall|k: int| 0 <= k < i ==> spec.operations@[k].op.deprecated != Some(true),
        decreases spec.operations@.len() - i,
    {
        if let Some(true) = spec.operations[i].op.deprecated {
            return true;
        }
        i += 1;
    }
    false
}

pub open spec fn navigation_text() -> Seq<char> {
    "## Navigation\n\nGiven your goal, read the relevant index.md file links bellow and subsequent file to the endpoints required to achieve your task.\nAvoid using `ls` and `grep`, use them only when after the indexes if they did not provide the information required, or if you have to search for a specific pattern.\nOnly follow markdown links references required to achieve your goal. The less files you read, the better."@
}

pub open spec fn deprecated_note() -> Seq<char> {
    "\n\nSome endpoints are marked as deprecated. Prefer non-deprecated alternatives when available.\n\n"@
}

pub open spec fn description_and_navigation_spec(description: Seq<char>, spec: Spec) -> Seq<char> {
    (if description.len() > 0 { "## API Description\n\n"@ + description + "\n\n"@ } else { seq![] })
        + navigation_text() + (if has_deprecated_spec(spec.operations@) { deprecated_note() } else { seq![] })
}

/// The API description and the navigation advice, with a note when some operation is
/// deprecated.
pub fn render_description_and_navigation(description: &str, spec: &Spec) -> (r: String)
    ensures
        r@ == description_and_navigation_spec(description@, *spec),
{
    let mut out = String::new();
    if description.unicode_len() > 0 {
        out.append("## API Description\n\n");
        out.append(description);
        out.append("\n\n");
    }
    out.append("## Navigation\n\nGiven your goal, read the relevant index.md file links bellow and subsequent file to the endpoints required to achieve your task.\nAvoid using `ls` and `grep`, use them only when after the indexes if they did not provide the information required, or if you have to search for a specific pattern.\nOnly follow markdown links references required to achieve your goal. The less files you read, the better.");
    if has_deprecated_operations(spec) {
        out.append("\n\nSome endpoints are marked as deprecated. Prefer non-deprecated alternatives when available.\n\n");
    }
    out
}

pub open spec fn has_auth_spec(spec: Spec) -> bool {
    match spec.components {
        Some(c) => c.security_schemes@.len() > 0,
        None => false,
    }
}

pub open spec fn has_schemas_spec(spec: Spec) -> bool {
    match spec.components {
        Some(c) => c.schemas@.len() > 0,
        None => false,
    }
}

pub open spec fn index_spec(spec: Spec) -> Seq<char> {
    "Read the following files depending on your current needs:\n\n"@
        + (if has_auth_spec(spec) { "- [authentication/index.md](./authentication/index.md): Authentication workflows\n"@ } else { seq![] })
        + (if spec.operations@.len() > 0 { "- [endpoints/index.md](./endpoints/index.md): API endpoints\n"@ } else { seq![] })
        + (if has_schemas_spec(spec) { "- [schemas/index.md](./schemas/index.md): Data schemas, only if you need them alone. They are already included in endpoints.\n"@ } else { seq![] })
}

/// Links to the indexes that exist.
pub fn render_index(spec: &Spec) -> (r: String)
    ensures
        r@ == index_spec(*spec),
{
    let (has_auth, has_schemas) = match &spec.components {
        Some(c) => (c.security_schemes.len() > 0, c.schemas.len() > 0),
        None => (false, false),
    };
    let mut out = String::from_str("Read the following files depending on your current needs:\n\n");
    if has_auth {
        out.append("- [authentication/index.md](./authentication/index.md): Authentication workflows\n");
    }
    if spec.operations.len() > 0 {
        out.append("- [endpoints/index.md](./endpoints/index.md): API endpoints\n");
    }
    if has_schemas {
        out.append("- [schemas/index.md](./schemas/index.md): Data schemas, only if you need them alone. They are already included in endpoints.\n");
    }
    out
}

pub open spec fn manifest_section_spec(filename: Seq<char>, source_url: Option<Seq<char>>) -> Seq<char> {
    "\n## OpenAPI Manifest\n\nThe raw OpenAPI manifest is available at [`"@ + filename + "`](./"@ + filename + ")"@
        + (match source_url { Some(u) => ", fetched from "@ + u, None => seq![] })
        + ". It is provided only for tools that require the raw spec — e.g. generating an SDK, a Swagger/OpenAPI client, or a fuzzer. Do **not** read it to navigate this API: the indexed markdown files above contain the same information organized for far fewer tokens.\n"@
}

/// Where the raw document is, and that it is not meant for navigation.
pub fn render_manifest_section(manifest_filename: &str, source_url: Option<&str>) -> (r: String)
    ensures
        r@ == manifest_section_spec(manifest_filename@, opt_str(source_url)),
{
    let mut out = String::from_str("\n## OpenAPI Manifest\n\nThe raw OpenAPI manifest is available at [`");
    out.append(manifest_filename);
    out.append("`](./");
    out.append(manifest_filename);
    out.append(")");
    if let Some(url) = source_url {
        out.append(", fetched from ");
        out.append(url);
    }
    out.append(". It is provided only for tools that require the raw spec — e.g. generating an SDK, a Swagger/OpenAPI client, or a fuzzer. Do **not** read it to navigate this API: the indexed markdown files above contain the same information organized for far fewer tokens.\n");
    out
}

/// `SKILL.md` for a skill named `name`.
pub open spec fn skill_text(
    name: Seq<char>,
    servers_override: Seq<String>,
    source_url: Option<Seq<char>>,
    manifest_filename: Seq<char>,
    command: Seq<char>,
    spec: Spec,
) -> Seq<char> {
    skill_header_spec(name, spec.info.title@)
        + metadata_spec(spec, servers_override, source_url, command)
        + description_and_navigation_spec(match spec.info.description { Some(d) => d@, None => seq![] }, spec)
        + index_spec(spec) + manifest_section_spec(manifest_filename, source_url)
}

pub open spec fn skill_spec(w: SkillWriter, spec: Spec) -> Seq<char> {
    skill_text(w.name@, w.servers_override@, opt_view(w.source_url), w.manifest_filename@, w.command@, spec)
}

impl SkillWriter {
    /// The content of `SKILL.md`.
    pub fn render(&self, spec: &Spec) -> (r: String)
        ensures
            r@ == skill_spec(*self, *spec),
    {
        let title = spec.info.title.as_str();
        let description = match &spec.info.description {
            Some(d) => d.as_str(),
            None => "",
        };
        proof {
            if spec.info.description is None {
                reveal_strlit("");
            }
        }
        let source_url = opt_as_str(&self.source_url);
        let mut out = render_skill_header(self.name.as_str(), title);
        let m = render_metadata(spec, self.servers_override.as_slice(), source_url, self.command.as_str());
        out.append(m.as_str());
        let d = render_description_and_navigation(description, spec);
        out.append(d.as_str());
        let i = render_index(spec);
        out.append(i.as_str());
        let ms = render_manifest_section(self.manifest_filename.as_str(), source_url);
        out.append(ms.as_str());
        out
    }

    /// Adds `SKILL.md`.
    pub fn collect_writes(&self, spec: &Spec, writes: &mut Writes)
        ensures
            writes_view(final(writes).entries@) == writes_view(old(writes).entries@).push(
                (seq!["SKILL.md"@], skill_spec(*self, *spec)),
            ),
    {
        let content = self.render(spec);
        let mut path: Vec<String> = Vec::new();
        path.push(String::from_str("SKILL.md"));
        assert(views(path@) =~= seq!["SKILL.md"@]);
        writes.add(path, content);
    }
}

} // verus!
