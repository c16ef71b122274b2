//! `authentication/index.md` and one file per security scheme.

use vstd::prelude::*;
use vstd::string::*;
use crate::model::{AuthorizationCodeFlow, Flows, ImplicitFlow, SecurityScheme, Spec, TokenFlow};
use crate::text::{ascii_lower_seq, contains_seq, is_substring_at, lemma_contains_middle, lemma_substring_extend, lemma_substring_shift, replace_char, replace_char_seq, str_eq, str_to_lowercase, to_ascii_lower, unicode_lower, views};
use crate::writer::markdown::{
    build_index, desc_cell, desc_cell_spec, desc_paragraph, desc_paragraph_spec, index_line, index_text,
    lemma_index_lists_link,
    pair_views, row_line, str_views, table_spec, padded, Table,
};
use crate::writer::naming::{capitalize_first, capitalized};
use crate::writer::refs::opt_view;
use crate::writer::writes::{path2, writes_view, Writes};

verus! {

pub struct AuthWriter {
    pub token_env_var: Option<String>,
}

pub open spec fn opt_str(o: Option<&str>) -> Option<Seq<char>> {
    match o {
        Some(s) => Some(s@),
        None => None,
    }
}

pub open spec fn header_spec(name: Seq<char>, description: Option<Seq<char>>) -> Seq<char> {
    "# "@ + name + "\n\n"@ + desc_paragraph_spec(description)
}

/// `# {name}` and the description paragraph.
pub fn render_header(name: &str, description: Option<&str>) -> (r: String)
    ensures
        r@ == header_spec(name@, opt_str(description)),
{
    let mut r = String::from_str("# ");
    r.append(name);
    r.append("\n\n");
    let d = desc_paragraph(description);
    r.append(d.as_str());
    r
}

pub open spec fn token_note_spec(var: Option<Seq<char>>) -> Seq<char> {
    match var {
        Some(v) => "The api key, token or basic auth is stored under the environment variable $"@
            + v + ".\nYou are not allowed to read the content of that variable, you must call it as $"@
            + v + "\nIf the following commands shows the token is not set, ask the user to provide it:\n\n```bash\n[ -n \"${"@
            + v + ":+x}\" ] && echo set || echo \"unset or empty\"\n```\n\n"@,
        None => seq![],
    }
}

/// The paragraph placed right before the HTTP example of every static credential scheme.
/// Empty when no environment variable was given.
pub fn token_env_var_note(token_env_var: Option<&str>) -> (r: String)
    ensures
        r@ == token_note_spec(opt_str(token_env_var)),
{
    match token_env_var {
        Some(v) => {
            let mut r = String::from_str("The api key, token or basic auth is stored under the environment variable $");
            r.append(v);
            r.append(".\nYou are not allowed to read the content of that variable, you must call it as $");
            r.append(v);
            r.append("\nIf the following commands shows the token is not set, ask the user to provide it:\n\n```bash\n[ -n \"${");
            r.append(v);
            r.append(":+x}\" ] && echo set || echo \"unset or empty\"\n```\n\n");
            r
        },
        None => String::new(),
    }
}

pub open spec fn credential_spec(var: Option<Seq<char>>, default: Seq<char>) -> Seq<char> {
    match var {
        Some(v) => "$"@ + v,
        None => default,
    }
}

/// `$VAR` when an environment variable holds the credential, else `default`.
pub fn credential_placeholder(token_env_var: Option<&str>, default: &str) -> (r: String)
    ensures
        r@ == credential_spec(opt_str(token_env_var), default@),
{
    match token_env_var {
        Some(v) => {
            let mut r = String::from_str("$");
            r.append(v);
            r
        },
        None => String::from_str(default),
    }
}

pub open spec fn http_example_spec(auth_line: Seq<char>) -> Seq<char> {
    "```http\nGET /example HTTP/1.1\n"@ + auth_line + "\n```"@
}

/// An HTTP request example carrying `auth_line`.
pub fn http_example(auth_line: &str) -> (r: String)
    ensures
        r@ == http_example_spec(auth_line@),
{
    let mut r = String::from_str("```http\nGET /example HTTP/1.1\n");
    r.append(auth_line);
    r.append("\n```");
    r
}

pub open spec fn scopes_spec(scopes: Seq<(String, String)>) -> Seq<char> {
    if scopes.len() == 0 {
        seq![]
    } else {
        "**Scopes:**\n\n"@ + table_spec(
            seq!["Scope"@, "Description"@],
            scopes.map_values(|s: (String, String)| seq!["`"@ + s.0@ + "`"@, desc_cell_spec(Some(s.1@))]),
        )
    }
}

/// The scope table of a flow, or nothing when it has no scope.
pub fn render_scopes(scopes: &Vec<(String, String)>) -> (r: String)
    ensures
        r@ == scopes_spec(scopes@),
{
    if scopes.len() == 0 {
        return String::new();
    }
    let headers: [&str; 2] = ["Scope", "Description"];
    let mut table = Table::new(&headers);
    assert(str_views(headers@) =~= seq!["Scope"@, "Description"@]);
    let ghost f = |s: (String, String)| seq!["`"@ + s.0@ + "`"@, desc_cell_spec(Some(s.1@))];
    let mut i: usize = 0;
    while i < scopes.len()
        invariant
            i <= scopes@.len(),
            views(table.header_cells@) == padded(seq!["Scope"@, "Description"@]),
            views(table.rows@) == scopes@.take(i as int).map_values(
                |s: (String, String)| row_line(seq!["`"@ + s.0@ + "`"@, desc_cell_spec(Some(s.1@))]),
            ),
        decreases scopes@.len() - i,
    {
        let mut c1 = String::from_str("`");
        c1.append(scopes[i].0.as_str());
        c1.append("`");
        let c2 = desc_cell(Some(scopes[i].1.as_str()));
        let arr: [&str; 2] = [c1.as_str(), c2.as_str()];
        table.row(&arr);
        proof {
            assert(str_views(arr@) =~= seq!["`"@ + scopes@[i as int].0@ + "`"@, desc_cell_spec(Some(scopes@[i as int].1@))]);
            assert(scopes@.take(i + 1) =~= scopes@.take(i as int).push(scopes@[i as int]));
            assert(views(table.rows@) =~= scopes@.take(i + 1).map_values(
                |s: (String, String)| row_line(seq!["`"@ + s.0@ + "`"@, desc_cell_spec(Some(s.1@))]),
            ));
        }
        i += 1;
    }
    assert(scopes@.take(scopes@.len() as int) =~= scopes@);
    let mut out = String::from_str("**Scopes:**\n\n");
    let t = table.finish();
    proof {
        assert(views(table.rows@) =~= scopes@.map_values(|s: (String, String)| seq!["`"@ + s.0@ + "`"@, desc_cell_spec(Some(s.1@))]).map_values(|r: Seq<Seq<char>>| row_line(r)));
    }
    out.append(t.as_str());
    out
}

/// One URL line of a flow: `**{label}:** \`{url}\``.
pub open spec fn url_line(label: Seq<char>, url: Seq<char>) -> Seq<char> {
    "**"@ + label + ":** `"@ + url + "`\n"@
}

pub fn render_url_line(label: &str, url: &str) -> (r: String)
    ensures
        r@ == url_line(label@, url@),
{
    let mut r = String::from_str("**");
    r.append(label);
    r.append(":** `");
    r.append(url);
    r.append("`\n");
    r
}

pub open spec fn implicit_part(f: Option<ImplicitFlow>) -> Seq<char> {
    match f {
        Some(f) => url_line("Authorization URL"@, f.authorization_url@) + "\n"@ + scopes_spec(f.scopes@),
        None => seq![],
    }
}

pub open spec fn token_part(f: Option<TokenFlow>) -> Seq<char> {
    match f {
        Some(f) => url_line("Token URL"@, f.token_url@) + "\n"@ + scopes_spec(f.scopes@),
        None => seq![],
    }
}

pub open spec fn code_part(f: Option<AuthorizationCodeFlow>) -> Seq<char> {
    match f {
        Some(f) => url_line("Authorization URL"@, f.authorization_url@) + url_line("Token URL"@, f.token_url@)
            + "\n"@ + scopes_spec(f.scopes@),
        None => seq![],
    }
}

pub open spec fn flows_spec(flows: Flows) -> Seq<char> {
    implicit_part(flows.implicit) + token_part(flows.password) + token_part(flows.client_credentials)
        + code_part(flows.authorization_code)
}

pub fn render_implicit(f: &Option<ImplicitFlow>) -> (r: String)
    ensures
        r@ == implicit_part(*f),
{
    match f {
        Some(f) => {
            let mut out = render_url_line("Authorization URL", f.authorization_url.as_str());
            out.append("\n");
            let s = render_scopes(&f.scopes);
            out.append(s.as_str());
            out
        },
        None => String::new(),
    }
}

pub fn render_token_flow(f: &Option<TokenFlow>) -> (r: String)
    ensures
        r@ == token_part(*f),
{
    match f {
        Some(f) => {
            let mut out = render_url_line("Token URL", f.token_url.as_str());
            out.append("\n");
            let s = render_scopes(&f.scopes);
            out.append(s.as_str());
            out
        },
        None => String::new(),
    }
}

pub fn render_code_flow(f: &Option<AuthorizationCodeFlow>) -> (r: String)
    ensures
        r@ == code_part(*f),
{
    match f {
        Some(f) => {
            let mut out = render_url_line("Authorization URL", f.authorization_url.as_str());
            let l2 = render_url_line("Token URL", f.token_url.as_str());
            out.append(l2.as_str());
            out.append("\n");
            let s = render_scopes(&f.scopes);
            out.append(s.as_str());
            out
        },
        None => String::new(),
    }
}

/// The URLs and scopes of each OAuth 2.0 flow that is present.
pub fn render_flows(flows: &Flows) -> (r: String)
    ensures
        r@ == flows_spec(*flows),
{
    let mut out = render_implicit(&flows.implicit);
    let p = render_token_flow(&flows.password);
    out.append(p.as_str());
    let c = render_token_flow(&flows.client_credentials);
    out.append(c.as_str());
    let a = render_code_flow(&flows.authorization_code);
    out.append(a.as_str());
    out
}

/// The credential shown for an HTTP scheme when no environment variable is given.
pub open spec fn http_default_placeholder(scheme: Seq<char>) -> Seq<char> {
    if ascii_lower_seq(scheme) == "basic"@ {
        "<base64(username:password)>"@
    } else if ascii_lower_seq(scheme) == "bearer"@ {
        "<token>"@
    } else {
        "<credentials>"@
    }
}

pub open spec fn scheme_spec(name: Seq<char>, scheme: SecurityScheme, var: Option<Seq<char>>) -> Seq<char> {
    match scheme {
        SecurityScheme::ApiKey { description, name: header_name, location } => header_spec(name, opt_view(description))
            + "Add the following header to every request:\n\n"@
            + table_spec(seq!["Header"@, "Value"@], seq![seq!["`"@ + header_name@ + "`"@, "Your API key"@]])
            + "Location: `"@ + location@ + "`\n\n"@ + token_note_spec(var)
            + http_example_spec(header_name@ + ": "@ + credential_spec(var, "your-key-here"@)) + "\n"@,
        SecurityScheme::Http { description, scheme, bearer_format } => header_spec(name, opt_view(description))
            + "HTTP `"@ + scheme@ + "` authentication"@
            + (match bearer_format { Some(f) => " ("@ + f@ + ")"@, None => seq![] })
            + ".\n\n"@ + token_note_spec(var)
            + http_example_spec("Authorization: "@ + capitalized(scheme@) + " "@ + credential_spec(var, http_default_placeholder(scheme@)))
            + "\n"@,
        SecurityScheme::OAuth2 { description, flows } => header_spec(name, opt_view(description))
            + "OAuth 2.0 authentication.\n\n"@ + flows_spec(flows) + "\n"@
            + http_example_spec("Authorization: Bearer <access_token>"@) + "\n"@,
        SecurityScheme::OpenIdConnect { description, open_id_connect_url } => header_spec(name, opt_view(description))
            + "OpenID Connect — discovery URL: `"@ + open_id_connect_url@ + "`\n"@,
        SecurityScheme::MutualTls { description } => header_spec(name, opt_view(description))
            + "Mutual TLS authentication.\n"@,
    }
}

pub fn opt_as_str(o: &Option<String>) -> (r: Option<&str>)
    ensures
        opt_str(r) == opt_view(*o),
{
    match o {
        Some(s) => Some(s.as_str()),
        None => None,
    }
}

/// The file for one security scheme.
pub fn render_scheme(name: &str, scheme: &SecurityScheme, token_env_var: Option<&str>) -> (r: String)
    ensures
        r@ == scheme_spec(name@, *scheme, opt_str(token_env_var)),
{
    match scheme {
        SecurityScheme::ApiKey { description, name: header_name, location } => {
            let mut out = render_header(name, opt_as_str(description));
            out.append("Add the following header to every request:\n\n");
            let headers: [&str; 2] = ["Header", "Value"];
            let mut table = Table::new(&headers);
            let mut c1 = String::from_str("`");
            c1.append(header_name.as_str());
            c1.append("`");
            let arr: [&str; 2] = [c1.as_str(), "Your API key"];
            table.row(&arr);
            proof {
                assert(str_views(headers@) =~= seq!["Header"@, "Value"@]);
                assert(str_views(arr@) =~= seq!["`"@ + header_name@ + "`"@, "Your API key"@]);
                assert(views(table.rows@) =~= seq![seq!["`"@ + header_name@ + "`"@, "Your API key"@]].map_values(|r: Seq<Seq<char>>| row_line(r)));
            }
            let t = table.finish();
            out.append(t.as_str());
            let credential = credential_placeholder(token_env_var, "your-key-here");
            out.append("Location: `");
            out.append(location.as_str());
            out.append("`\n\n");
            let note = token_env_var_note(token_env_var);
            out.append(note.as_str());
            let mut line = header_name.clone();
            line.append(": ");
            line.append(credential.as_str());
            let ex = http_example(line.as_str());
            out.append(ex.as_str());
            out.append("\n");
            out
        },
        SecurityScheme::Http { description, scheme, bearer_format } => {
            let mut out = render_header(name, opt_as_str(description));
            let lower = to_ascii_lower(scheme.as_str());
            let default_placeholder = if str_eq(lower.as_str(), "basic") {
                "<base64(username:password)>"
            } else if str_eq(lower.as_str(), "bearer") {
                "<token>"
            } else {
                "<credentials>"
            };
            let credential = credential_placeholder(token_env_var, default_placeholder);
            out.append("HTTP `");
            out.append(scheme.as_str());
            out.append("` authentication");
            if let Some(f) = bearer_format {
                out.append(" (");
                out.append(f.as_str());
                out.append(")");
            }
            out.append(".\n\n");
            let note = token_env_var_note(token_env_var);
            out.append(note.as_str());
            let mut line = String::from_str("Authorization: ");
            let cap = capitalize_first(scheme.as_str());
            line.append(cap.as_str());
            line.append(" ");
            line.append(credential.as_str());
            let ex = http_example(line.as_str());
            out.append(ex.as_str());
            out.append("\n");
            out
        },
        SecurityScheme::OAuth2 { description, flows } => {
            let mut out = render_header(name, opt_as_str(description));
            out.append("OAuth 2.0 authentication.\n\n");
            let f = render_flows(flows);
            out.append(f.as_str());
            out.append("\n");
            let ex = http_example("Authorization: Bearer <access_token>");
            out.append(ex.as_str());
            out.append("\n");
            out
        },
        SecurityScheme::OpenIdConnect { description, open_id_connect_url } => {
            let mut out = render_header(name, opt_as_str(description));
            out.append("OpenID Connect — discovery URL: `");
            out.append(open_id_connect_url.as_str());
            out.append("`\n");
            out
        },
        SecurityScheme::MutualTls { description } => {
            let mut out = render_header(name, opt_as_str(description));
            out.append("Mutual TLS authentication.\n");
            out
        },
    }
}

/// The file name of a scheme: its name lower-cased, spaces turned into `-`, then `.md`.
pub open spec fn scheme_filename(name: Seq<char>) -> Seq<char> {
    replace_char_seq(unicode_lower(name), ' ', '-') + ".md"@
}

/// The scheme files of the first `n` schemes (references are skipped), then their index links.
pub open spec fn scheme_files(schemes: Seq<(String, Option<SecurityScheme>)>, var: Option<Seq<char>>) -> Seq<(Seq<Seq<char>>, Seq<char>)>
    decreases schemes.len(),
{
    if schemes.len() == 0 {
        seq![]
    } else {
        let prefix = scheme_files(schemes.drop_last(), var);
        match schemes.last().1 {
            Some(s) => prefix.push((
                seq!["authentication"@, scheme_filename(schemes.last().0@)],
                scheme_spec(schemes.last().0@, s, var),
            )),
            None => prefix,
        }
    }
}

/// The index links of the schemes that are not references.
pub open spec fn scheme_links(schemes: Seq<(String, Option<SecurityScheme>)>) -> Seq<(Seq<char>, Seq<char>)>
    decreases schemes.len(),
{
    if schemes.len() == 0 {
        seq![]
    } else {
        let prefix = scheme_links(schemes.drop_last());
        match schemes.last().1 {
            Some(_) => prefix.push((scheme_filename(schemes.last().0@), schemes.last().0@)),
            None => prefix,
        }
    }
}

/// The authentication files of a document: one per scheme and an index, when the document
/// declares any scheme.
pub open spec fn auth_files(spec: Spec, var: Option<Seq<char>>) -> Seq<(Seq<Seq<char>>, Seq<char>)> {
    match spec.components {
        Some(c) => if c.security_schemes@.len() == 0 {
            seq![]
        } else {
            scheme_files(c.security_schemes@, var).push((
                seq!["authentication"@, "index.md"@],
                index_text(scheme_links(c.security_schemes@)),
            ))
        },
        None => seq![],
    }
}

/// Each scheme file sits beside the index, under the name that the index links.
proof fn lemma_scheme_files_match_links(schemes: Seq<(String, Option<SecurityScheme>)>, var: Option<Seq<char>>)
    ensures
        scheme_files(schemes, var).len() == scheme_links(schemes).len(),
        forall|i: int| 0 <= i < scheme_links(schemes).len() ==> (#[trigger] scheme_files(schemes, var)[i]).0
            == seq!["authentication"@, scheme_links(schemes)[i].0],
    decreases schemes.len(),
{
    if schemes.len() > 0 {
        lemma_scheme_files_match_links(schemes.drop_last(), var);
    }
}

/// The authentication index lists every scheme file: the `k`-th file lies under
/// `authentication/` and the index, written last, holds an entry that links it.
pub proof fn lemma_auth_index_lists_every_scheme(spec: Spec, var: Option<Seq<char>>, k: int)
    requires
        spec.components is Some,
        0 <= k < auth_files(spec, var).len() - 1,
    ensures
        auth_files(spec, var).last().0 == seq!["authentication"@, "index.md"@],
        auth_files(spec, var)[k].0 == seq!["authentication"@, scheme_links(spec.components.unwrap().security_schemes@)[k].0],
        contains_seq(
            auth_files(spec, var).last().1,
            index_line(
                scheme_links(spec.components.unwrap().security_schemes@)[k].0,
                scheme_links(spec.components.unwrap().security_schemes@)[k].1,
            ),
        ),
{
    let schemes = spec.components.unwrap().security_schemes@;
    lemma_scheme_files_match_links(schemes, var);
    assert(auth_files(spec, var)[k] == scheme_files(schemes, var)[k]);
    lemma_index_lists_link(scheme_links(schemes), k);
}

/// The two URL lines of an authorization-code flow, one after the other.
pub open spec fn code_flow_urls(f: AuthorizationCodeFlow) -> Seq<char> {
    "**Authorization URL:** `"@ + f.authorization_url@ + "`\n**Token URL:** `"@ + f.token_url@ + "`\n"@
}

proof fn lemma_code_part_opens_with_urls(f: AuthorizationCodeFlow)
    ensures
        is_substring_at(code_part(Some(f)), code_flow_urls(f), 0),
{
    reveal_strlit("**");
    reveal_strlit(":** `");
    reveal_strlit("`\n");
    reveal_strlit("Authorization URL");
    reveal_strlit("Token URL");
    reveal_strlit("**Authorization URL:** `");
    reveal_strlit("`\n**Token URL:** `");
    let pat = code_flow_urls(f);
    assert(url_line("Authorization URL"@, f.authorization_url@) + url_line("Token URL"@, f.token_url@) =~= pat);
    let rest = "\n"@ + scopes_spec(f.scopes@);
    assert(code_part(Some(f)) =~= pat + rest);
    assert((pat + rest).subrange(0, pat.len() as int) =~= pat);
}

proof fn lemma_url_line_text(label: Seq<char>, url: Seq<char>)
    ensures
        label == "Token URL"@ ==> url_line(label, url) == "**Token URL:** `"@ + url + "`\n"@,
        label == "Authorization URL"@ ==> url_line(label, url) == "**Authorization URL:** `"@ + url + "`\n"@,
{
    reveal_strlit("**");
    reveal_strlit(":** `");
    reveal_strlit("Authorization URL");
    reveal_strlit("Token URL");
    reveal_strlit("**Authorization URL:** `");
    reveal_strlit("**Token URL:** `");
    assert("**"@ + "Token URL"@ + ":** `"@ =~= "**Token URL:** `"@);
    assert("**"@ + "Authorization URL"@ + ":** `"@ =~= "**Authorization URL:** `"@);
    assert("**"@ + label + ":** `"@ + url + "`\n"@ =~= ("**"@ + label + ":** `"@) + url + "`\n"@);
}

/// The implicit flow of an OAuth 2.0 scheme names its authorization URL on a line.
#[verifier::rlimit(40)]
pub proof fn lemma_implicit_flow_lists_url(flows: Flows)
    requires
        flows.implicit is Some,
    ensures
        contains_seq(
            flows_spec(flows),
            "**Authorization URL:** `"@ + flows.implicit.unwrap().authorization_url@ + "`\n"@,
        ),
{
    let f = flows.implicit.unwrap();
    lemma_url_line_text("Authorization URL"@, f.authorization_url@);
    let pat = url_line("Authorization URL"@, f.authorization_url@);
    let rest = "\n"@ + scopes_spec(f.scopes@);
    let after = token_part(flows.password) + token_part(flows.client_credentials) + code_part(flows.authorization_code);
    assert(implicit_part(flows.implicit) == pat + rest);
    assert(flows_spec(flows) =~= Seq::<char>::empty() + pat + (rest + after));
    lemma_contains_middle(Seq::<char>::empty(), pat, rest + after);
}

/// The password flow of an OAuth 2.0 scheme names its token URL on a line.
#[verifier::rlimit(40)]
pub proof fn lemma_password_flow_lists_url(flows: Flows)
    requires
        flows.password is Some,
    ensures
        contains_seq(flows_spec(flows), "**Token URL:** `"@ + flows.password.unwrap().token_url@ + "`\n"@),
{
    let f = flows.password.unwrap();
    lemma_url_line_text("Token URL"@, f.token_url@);
    let pat = url_line("Token URL"@, f.token_url@);
    let rest = "\n"@ + scopes_spec(f.scopes@);
    let before = implicit_part(flows.implicit);
    let after = token_part(flows.client_credentials) + code_part(flows.authorization_code);
    assert(token_part(flows.password) == pat + rest);
    assert(flows_spec(flows) =~= before + pat + (rest + after));
    lemma_contains_middle(before, pat, rest + after);
}

/// The client-credentials flow of an OAuth 2.0 scheme names its token URL on a line.
#[verifier::rlimit(40)]
pub proof fn lemma_client_credentials_flow_lists_url(flows: Flows)
    requires
        flows.client_credentials is Some,
    ensures
        contains_seq(flows_spec(flows), "**Token URL:** `"@ + flows.client_credentials.unwrap().token_url@ + "`\n"@),
{
    let f = flows.client_credentials.unwrap();
    lemma_url_line_text("Token URL"@, f.token_url@);
    let pat = url_line("Token URL"@, f.token_url@);
    let rest = "\n"@ + scopes_spec(f.scopes@);
    let before = implicit_part(flows.implicit) + token_part(flows.password);
    let after = code_part(flows.authorization_code);
    assert(token_part(flows.client_credentials) == pat + rest);
    assert(flows_spec(flows) =~= before + pat + (rest + after));
    lemma_contains_middle(before, pat, rest + after);
}

/// The file of an OAuth 2.0 scheme with an authorization-code flow names both of the flow's
/// URLs, one line each: `**Authorization URL:** `...``, then `**Token URL:** `...``.
#[verifier::rlimit(40)]
pub proof fn lemma_code_flow_lists_both_urls(
    name: Seq<char>,
    description: Option<String>,
    flows: Flows,
    var: Option<Seq<char>>,
)
    requires
        flows.authorization_code is Some,
    ensures
        contains_seq(
            scheme_spec(name, SecurityScheme::OAuth2 { description, flows }, var),
            code_flow_urls(flows.authorization_code.unwrap()),
        ),
{
    let f = flows.authorization_code.unwrap();
    let pat = code_flow_urls(f);
    lemma_code_part_opens_with_urls(f);
    let pre = implicit_part(flows.implicit) + token_part(flows.password) + token_part(flows.client_credentials);
    lemma_substring_shift(pre, code_part(Some(f)), pat, 0);
    let fl = flows_spec(flows);
    assert(fl == pre + code_part(Some(f)));
    let head = header_spec(name, opt_view(description)) + "OAuth 2.0 authentication.\n\n"@;
    lemma_substring_shift(head, fl, pat, pre.len() as int);
    let tail = "\n"@ + http_example_spec("Authorization: Bearer <access_token>"@) + "\n"@;
    lemma_substring_extend(head + fl, tail, pat, (head.len() + pre.len()) as int);
    let whole = scheme_spec(name, SecurityScheme::OAuth2 { description, flows }, var);
    assert(whole =~= (head + fl) + tail);
}

impl AuthWriter {
    /// Adds the authentication files.
    pub fn collect_writes(&self, spec: &Spec, writes: &mut Writes)
        ensures
            writes_view(final(writes).entries@) == writes_view(old(writes).entries@) + auth_files(
                *spec,
                opt_view(self.token_env_var),
            ),
    {
        let ghost var = opt_view(self.token_env_var);
        let ghost start = writes_view(writes.entries@);
        let components = match &spec.components {
            Some(c) => c,
            None => {
                assert(writes_view(writes.entries@) =~= start + auth_files(*spec, var));
                return;
            },
        };
        if components.security_schemes.len() == 0 {
            assert(writes_view(writes.entries@) =~= start + auth_files(*spec, var));
            return;
        }
        let schemes = &components.security_schemes;
        let mut links: Vec<(String, String)> = Vec::new();
        let mut i: usize = 0;
        while i < schemes.len()
            invariant
                i <= schemes@.len(),
                var == opt_view(self.token_env_var),
                writes_view(writes.entries@) == start + scheme_files(schemes@.take(i as int), var),
                pair_views(links@) == scheme_links(schemes@.take(i as int)),
            decreases schemes@.len() - i,
        {
            assert(schemes@.take(i + 1).drop_last() =~= schemes@.take(i as int));
            if let Some(scheme) = &schemes[i].1 {
                let name = schemes[i].0.as_str();
                let lower = str_to_lowercase(name);
                let mut filename = replace_char(lower.as_str(), ' ', '-');
                filename.append(".md");
                let content = render_scheme(name, scheme, opt_as_str(&self.token_env_var));
                let path = path2("authentication", filename.as_str());
                let ghost before = writes_view(writes.entries@);
                writes.add(path, content);
                let ghost lbefore = links@;
                links.push((filename, schemes[i].0.clone()));
                assert(pair_views(links@) =~= pair_views(lbefore).push((filename@, schemes@[i as int].0@)));
                assert(writes_view(writes.entries@) =~= start + scheme_files(schemes@.take(i + 1), var));
            }
            i += 1;
        }
        assert(schemes@.take(schemes@.len() as int) =~= schemes@);
        let index = build_index(links.as_slice());
        let path = path2("authentication", "index.md");
        writes.add(path, index);
        assert(writes_view(writes.entries@) =~= start + auth_files(*spec, var));
    }
}

} // verus!
