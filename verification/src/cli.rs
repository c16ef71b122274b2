//! The command line as the library sees it.

use vstd::prelude::*;
use vstd::string::*;
use crate::text::chars_of;

verus! {

/// A letter that may open a URI scheme.
pub open spec fn is_ascii_alpha(c: char) -> bool {
    ('a' <= c && c <= 'z') || ('A' <= c && c <= 'Z')
}

/// A character that may follow the first one in a URI scheme: a letter, a digit, `+`, `.`
/// or `-`.
pub open spec fn is_scheme_char(c: char) -> bool {
    is_ascii_alpha(c) || ('0' <= c && c <= '9') || c == '+' || c == '.' || c == '-'
}

/// Whether, from position `i` on, `url` holds scheme characters up to a `://`.
pub open spec fn scheme_rest(url: Seq<char>, i: int) -> bool
    decreases url.len() - i,
{
    if i < 0 || i >= url.len() {
        false
    } else if i + 3 <= url.len() && url.subrange(i, i + 3) == "://"@ {
        true
    } else if is_scheme_char(url[i]) {
        scheme_rest(url, i + 1)
    } else {
        false
    }
}

/// Whether `url` opens with a URI scheme and `://`: a letter, then letters, digits, `+`, `.`
/// or `-`, then `://`.
pub open spec fn has_scheme(url: Seq<char>) -> bool {
    url.len() > 0 && is_ascii_alpha(url[0]) && scheme_rest(url, 1)
}

/// `url` as a server base: kept when it opens with a scheme, else prefixed with `https://`.
pub open spec fn normalized_server_url(url: Seq<char>) -> Seq<char> {
    if has_scheme(url) {
        url
    } else {
        "https://"@ + url
    }
}

/// Normalizing twice changes nothing: a normalized URL opens with a scheme.
pub proof fn lemma_normalize_idempotent(url: Seq<char>)
    ensures
        normalized_server_url(normalized_server_url(url)) == normalized_server_url(url),
{
    if !has_scheme(url) {
        reveal_strlit("https://");
        reveal_strlit("://");
        let n = "https://"@ + url;
        assert(n.subrange(5, 8) =~= "://"@);
        assert(scheme_rest(n, 5));
        assert(n.subrange(4, 7) != "://"@) by {
            assert(n.subrange(4, 7)[0] == 's');
        }
        assert(scheme_rest(n, 4));
        assert(n.subrange(3, 6) != "://"@) by {
            assert(n.subrange(3, 6)[0] == 'p');
        }
        assert(scheme_rest(n, 3));
        assert(n.subrange(2, 5) != "://"@) by {
            assert(n.subrange(2, 5)[0] == 't');
        }
        assert(scheme_rest(n, 2));
        assert(n.subrange(1, 4) != "://"@) by {
            assert(n.subrange(1, 4)[0] == 't');
        }
        assert(scheme_rest(n, 1));
        assert(has_scheme(n));
    }
}

/// Whether `url` opens with a URI scheme and `://`.
pub fn starts_with_scheme(url: &str) -> (b: bool)
    ensures
        b == has_scheme(url@),
{
    let cs = chars_of(url);
    let n = cs.len();
    if n == 0 {
        return false;
    }
    let c0 = cs[0];
    if !(('a' <= c0 && c0 <= 'z') || ('A' <= c0 && c0 <= 'Z')) {
        return false;
    }
    let mut i: usize = 1;
    while i < n
        invariant
            1 <= i <= n,
            n == cs@.len(),
            cs@ == url@,
            is_ascii_alpha(url@[0]),
            scheme_rest(url@, i as int) == scheme_rest(url@, 1),
        decreases n - i,
    {
        if n - i >= 3 && cs[i] == ':' && cs[i + 1] == '/' && cs[i + 2] == '/' {
            proof {
                reveal_strlit("://");
                assert(url@.subrange(i as int, i + 3) =~= "://"@);
                assert(scheme_rest(url@, i as int));
            }
            return true;
        }
        proof {
            reveal_strlit("://");
            if n - i >= 3 {
                assert(url@.subrange(i as int, i + 3) != "://"@) by {
                    let sub = url@.subrange(i as int, i + 3);
                    if sub == "://"@ {
                        assert(sub[0] == ':' && sub[1] == '/' && sub[2] == '/');
                    }
                }
            }
        }
        let c = cs[i];
        if !(('a' <= c && c <= 'z') || ('A' <= c && c <= 'Z') || ('0' <= c && c <= '9') || c == '+'
            || c == '.' || c == '-') {
            return false;
        }
        i += 1;
    }
    false
}

/// Prepends `https://` to a server URL that does not open with a scheme.
pub fn normalize_server_url(url: &str) -> (r: String)
    ensures
        r@ == normalized_server_url(url@),
{
    if starts_with_scheme(url) {
        url.to_owned()
    } else {
        let mut r = String::from_str("https://");
        r.append(url);
        r
    }
}

} // verus!

verus! {

/// The command line as the library sees it. `output_dir` is the directory as displayed.
pub struct CliConfig {
    pub path_or_url: String,
    pub output_dir: Option<String>,
    pub verbose: bool,
    pub force: bool,
    pub server: Vec<String>,
}

/// The words of the command before the `--server` options.
pub open spec fn fixed_words(cfg: CliConfig, program: Seq<char>) -> Seq<Seq<char>> {
    let base = seq![program, cfg.path_or_url@];
    let with_dir = match cfg.output_dir {
        Some(d) => base + seq!["--output-dir"@, d@],
        None => base,
    };
    let with_verbose = if cfg.verbose { with_dir.push("--verbose"@) } else { with_dir };
    if cfg.force { with_verbose.push("--force"@) } else { with_verbose }
}

pub open spec fn server_words(s: Seq<char>) -> Seq<Seq<char>> {
    seq!["--server"@, s]
}

/// The words of the command that the config stands for.
pub open spec fn command_words(cfg: CliConfig, program: Seq<char>) -> Seq<Seq<char>> {
    fixed_words(cfg, program) + crate::text::views(cfg.server@).map_values(|s: Seq<char>| server_words(s)).flatten()
}

impl CliConfig {
    /// Rebuilds an invocation command from the parsed config: the words separated by spaces.
    pub fn to_command_string(&self, program: &str) -> (r: String)
        ensures
            r@ == crate::text::join_seqs(command_words(*self, program@), " "@),
    {
        let mut parts: Vec<String> = Vec::new();
        parts.push(String::from_str(program));
        parts.push(self.path_or_url.clone());
        if let Some(dir) = &self.output_dir {
            parts.push(String::from_str("--output-dir"));
            parts.push(dir.clone());
        }
        if self.verbose {
            parts.push(String::from_str("--verbose"));
        }
        if self.force {
            parts.push(String::from_str("--force"));
        }
        let ghost fixed = crate::text::views(parts@);
        let ghost servers = crate::text::views(self.server@);
        assert(fixed =~= fixed_words(*self, program@));
        let mut i: usize = 0;
        while i < self.server.len()
            invariant
                i <= self.server@.len(),
                servers == crate::text::views(self.server@),
                crate::text::views(parts@) == fixed + servers.take(i as int).map_values(|s: Seq<char>| server_words(s)).flatten(),
            decreases self.server@.len() - i,
        {
            let ghost before = parts@;
            parts.push(String::from_str("--server"));
            parts.push(self.server[i].clone());
            proof {
                assert(servers.take(i + 1).map_values(|s: Seq<char>| server_words(s)) =~= servers.take(i as int).map_values(|s: Seq<char>| server_words(s)).push(server_words(servers[i as int])));
                servers.take(i as int).map_values(|s: Seq<char>| server_words(s)).lemma_flatten_push(server_words(servers[i as int]));
                assert(crate::text::views(parts@) =~= crate::text::views(before).push("--server"@).push(servers[i as int]));
                assert(crate::text::views(parts@) =~= fixed + servers.take(i + 1).map_values(|s: Seq<char>| server_words(s)).flatten());
            }
            i += 1;
        }
        assert(servers.take(servers.len() as int) =~= servers);
        crate::text::join(&parts, " ")
    }
}

} // verus!
