//! Character-level string helpers with exact contracts over `Seq<char>`.

use vstd::prelude::*;
use vstd::string::*;

verus! {

/// Calls `String::push`: the string afterwards is the old one with `c` appended.
#[verifier::external_body]
pub(crate) fn push_char(s: &mut String, c: char)
    ensures
        final(s)@ == old(s)@.push(c),
{
    s.push(c);
}

/// The characters of `s`, in order.
pub fn chars_of(s: &str) -> (v: Vec<char>)
    ensures
        v@ == s@,
{
    broadcast use vstd::string::group_string_axioms;
    let mut v: Vec<char> = Vec::new();
    for c in it: s.chars()
        invariant
            it.seq() == s@,
            v@ == s@.take(it.index()),
    {
        assert(s@.take(it.index()).push(c) =~= s@.take(it.index() + 1));
        v.push(c);
    }
    assert(s@.take(s@.len() as int) =~= s@);
    v
}

/// A string made of the given characters.
pub fn string_of(cs: &[char]) -> (s: String)
    ensures
        s@ == cs@,
{
    let mut s = String::new();
    let mut i: usize = 0;
    while i < cs.len()
        invariant
            i <= cs@.len(),
            s@ == cs@.take(i as int),
        decreases cs@.len() - i,
    {
        push_char(&mut s, cs[i]);
        assert(cs@.take(i as int).push(cs@[i as int]) =~= cs@.take(i + 1));
        i += 1;
    }
    assert(cs@.take(cs@.len() as int) =~= cs@);
    s
}

pub open spec fn is_substring_at(s: Seq<char>, pat: Seq<char>, i: int) -> bool {
    0 <= i && i + pat.len() <= s.len() && s.subrange(i, i + pat.len()) == pat
}

pub open spec fn contains_seq(s: Seq<char>, pat: Seq<char>) -> bool {
    exists|i: int| is_substring_at(s, pat, i)
}

/// Whether `pat` occurs in `s` at position `i`.
pub fn occurs_at(s: &Vec<char>, pat: &Vec<char>, i: usize) -> (b: bool)
    requires
        i <= s@.len(),
    ensures
        b == is_substring_at(s@, pat@, i as int),
{
    if pat.len() > s.len() - i {
        return false;
    }
    let n = s.len();
    let mut j: usize = 0;
    while j < pat.len()
        invariant
            n == s@.len(),
            i + pat@.len() <= s@.len(),
            i <= s@.len(),
            j <= pat@.len(),
            forall|k: int| 0 <= k < j ==> s@[i + k] == pat@[k],
        decreases pat@.len() - j,
    {
        if s[i + j] != pat[j] {
            assert(s@.subrange(i as int, i + pat@.len())[j as int] != pat@[j as int]);
            return false;
        }
        j += 1;
    }
    assert(s@.subrange(i as int, i + pat@.len()) =~= pat@);
    true
}

} // verus!

verus! {

/// Whether `s` begins with `p`.
pub open spec fn has_prefix(s: Seq<char>, p: Seq<char>) -> bool {
    p.len() <= s.len() && s.take(p.len() as int) == p
}

/// Whether `s` ends with `p`.
pub open spec fn has_suffix(s: Seq<char>, p: Seq<char>) -> bool {
    p.len() <= s.len() && s.skip(s.len() - p.len()) == p
}

pub fn starts_with(s: &str, p: &str) -> (b: bool)
    ensures
        b == has_prefix(s@, p@),
{
    let sv = chars_of(s);
    let pv = chars_of(p);
    if pv.len() > sv.len() {
        return false;
    }
    let r = occurs_at(&sv, &pv, 0);
    assert(sv@.subrange(0, pv@.len() as int) =~= sv@.take(pv@.len() as int));
    r
}

pub fn ends_with(s: &str, p: &str) -> (b: bool)
    ensures
        b == has_suffix(s@, p@),
{
    let sv = chars_of(s);
    let pv = chars_of(p);
    if pv.len() > sv.len() {
        return false;
    }
    let r = occurs_at(&sv, &pv, sv.len() - pv.len());
    assert(sv@.subrange(sv@.len() - pv@.len(), sv@.len() as int) =~= sv@.skip(sv@.len() - pv@.len()));
    r
}

/// `s` without its prefix `p`, when it has that prefix.
pub open spec fn without_prefix(s: Seq<char>, p: Seq<char>) -> Option<Seq<char>> {
    if has_prefix(s, p) {
        Some(s.skip(p.len() as int))
    } else {
        None
    }
}

pub fn strip_prefix(s: &str, p: &str) -> (r: Option<String>)
    ensures
        match r {
            Some(t) => without_prefix(s@, p@) == Some(t@),
            None => without_prefix(s@, p@) is None,
        },
{
    if starts_with(s, p) {
        let sv = chars_of(s);
        let n = p.unicode_len();
        Some(string_of(slice_from(&sv, n)))
    } else {
        None
    }
}

/// The characters of `v` from index `n` on.
pub fn slice_from(v: &Vec<char>, n: usize) -> (r: &[char])
    requires
        n <= v@.len(),
    ensures
        r@ == v@.skip(n as int),
{
    let r = vstd::slice::slice_subrange(v.as_slice(), n, v.len());
    assert(r@ =~= v@.skip(n as int));
    r
}

/// The characters of `v` before index `n`.
pub fn slice_to(v: &Vec<char>, n: usize) -> (r: &[char])
    requires
        n <= v@.len(),
    ensures
        r@ == v@.take(n as int),
{
    let r = vstd::slice::slice_subrange(v.as_slice(), 0, n);
    assert(r@ =~= v@.take(n as int));
    r
}

/// Whether two strings hold the same characters.
pub fn str_eq(a: &str, b: &str) -> (r: bool)
    ensures
        r == (a@ == b@),
{
    let x = String::from_str(a);
    let y = String::from_str(b);
    x == y
}

/// Concatenation of two strings.
pub fn concat2(a: &str, b: &str) -> (r: String)
    ensures
        r@ == a@ + b@,
{
    let mut r = String::from_str(a);
    r.append(b);
    r
}

pub open spec fn ascii_lower(c: char) -> char {
    if 'A' <= c && c <= 'Z' {
        ((c as u32) + 32) as char
    } else {
        c
    }
}

pub open spec fn is_ascii_digit(c: char) -> bool {
    '0' <= c && c <= '9'
}

pub open spec fn is_ascii_alnum(c: char) -> bool {
    ('a' <= c && c <= 'z') || ('A' <= c && c <= 'Z') || is_ascii_digit(c)
}

pub open spec fn ascii_lower_seq(s: Seq<char>) -> Seq<char> {
    s.map_values(|c: char| ascii_lower(c))
}

/// `char::to_ascii_lowercase`: ASCII upper-case letters map to lower case, all else is kept.
pub fn char_to_ascii_lower(c: char) -> (r: char)
    ensures
        r == ascii_lower(c),
{
    if 'A' <= c && c <= 'Z' {
        let b = (c as u8) + 32;
        b as char
    } else {
        c
    }
}

pub fn char_is_ascii_digit(c: char) -> (b: bool)
    ensures
        b == is_ascii_digit(c),
{
    '0' <= c && c <= '9'
}

pub fn char_is_ascii_alnum(c: char) -> (b: bool)
    ensures
        b == is_ascii_alnum(c),
{
    ('a' <= c && c <= 'z') || ('A' <= c && c <= 'Z') || ('0' <= c && c <= '9')
}

/// `str::to_ascii_lowercase`.
pub fn to_ascii_lower(s: &str) -> (r: String)
    ensures
        r@ == ascii_lower_seq(s@),
{
    let v = chars_of(s);
    let mut r = String::new();
    let mut i: usize = 0;
    while i < v.len()
        invariant
            i <= v@.len(),
            v@ == s@,
            r@ == ascii_lower_seq(s@.take(i as int)),
        decreases v@.len() - i,
    {
        let c = char_to_ascii_lower(v[i]);
        push_char(&mut r, c);
        assert(ascii_lower_seq(s@.take(i as int)).push(c) =~= ascii_lower_seq(s@.take(i + 1)));
        i += 1;
    }
    assert(s@.take(v@.len() as int) =~= s@);
    r
}

/// `s` with every `from` replaced by `to`.
pub open spec fn replace_char_seq(s: Seq<char>, from: char, to: char) -> Seq<char> {
    s.map_values(|c: char| if c == from { to } else { c })
}

pub fn replace_char(s: &str, from: char, to: char) -> (r: String)
    ensures
        r@ == replace_char_seq(s@, from, to),
{
    let v = chars_of(s);
    let mut r = String::new();
    let mut i: usize = 0;
    while i < v.len()
        invariant
            i <= v@.len(),
            v@ == s@,
            r@ == replace_char_seq(s@.take(i as int), from, to),
        decreases v@.len() - i,
    {
        let c = if v[i] == from { to } else { v[i] };
        push_char(&mut r, c);
        assert(replace_char_seq(s@.take(i as int), from, to).push(c) =~= replace_char_seq(s@.take(i + 1), from, to));
        i += 1;
    }
    assert(s@.take(v@.len() as int) =~= s@);
    r
}

/// The number of trailing `c` characters of `s`.
pub open spec fn trailing_count(s: Seq<char>, c: char) -> nat
    decreases s.len(),
{
    if s.len() > 0 && s.last() == c {
        1 + trailing_count(s.drop_last(), c)
    } else {
        0
    }
}

/// `s` without its trailing run of `c` (`str::trim_end_matches` with a character).
pub open spec fn trim_end_char_seq(s: Seq<char>, c: char) -> Seq<char>
    decreases s.len(),
{
    if s.len() > 0 && s.last() == c {
        trim_end_char_seq(s.drop_last(), c)
    } else {
        s
    }
}

/// `s` without its leading run of `c` (`str::trim_start_matches` with a character).
pub open spec fn trim_start_char_seq(s: Seq<char>, c: char) -> Seq<char>
    decreases s.len(),
{
    if s.len() > 0 && s[0] == c {
        trim_start_char_seq(s.drop_first(), c)
    } else {
        s
    }
}

pub fn trim_end_char(s: &str, c: char) -> (r: String)
    ensures
        r@ == trim_end_char_seq(s@, c),
{
    let v = chars_of(s);
    let mut n = v.len();
    assert(s@.take(v@.len() as int) =~= s@);
    while n > 0 && v[n - 1] == c
        invariant
            n <= v@.len(),
            v@ == s@,
            trim_end_char_seq(s@, c) == trim_end_char_seq(s@.take(n as int), c),
        decreases n,
    {
        assert(s@.take(n as int).drop_last() =~= s@.take(n - 1));
        n -= 1;
    }
    assert(s@.take(v@.len() as int) =~= s@);
    string_of(slice_to(&v, n))
}

pub fn trim_start_char(s: &str, c: char) -> (r: String)
    ensures
        r@ == trim_start_char_seq(s@, c),
{
    let v = chars_of(s);
    let mut n: usize = 0;
    assert(s@.skip(0) =~= s@);
    while n < v.len() && v[n] == c
        invariant
            n <= v@.len(),
            v@ == s@,
            trim_start_char_seq(s@, c) == trim_start_char_seq(s@.skip(n as int), c),
        decreases v@.len() - n,
    {
        assert(s@.skip(n as int).drop_first() =~= s@.skip(n + 1));
        n += 1;
    }
    assert(s@.skip(0) =~= s@);
    string_of(slice_from(&v, n))
}

} // verus!

verus! {

/// The pieces of `s` between occurrences of `sep`, as `(finished pieces, piece in progress)`,
/// with empty pieces left out.
pub open spec fn split_state(s: Seq<char>, sep: char) -> (Seq<Seq<char>>, Seq<char>)
    decreases s.len(),
{
    if s.len() == 0 {
        (seq![], seq![])
    } else {
        let (parts, cur) = split_state(s.drop_last(), sep);
        if s.last() == sep {
            if cur.len() > 0 {
                (parts.push(cur), seq![])
            } else {
                (parts, seq![])
            }
        } else {
            (parts, cur.push(s.last()))
        }
    }
}

/// `s.split(sep).filter(|p| !p.is_empty())`: the non-empty pieces of `s` between `sep`s.
pub open spec fn nonempty_pieces(s: Seq<char>, sep: char) -> Seq<Seq<char>> {
    let (parts, cur) = split_state(s, sep);
    if cur.len() > 0 {
        parts.push(cur)
    } else {
        parts
    }
}

/// The pieces joined with `sep` between consecutive ones (`[..].join(sep)`).
pub open spec fn join_seqs(parts: Seq<Seq<char>>, sep: Seq<char>) -> Seq<char>
    decreases parts.len(),
{
    if parts.len() == 0 {
        seq![]
    } else if parts.len() == 1 {
        parts[0]
    } else {
        join_seqs(parts.drop_last(), sep) + sep + parts.last()
    }
}

/// A text framed by two others occurs in the whole, right after the first.
pub proof fn lemma_contains_middle(a: Seq<char>, p: Seq<char>, b: Seq<char>)
    ensures
        is_substring_at(a + p + b, p, a.len() as int),
        contains_seq(a + p + b, p),
{
    assert((a + p + b).subrange(a.len() as int, (a.len() + p.len()) as int) =~= p);
}

/// An occurrence in a text stays one after another text is put in front.
pub proof fn lemma_substring_shift(a: Seq<char>, b: Seq<char>, p: Seq<char>, i: int)
    requires
        is_substring_at(b, p, i),
    ensures
        is_substring_at(a + b, p, a.len() + i),
{
    assert((a + b).subrange(a.len() + i, a.len() + i + p.len()) =~= b.subrange(i, i + p.len()));
}

pub proof fn lemma_substring_extend(a: Seq<char>, b: Seq<char>, p: Seq<char>, i: int)
    requires
        is_substring_at(a, p, i),
    ensures
        is_substring_at(a + b, p, i),
{
    assert((a + b).subrange(i, i + p.len()) =~= a.subrange(i, i + p.len()));
}

/// Each part of a joined list occurs in the joined text.
pub proof fn lemma_join_contains_part(parts: Seq<Seq<char>>, sep: Seq<char>, k: int)
    requires
        0 <= k < parts.len(),
    ensures
        contains_seq(join_seqs(parts, sep), parts[k]),
    decreases parts.len(),
{
    let j = join_seqs(parts, sep);
    if parts.len() == 1 {
        assert(j.subrange(0, parts[0].len() as int) =~= parts[0]);
        assert(is_substring_at(j, parts[k], 0));
    } else if k == parts.len() - 1 {
        let pre = join_seqs(parts.drop_last(), sep) + sep;
        assert(j == pre + parts.last());
        assert(j.subrange(pre.len() as int, (pre.len() + parts[k].len()) as int) =~= parts[k]);
        assert(is_substring_at(j, parts[k], pre.len() as int));
    } else {
        lemma_join_contains_part(parts.drop_last(), sep, k);
        let inner = join_seqs(parts.drop_last(), sep);
        assert(parts.drop_last()[k] == parts[k]);
        let i = choose|i: int| is_substring_at(inner, parts[k], i);
        lemma_substring_extend(inner, sep + parts.last(), parts[k], i);
        assert(j == inner + (sep + parts.last()));
        assert(is_substring_at(j, parts[k], i));
    }
}

/// The character sequences of a list of strings.
pub open spec fn views(v: Seq<String>) -> Seq<Seq<char>> {
    v.map_values(|x: String| x@)
}

/// The non-empty pieces of `s` between occurrences of `sep`.
pub fn split_nonempty(s: &str, sep: char) -> (r: Vec<String>)
    ensures
        views(r@) == nonempty_pieces(s@, sep),
{
    let v = chars_of(s);
    let mut parts: Vec<String> = Vec::new();
    let mut cur = String::new();
    let mut i: usize = 0;
    while i < v.len()
        invariant
            i <= v@.len(),
            v@ == s@,
            (views(parts@), cur@) == split_state(s@.take(i as int), sep),
        decreases v@.len() - i,
    {
        let c = v[i];
        assert(s@.take(i + 1).drop_last() =~= s@.take(i as int));
        if c == sep {
            if cur.unicode_len() > 0 {
                let done = cur;
                parts.push(done);
                cur = String::new();
                assert(views(parts@) =~= split_state(s@.take(i as int), sep).0.push(done@));
            }
        } else {
            push_char(&mut cur, c);
        }
        i += 1;
    }
    assert(s@.take(v@.len() as int) =~= s@);
    if cur.unicode_len() > 0 {
        let last = cur;
        parts.push(last);
        assert(views(parts@) =~= split_state(s@, sep).0.push(last@));
    }
    parts
}

/// The strings joined with `sep` between consecutive ones.
pub fn join(parts: &Vec<String>, sep: &str) -> (r: String)
    ensures
        r@ == join_seqs(views(parts@), sep@),
{
    let mut r = String::new();
    let mut i: usize = 0;
    while i < parts.len()
        invariant
            i <= parts@.len(),
            r@ == join_seqs(views(parts@.take(i as int)), sep@),
        decreases parts@.len() - i,
    {
        assert(views(parts@.take(i + 1)).drop_last() =~= views(parts@.take(i as int)));
        if i > 0 {
            r.append(sep);
        }
        r.append(parts[i].as_str());
        i += 1;
    }
    assert(parts@.take(parts@.len() as int) =~= parts@);
    r
}

/// Whether `c` is an ASCII character.
pub open spec fn is_ascii_char(c: char) -> bool {
    (c as u32) < 128
}

/// Whether every character of `s` is ASCII.
pub open spec fn all_ascii(s: Seq<char>) -> bool {
    forall|i: int| 0 <= i < s.len() ==> is_ascii_char(#[trigger] s[i])
}

/// The ASCII upper-case form of `c`: `a` to `z` become `A` to `Z`, anything else is kept.
pub open spec fn ascii_upper(c: char) -> char {
    if 'a' <= c && c <= 'z' {
        ((c as u32) - 32) as char
    } else {
        c
    }
}

/// What `char::is_alphanumeric` answers for a character beyond ASCII.
pub uninterp spec fn alphanumeric_beyond_ascii(c: char) -> bool;

/// What `char::is_uppercase` answers for a character beyond ASCII.
pub uninterp spec fn uppercase_beyond_ascii(c: char) -> bool;

/// What `char::is_whitespace` answers for a character beyond ASCII.
pub uninterp spec fn white_space_beyond_ascii(c: char) -> bool;

/// The characters that `char::to_uppercase` yields for a character beyond ASCII.
pub uninterp spec fn upper_beyond_ascii(c: char) -> Seq<char>;

/// What `str::to_lowercase` returns for a text that holds a character beyond ASCII.
pub uninterp spec fn lower_beyond_ascii(s: Seq<char>) -> Seq<char>;

/// `char::is_alphanumeric`: on ASCII, the letters and digits.
pub open spec fn unicode_alphanumeric(c: char) -> bool {
    if is_ascii_char(c) {
        is_ascii_alnum(c)
    } else {
        alphanumeric_beyond_ascii(c)
    }
}

/// `char::is_uppercase`: on ASCII, `A` to `Z`.
pub open spec fn unicode_uppercase(c: char) -> bool {
    if is_ascii_char(c) {
        'A' <= c && c <= 'Z'
    } else {
        uppercase_beyond_ascii(c)
    }
}

/// `char::is_whitespace`: on ASCII, space and the controls from tab to carriage return.
pub open spec fn unicode_white_space(c: char) -> bool {
    if is_ascii_char(c) {
        c == ' ' || ('\t' <= c && c <= '\r')
    } else {
        white_space_beyond_ascii(c)
    }
}

/// `char::to_uppercase`: on ASCII, the one ASCII upper-case character.
pub open spec fn unicode_upper(c: char) -> Seq<char> {
    if is_ascii_char(c) {
        seq![ascii_upper(c)]
    } else {
        upper_beyond_ascii(c)
    }
}

/// `str::to_lowercase`: on an ASCII text, the text with `A` to `Z` lower-cased.
pub open spec fn unicode_lower(s: Seq<char>) -> Seq<char> {
    if all_ascii(s) {
        ascii_lower_seq(s)
    } else {
        lower_beyond_ascii(s)
    }
}

/// `char::is_alphanumeric` (Unicode `Alphabetic` or `Numeric`): on ASCII exactly the letters
/// and digits; beyond ASCII its answer is named, not stated.
#[verifier::external_body]
pub(crate) fn char_is_alphanumeric(c: char) -> (b: bool)
    ensures
        b == unicode_alphanumeric(c),
        !is_ascii_char(c) ==> b == alphanumeric_beyond_ascii(c),
{
    c.is_alphanumeric()
}

/// `char::is_uppercase` (Unicode `Uppercase`): on ASCII exactly `A` to `Z`; beyond ASCII its
/// answer is named, not stated.
#[verifier::external_body]
pub(crate) fn char_is_uppercase(c: char) -> (b: bool)
    ensures
        b == unicode_uppercase(c),
        !is_ascii_char(c) ==> b == uppercase_beyond_ascii(c),
{
    c.is_uppercase()
}

/// `char::is_whitespace` (Unicode `White_Space`): on ASCII exactly space, tab, line feed,
/// vertical tab, form feed and carriage return; beyond ASCII its answer is named, not stated.
#[verifier::external_body]
pub(crate) fn char_is_whitespace(c: char) -> (b: bool)
    ensures
        b == unicode_white_space(c),
        !is_ascii_char(c) ==> b == white_space_beyond_ascii(c),
{
    c.is_whitespace()
}

/// The characters of `char::to_uppercase(c)`, collected: on ASCII the one upper-case ASCII
/// character; beyond ASCII they are named, not stated.
#[verifier::external_body]
pub(crate) fn char_to_uppercase(c: char) -> (s: String)
    ensures
        s@ == unicode_upper(c),
        !is_ascii_char(c) ==> s@ == upper_beyond_ascii(c),
{
    c.to_uppercase().collect()
}

/// `str::to_lowercase`: on an ASCII text, `A` to `Z` lower-cased and everything else kept;
/// for a text beyond ASCII the result is named, not stated.
#[verifier::external_body]
pub(crate) fn str_to_lowercase(s: &str) -> (r: String)
    ensures
        r@ == unicode_lower(s@),
        !all_ascii(s@) ==> r@ == lower_beyond_ascii(s@),
{
    s.to_lowercase()
}

/// The number of leading characters of `s` that are white space.
pub open spec fn leading_ws(s: Seq<char>) -> nat
    decreases s.len(),
{
    if s.len() > 0 && unicode_white_space(s[0]) {
        1 + leading_ws(s.drop_first())
    } else {
        0
    }
}

/// `s` without leading and trailing white space (`str::trim`).
pub open spec fn trimmed(s: Seq<char>) -> Seq<char>
    decreases s.len(),
{
    if s.len() > 0 && unicode_white_space(s[0]) {
        trimmed(s.drop_first())
    } else if s.len() > 0 && unicode_white_space(s.last()) {
        trimmed(s.drop_last())
    } else {
        s
    }
}

proof fn lemma_trimmed_window(s: Seq<char>, lo: int, hi: int)
    requires
        0 <= lo <= hi <= s.len(),
        forall|k: int| 0 <= k < lo ==> unicode_white_space(#[trigger] s[k]),
        forall|k: int| hi <= k < s.len() ==> unicode_white_space(#[trigger] s[k]),
        lo < hi ==> !unicode_white_space(s[lo]) && !unicode_white_space(s[hi - 1]),
    ensures
        trimmed(s) == s.subrange(lo, hi),
    decreases s.len(),
{
    if s.len() > 0 && unicode_white_space(s[0]) {
        assert(lo > 0 || lo == hi);
        if lo > 0 {
            lemma_trimmed_window(s.drop_first(), lo - 1, hi - 1);
            assert(s.drop_first().subrange(lo - 1, hi - 1) =~= s.subrange(lo, hi));
        } else {
            // everything is white space
            lemma_trimmed_window(s.drop_first(), 0, 0);
            assert(s.drop_first().subrange(0, 0) =~= s.subrange(lo, hi));
        }
    } else if s.len() > 0 && unicode_white_space(s.last()) {
        if hi < s.len() {
            lemma_trimmed_window(s.drop_last(), lo, hi);
            assert(s.drop_last().subrange(lo, hi) =~= s.subrange(lo, hi));
        } else {
            assert(lo == hi);
            lemma_trimmed_window(s.drop_last(), lo, lo);
            assert(s.drop_last().subrange(lo, lo) =~= s.subrange(lo, hi));
        }
    } else {
        if lo > 0 {
            assert(unicode_white_space(s[0]));
        }
        if hi < s.len() {
            assert(unicode_white_space(s[s.len() - 1]));
        }
        assert(s.subrange(0, s.len() as int) =~= s);
    }
}

/// `str::trim`.
pub fn trim(s: &str) -> (r: String)
    ensures
        r@ == trimmed(s@),
{
    let v = chars_of(s);
    let mut lo: usize = 0;
    while lo < v.len() && char_is_whitespace(v[lo])
        invariant
            lo <= v@.len(),
            v@ == s@,
            forall|k: int| 0 <= k < lo ==> unicode_white_space(#[trigger] s@[k]),
        decreases v@.len() - lo,
    {
        lo += 1;
    }
    let mut hi: usize = v.len();
    while hi > lo && char_is_whitespace(v[hi - 1])
        invariant
            lo <= hi <= v@.len(),
            v@ == s@,
            forall|k: int| hi <= k < s@.len() ==> unicode_white_space(#[trigger] s@[k]),
        decreases hi,
    {
        hi -= 1;
    }
    proof {
        lemma_trimmed_window(s@, lo as int, hi as int);
    }
    let part = vstd::slice::slice_subrange(v.as_slice(), lo, hi);
    assert(part@ =~= s@.subrange(lo as int, hi as int));
    string_of(part)
}

pub open spec fn digit_char(d: nat) -> char
    recommends
        d < 10,
{
    (('0' as u32) + d) as char
}

/// The decimal notation of `n`, without leading zeros.
pub open spec fn decimal(n: nat) -> Seq<char>
    decreases n,
{
    if n < 10 {
        seq![digit_char(n)]
    } else {
        decimal(n / 10).push(digit_char(n % 10))
    }
}

/// `n` written in decimal.
pub fn u64_to_decimal(n: u64) -> (r: String)
    ensures
        r@ == decimal(n as nat),
    decreases n,
{
    let d = (n % 10) as u8;
    let c = (48u8 + d) as char;
    if n < 10 {
        let mut r = String::new();
        push_char(&mut r, c);
        assert(r@ =~= seq![digit_char(n as nat)]);
        r
    } else {
        let mut r = u64_to_decimal(n / 10);
        push_char(&mut r, c);
        r
    }
}

pub open spec fn hex_char(d: nat) -> char
    recommends
        d < 16,
{
    if d < 10 {
        (('0' as u32) + d) as char
    } else {
        (('a' as u32) + d - 10) as char
    }
}

/// The last `k` lower-case hexadecimal digits of `n`, zero-padded to exactly `k` digits.
pub open spec fn hex_digits(n: nat, k: nat) -> Seq<char>
    decreases k,
{
    if k == 0 {
        seq![]
    } else {
        hex_digits(n / 16, (k - 1) as nat).push(hex_char(n % 16))
    }
}

/// `format!("{:0k$x}", n)` for the last `k` digits: the last `k` lower-case hex digits of `n`.
pub fn to_hex_digits(n: u64, k: u32) -> (r: String)
    ensures
        r@ == hex_digits(n as nat, k as nat),
    decreases k,
{
    if k == 0 {
        return String::new();
    }
    let mut r = to_hex_digits(n / 16, k - 1);
    let d = (n % 16) as u8;
    let c = if d < 10 { (48u8 + d) as char } else { (97u8 + d - 10) as char };
    push_char(&mut r, c);
    r
}

/// The number of bytes of the UTF-8 encoding of `s`.
pub open spec fn utf8_len(s: Seq<char>) -> nat {
    vstd::utf8::encode_utf8(s).len()
}

pub open spec fn char_width(c: char) -> nat {
    vstd::utf8::encode_scalar(c as u32).len()
}

proof fn lemma_utf8_len_push(s: Seq<char>, c: char)
    ensures
        utf8_len(s.push(c)) == utf8_len(s) + char_width(c),
    decreases s.len(),
{
    if s.len() == 0 {
        assert(s.push(c).drop_first() =~= Seq::<char>::empty());
        assert(vstd::utf8::encode_utf8(Seq::<char>::empty()) =~= Seq::<u8>::empty());
    } else {
        assert(s.push(c).drop_first() =~= s.drop_first().push(c));
        lemma_utf8_len_push(s.drop_first(), c);
    }
}

/// The UTF-8 length of a concatenation is the sum of the lengths.
pub proof fn lemma_utf8_len_append(a: Seq<char>, b: Seq<char>)
    ensures
        utf8_len(a + b) == utf8_len(a) + utf8_len(b),
    decreases b.len(),
{
    if b.len() == 0 {
        assert(a + b =~= a);
        assert(vstd::utf8::encode_utf8(b) =~= Seq::<u8>::empty());
    } else {
        lemma_utf8_len_append(a, b.drop_last());
        assert(a + b =~= (a + b.drop_last()).push(b.last()));
        lemma_utf8_len_push(a + b.drop_last(), b.last());
        assert(b =~= b.drop_last().push(b.last()));
        lemma_utf8_len_push(b.drop_last(), b.last());
    }
}

/// An ASCII character takes one byte.
pub proof fn lemma_ascii_width(c: char)
    requires
        (c as u32) <= 0x7F,
    ensures
        char_width(c) == 1,
        utf8_len(seq![c]) == 1,
{
    lemma_utf8_len_push(Seq::<char>::empty(), c);
    assert(Seq::<char>::empty().push(c) =~= seq![c]);
    assert(vstd::utf8::encode_utf8(Seq::<char>::empty()) =~= Seq::<u8>::empty());
}

/// The UTF-8 width of `c`, in bytes.
pub fn char_byte_width(c: char) -> (w: usize)
    ensures
        w == char_width(c),
        1 <= w <= 4,
{
    let v = c as u32;
    if v <= 0x7F {
        1
    } else if v <= 0x7FF {
        2
    } else if v <= 0xFFFF {
        3
    } else {
        4
    }
}

/// The longest prefix of `s` whose UTF-8 encoding fits in `max` bytes.
pub open spec fn truncated_to_bytes(s: Seq<char>, max: nat) -> Seq<char>
    decreases s.len(),
{
    if utf8_len(s) <= max || s.len() == 0 {
        s
    } else {
        truncated_to_bytes(s.drop_last(), max)
    }
}

proof fn lemma_utf8_len_prefix_mono(s: Seq<char>, i: int, j: int)
    requires
        0 <= i <= j <= s.len(),
    ensures
        utf8_len(s.take(i)) <= utf8_len(s.take(j)),
    decreases j - i,
{
    if i < j {
        lemma_utf8_len_prefix_mono(s, i, j - 1);
        assert(s.take(j - 1).push(s[j - 1]) =~= s.take(j));
        lemma_utf8_len_push(s.take(j - 1), s[j - 1]);
    }
}

proof fn lemma_truncated_prefix(s: Seq<char>, max: nat, k: int)
    requires
        0 <= k <= s.len(),
        utf8_len(s.take(k)) <= max,
        k == s.len() || utf8_len(s.take(k + 1)) > max,
    ensures
        truncated_to_bytes(s, max) == s.take(k),
    decreases s.len(),
{
    if k == s.len() {
        assert(s.take(k) =~= s);
    } else {
        lemma_utf8_len_prefix_mono(s, k + 1, s.len() as int);
        assert(s.take(s.len() as int) =~= s);
        assert(s.drop_last().take(k) =~= s.take(k));
        if k + 1 <= s.len() - 1 {
            assert(s.drop_last().take(k + 1) =~= s.take(k + 1));
        }
        lemma_truncated_prefix(s.drop_last(), max, k);
    }
}

/// A truncation fits in its budget.
pub proof fn lemma_truncated_fits(s: Seq<char>, max: nat)
    ensures
        utf8_len(truncated_to_bytes(s, max)) <= max,
    decreases s.len(),
{
    if utf8_len(s) > max {
        if s.len() == 0 {
            assert(vstd::utf8::encode_utf8(s) =~= Seq::<u8>::empty());
        } else {
            lemma_truncated_fits(s.drop_last(), max);
        }
    }
}

/// `k` hexadecimal digits take `k` bytes.
pub proof fn lemma_hex_digits_len(n: nat, k: nat)
    ensures
        utf8_len(hex_digits(n, k)) == k,
    decreases k,
{
    if k == 0 {
        assert(vstd::utf8::encode_utf8(hex_digits(n, k)) =~= Seq::<u8>::empty());
    } else {
        lemma_hex_digits_len(n / 16, (k - 1) as nat);
        let c = hex_char(n % 16);
        assert((c as u32) <= 0x7F);
        lemma_ascii_width(c);
        lemma_utf8_len_push(hex_digits(n / 16, (k - 1) as nat), c);
    }
}

/// The longest prefix of `s` that is at most `max` bytes long in UTF-8: a cut at a character
/// boundary.
pub fn truncate_at_char_boundary(s: &str, max: usize) -> (r: String)
    ensures
        r@ == truncated_to_bytes(s@, max as nat),
        utf8_len(r@) <= max,
{
    let v = chars_of(s);
    let mut k: usize = 0;
    let mut used: usize = 0;
    assert(s@.take(0) =~= Seq::<char>::empty());
    assert(vstd::utf8::encode_utf8(Seq::<char>::empty()) =~= Seq::<u8>::empty());
    while k < v.len()
        invariant
            k <= v@.len(),
            v@ == s@,
            used == utf8_len(s@.take(k as int)),
            used <= max,
        ensures
            k <= v@.len(),
            v@ == s@,
            used == utf8_len(s@.take(k as int)),
            used <= max,
            k == v@.len() || utf8_len(s@.take(k + 1)) > max,
        decreases v@.len() - k,
    {
        let w = char_byte_width(v[k]);
        proof {
            assert(s@.take(k as int).push(s@[k as int]) =~= s@.take(k + 1));
            lemma_utf8_len_push(s@.take(k as int), s@[k as int]);
        }
        if w > max - used {
            break;
        }
        used = used + w;
        k += 1;
    }
    proof {
        lemma_truncated_prefix(s@, max as nat, k as int);
    }
    string_of(slice_to(&v, k))
}

} // verus!

verus! {

/// The UTF-8 length of `s` in bytes, when it is at most `cap`.
pub fn utf8_len_upto(s: &str, cap: usize) -> (r: Option<usize>)
    ensures
        match r {
            Some(n) => n == utf8_len(s@) && n <= cap,
            None => utf8_len(s@) > cap,
        },
{
    let v = chars_of(s);
    let mut used: usize = 0;
    let mut k: usize = 0;
    assert(s@.take(0) =~= Seq::<char>::empty());
    assert(vstd::utf8::encode_utf8(Seq::<char>::empty()) =~= Seq::<u8>::empty());
    while k < v.len()
        invariant
            k <= v@.len(),
            v@ == s@,
            used == utf8_len(s@.take(k as int)),
            used <= cap,
        decreases v@.len() - k,
    {
        let w = char_byte_width(v[k]);
        proof {
            assert(s@.take(k as int).push(s@[k as int]) =~= s@.take(k + 1));
            lemma_utf8_len_push(s@.take(k as int), s@[k as int]);
        }
        if w > cap - used {
            proof {
                lemma_utf8_len_prefix_mono(s@, k + 1, s@.len() as int);
                assert(s@.take(s@.len() as int) =~= s@);
            }
            return None;
        }
        used = used + w;
        k += 1;
    }
    assert(s@.take(v@.len() as int) =~= s@);
    Some(used)
}

} // verus!

verus! {

/// The index of the first `c` in `s`.
pub open spec fn first_index(s: Seq<char>, c: char) -> Option<int>
    decreases s.len(),
{
    if s.len() == 0 {
        None
    } else if s[0] == c {
        Some(0)
    } else {
        match first_index(s.drop_first(), c) {
            Some(i) => Some(i + 1),
            None => None,
        }
    }
}

/// The index of the last `c` in `s`.
pub open spec fn last_index(s: Seq<char>, c: char) -> Option<int>
    decreases s.len(),
{
    if s.len() == 0 {
        None
    } else if s.last() == c {
        Some(s.len() - 1)
    } else {
        last_index(s.drop_last(), c)
    }
}

pub proof fn lemma_first_index(s: Seq<char>, c: char)
    ensures
        match first_index(s, c) {
            Some(i) => 0 <= i < s.len() && s[i] == c && forall|k: int| 0 <= k < i ==> s[k] != c,
            None => forall|k: int| 0 <= k < s.len() ==> s[k] != c,
        },
    decreases s.len(),
{
    if s.len() > 0 {
        lemma_first_index(s.drop_first(), c);
        if s[0] != c {
            match first_index(s.drop_first(), c) {
                Some(i) => {
                    assert forall|k: int| 0 <= k < i + 1 implies s[k] != c by {
                        if k > 0 {
                            assert(s[k] == s.drop_first()[k - 1]);
                        }
                    }
                },
                None => {
                    assert forall|k: int| 0 <= k < s.len() implies s[k] != c by {
                        if k > 0 {
                            assert(s[k] == s.drop_first()[k - 1]);
                        }
                    }
                },
            }
        }
    }
}

pub proof fn lemma_last_index(s: Seq<char>, c: char)
    ensures
        match last_index(s, c) {
            Some(i) => 0 <= i < s.len() && s[i] == c && forall|k: int| i < k < s.len() ==> s[k] != c,
            None => forall|k: int| 0 <= k < s.len() ==> s[k] != c,
        },
    decreases s.len(),
{
    if s.len() > 0 {
        lemma_last_index(s.drop_last(), c);
        if s.last() != c {
            assert forall|k: int| 0 <= k < s.len() - 1 implies s[k] == s.drop_last()[k] by {}
        }
    }
}

/// The index of the first `c` in `v`.
pub fn find_first(v: &Vec<char>, c: char) -> (r: Option<usize>)
    ensures
        match r {
            Some(i) => first_index(v@, c) == Some(i as int) && i < v@.len(),
            None => first_index(v@, c) is None,
        },
{
    proof { lemma_first_index(v@, c); }
    let mut i: usize = 0;
    while i < v.len()
        invariant
            i <= v@.len(),
            forall|k: int| 0 <= k < i ==> v@[k] != c,
            match first_index(v@, c) {
                Some(j) => 0 <= j < v@.len() && v@[j] == c && forall|k: int| 0 <= k < j ==> v@[k] != c,
                None => forall|k: int| 0 <= k < v@.len() ==> v@[k] != c,
            },
        decreases v@.len() - i,
    {
        if v[i] == c {
            return Some(i);
        }
        i += 1;
    }
    None
}

/// The index of the last `c` in `v`.
pub fn find_last(v: &Vec<char>, c: char) -> (r: Option<usize>)
    ensures
        match r {
            Some(i) => last_index(v@, c) == Some(i as int) && i < v@.len(),
            None => last_index(v@, c) is None,
        },
{
    proof { lemma_last_index(v@, c); }
    let mut i: usize = v.len();
    while i > 0
        invariant
            i <= v@.len(),
            forall|k: int| i <= k < v@.len() ==> v@[k] != c,
            match last_index(v@, c) {
                Some(j) => 0 <= j < v@.len() && v@[j] == c && forall|k: int| j < k < v@.len() ==> v@[k] != c,
                None => forall|k: int| 0 <= k < v@.len() ==> v@[k] != c,
            },
        decreases i,
    {
        if v[i - 1] == c {
            return Some(i - 1);
        }
        i -= 1;
    }
    None
}

/// Whether `s` is one of the strings of `v`.
pub fn contains_string(v: &Vec<String>, s: &str) -> (b: bool)
    ensures
        b == views(v@).contains(s@),
{
    let mut i: usize = 0;
    while i < v.len()
        invariant
            i <= v@.len(),
            forall|k: int| 0 <= k < i ==> v@[k]@ != s@,
        decreases v@.len() - i,
    {
        if str_eq(v[i].as_str(), s) {
            assert(views(v@)[i as int] == s@);
            return true;
        }
        i += 1;
    }
    assert(!views(v@).contains(s@)) by {
        if views(v@).contains(s@) {
            let k = choose|k: int| 0 <= k < views(v@).len() && views(v@)[k] == s@;
            assert(v@[k]@ == s@);
        }
    }
    false
}

/// Lexicographic order on character sequences, by code point. It is the order of `str`'s
/// `<`: UTF-8 encoding preserves the order of code points.
pub open spec fn seq_lt(a: Seq<char>, b: Seq<char>) -> bool
    decreases a.len(),
{
    if a.len() == 0 {
        b.len() > 0
    } else if b.len() == 0 {
        false
    } else if (a[0] as int) < (b[0] as int) {
        true
    } else if a[0] == b[0] {
        seq_lt(a.drop_first(), b.drop_first())
    } else {
        false
    }
}

pub proof fn lemma_seq_lt_irreflexive(a: Seq<char>)
    ensures
        !seq_lt(a, a),
    decreases a.len(),
{
    if a.len() > 0 {
        lemma_seq_lt_irreflexive(a.drop_first());
    }
}

pub proof fn lemma_seq_lt_transitive(a: Seq<char>, b: Seq<char>, c: Seq<char>)
    requires
        seq_lt(a, b),
        seq_lt(b, c),
    ensures
        seq_lt(a, c),
    decreases a.len(),
{
    if a.len() > 0 && b.len() > 0 && c.len() > 0 && a[0] == b[0] && b[0] == c[0] {
        lemma_seq_lt_transitive(a.drop_first(), b.drop_first(), c.drop_first());
    }
}

pub proof fn lemma_seq_lt_total(a: Seq<char>, b: Seq<char>)
    requires
        a != b,
    ensures
        seq_lt(a, b) || seq_lt(b, a),
    decreases a.len(),
{
    if a.len() > 0 && b.len() > 0 && a[0] == b[0] {
        if a.drop_first() == b.drop_first() {
            assert(a =~= seq![a[0]] + a.drop_first());
            assert(b =~= seq![b[0]] + b.drop_first());
        }
        lemma_seq_lt_total(a.drop_first(), b.drop_first());
    } else if a.len() == 0 && b.len() == 0 {
        assert(a =~= b);
    } else if a.len() > 0 && b.len() > 0 {
        assert((a[0] as int) != (b[0] as int));
    }
}

/// Whether `a` sorts before `b`, as `str`'s `<` orders them.
pub fn str_lt(a: &str, b: &str) -> (r: bool)
    ensures
        r == seq_lt(a@, b@),
{
    let av = chars_of(a);
    let bv = chars_of(b);
    let mut i: usize = 0;
    assert(av@.skip(0) =~= av@);
    assert(bv@.skip(0) =~= bv@);
    while i < av.len() && i < bv.len()
        invariant
            i <= av@.len(),
            i <= bv@.len(),
            av@ == a@,
            bv@ == b@,
            av@.take(i as int) == bv@.take(i as int),
            seq_lt(a@, b@) == seq_lt(av@.skip(i as int), bv@.skip(i as int)),
        decreases av@.len() - i,
    {
        let x = av[i];
        let y = bv[i];
        assert(av@.skip(i as int)[0] == x);
        assert(bv@.skip(i as int)[0] == y);
        if x < y {
            return true;
        }
        if x != y {
            return false;
        }
        assert(av@.skip(i as int).drop_first() =~= av@.skip(i + 1));
        assert(bv@.skip(i as int).drop_first() =~= bv@.skip(i + 1));
        assert(av@.take(i + 1) =~= av@.take(i as int).push(x));
        assert(bv@.take(i + 1) =~= bv@.take(i as int).push(y));
        i += 1;
    }
    i < bv.len()
}

} // verus!
