//! File, directory and skill names derived from the document.

use vstd::prelude::*;
use vstd::string::*;
use crate::model::Operation;
use crate::text::{
    ascii_lower, char_is_alphanumeric, char_is_ascii_alnum, char_is_ascii_digit,
    char_is_uppercase, char_to_ascii_lower, char_to_uppercase, chars_of, concat2, is_ascii_alnum,
    is_ascii_digit, join, join_seqs, nonempty_pieces, push_char, split_state, replace_char, replace_char_seq,
    split_nonempty, str_eq, string_of, slice_from, str_to_lowercase, to_hex_digits, hex_digits,
    trim_end_char, trim_end_char_seq, trim_start_char, trim_start_char_seq,
    truncate_at_char_boundary, truncated_to_bytes, unicode_alphanumeric, utf8_len_upto, unicode_lower,
    unicode_upper, unicode_uppercase, utf8_len, views, lemma_ascii_width, lemma_hex_digits_len,
    lemma_truncated_fits, lemma_utf8_len_append,
};

verus! {

/// The longest endpoint file name, in bytes, that the writers produce when they can.
pub const MAX_FILENAME_LEN: usize = 200;

/// A path segment of the form `v` followed by one or more ASCII digits (`v1`, `v20`).
pub open spec fn is_version_segment_spec(s: Seq<char>) -> bool {
    &&& s.len() > 1
    &&& s[0] == 'v'
    &&& forall|i: int| 1 <= i < s.len() ==> is_ascii_digit(#[trigger] s[i])
}

pub fn is_version_segment(segment: &str) -> (b: bool)
    ensures
        b == is_version_segment_spec(segment@),
{
    let v = chars_of(segment);
    if v.len() <= 1 || v[0] != 'v' {
        return false;
    }
    let mut i: usize = 1;
    while i < v.len()
        invariant
            1 <= i <= v@.len(),
            v@ == segment@,
            forall|k: int| 1 <= k < i ==> is_ascii_digit(#[trigger] v@[k]),
        decreases v@.len() - i,
    {
        if !char_is_ascii_digit(v[i]) {
            return false;
        }
        i += 1;
    }
    true
}

/// The first non-version segment among `segs`, if any.
pub open spec fn first_non_version(segs: Seq<Seq<char>>) -> Option<Seq<char>>
    decreases segs.len(),
{
    if segs.len() == 0 {
        None
    } else if !is_version_segment_spec(segs[0]) {
        Some(segs[0])
    } else {
        first_non_version(segs.drop_first())
    }
}

/// The category slug of an operation: its first tag, else the first non-version segment of
/// its path, else `general`.
pub open spec fn op_category_spec(tags: Seq<Seq<char>>, path: Seq<char>) -> Seq<char> {
    if tags.len() > 0 {
        snake_case(tags[0])
    } else {
        match first_non_version(nonempty_pieces(path, '/')) {
            Some(seg) => snake_case(seg),
            None => "general"@,
        }
    }
}

/// The category slug an operation's file lands under: its first tag, else the first
/// non-version path segment, else `general`.
pub fn op_category(op: &Operation, path: &str) -> (r: String)
    ensures
        r@ == op_category_spec(views(op.tags@), path@),
{
    if op.tags.len() > 0 {
        assert(views(op.tags@)[0] == op.tags@[0]@);
        return to_snake_case(op.tags[0].as_str());
    }
    assert(views(op.tags@).len() == 0);
    let segs = split_nonempty(path, '/');
    let mut i: usize = 0;
    assert(views(segs@).skip(0) =~= views(segs@));
    while i < segs.len()
        invariant
            i <= segs@.len(),
            views(segs@) == nonempty_pieces(path@, '/'),
            views(op.tags@).len() == 0,
            first_non_version(views(segs@)) == first_non_version(views(segs@).skip(i as int)),
        decreases segs@.len() - i,
    {
        assert(views(segs@).skip(i as int).drop_first() =~= views(segs@).skip(i + 1));
        assert(views(segs@).skip(i as int)[0] == segs@[i as int]@);
        if !is_version_segment(segs[i].as_str()) {
            assert(first_non_version(views(segs@).skip(i as int)) == Some(segs@[i as int]@));
            return to_snake_case(segs[i].as_str());
        }
        i += 1;
    }
    String::from_str("general")
}

/// `s` with its first character upper-cased.
pub open spec fn capitalized(s: Seq<char>) -> Seq<char> {
    if s.len() == 0 {
        s
    } else {
        unicode_upper(s[0]) + s.drop_first()
    }
}

pub fn capitalize_first(s: &str) -> (r: String)
    ensures
        r@ == capitalized(s@),
{
    let v = chars_of(s);
    if v.len() == 0 {
        return String::new();
    }
    let mut r = char_to_uppercase(v[0]);
    let rest = string_of(slice_from(&v, 1));
    r.append(rest.as_str());
    r
}

pub open spec fn category_label_spec(slug: Seq<char>) -> Seq<char> {
    capitalized(replace_char_seq(slug, '_', ' ')) + " endpoints"@
}

/// `admin_users` becomes `Admin users endpoints`.
pub fn category_label(slug: &str) -> (r: String)
    ensures
        r@ == category_label_spec(slug@),
{
    let spaced = replace_char(slug, '_', ' ');
    let mut r = capitalize_first(spaced.as_str());
    r.append(" endpoints");
    r
}

/// The last of `pieces` that is not `.`, if any.
pub open spec fn last_non_dot(pieces: Seq<Seq<char>>) -> Option<Seq<char>>
    decreases pieces.len(),
{
    if pieces.len() == 0 {
        None
    } else if pieces.last() != "."@ {
        Some(pieces.last())
    } else {
        last_non_dot(pieces.drop_last())
    }
}

/// The last normal component of a `/`-separated path (`Path::file_name`): `None` when the
/// path has no component other than `.`, or ends in `..`.
pub open spec fn path_file_name(path: Seq<char>) -> Option<Seq<char>> {
    match last_non_dot(nonempty_pieces(path, '/')) {
        Some(c) => if c == ".."@ { None } else { Some(c) },
        None => None,
    }
}

/// `Path::file_name` of a `/`-separated path.
pub fn file_name(path: &str) -> (r: Option<String>)
    ensures
        match r {
            Some(n) => path_file_name(path@) == Some(n@),
            None => path_file_name(path@) is None,
        },
{
    let segs = split_nonempty(path, '/');
    let mut n = segs.len();
    assert(views(segs@).take(n as int) =~= views(segs@));
    while n > 0 && str_eq(segs[n - 1].as_str(), ".")
        invariant
            n <= segs@.len(),
            views(segs@) == nonempty_pieces(path@, '/'),
            last_non_dot(views(segs@)) == last_non_dot(views(segs@).take(n as int)),
        decreases n,
    {
        assert(views(segs@).take(n as int).drop_last() =~= views(segs@).take(n - 1));
        n -= 1;
    }
    if n == 0 {
        return None;
    }
    assert(views(segs@).take(n as int).last() == segs@[n - 1]@);
    if str_eq(segs[n - 1].as_str(), "..") {
        None
    } else {
        Some(segs[n - 1].clone())
    }
}

/// The skill's name: the output directory's name when one is given, else `api-` and the
/// dashed title.
pub open spec fn infer_skill_name_spec(title: Seq<char>, output_dir: Option<Seq<char>>) -> Seq<char> {
    match output_dir {
        Some(dir) => match path_file_name(dir) {
            Some(name) => name,
            None => "api-"@ + dashed_case(title),
        },
        None => "api-"@ + dashed_case(title),
    }
}

pub fn infer_skill_name(title: &str, output_dir: Option<&str>) -> (r: String)
    ensures
        r@ == infer_skill_name_spec(title@, match output_dir { Some(d) => Some(d@), None => None }),
{
    if let Some(dir) = output_dir {
        if let Some(name) = file_name(dir) {
            return name;
        }
    }
    let dashed = to_dashed_case(title);
    concat2("api-", dashed.as_str())
}

/// The unaccented letter for an accented Latin letter; any other character is kept.
pub open spec fn unaccented(c: char) -> char {
    if c == 'à' || c == 'á' || c == 'â' || c == 'ã' || c == 'ä' || c == 'å' || c == 'À' || c == 'Á'
        || c == 'Â' || c == 'Ã' || c == 'Ä' || c == 'Å' {
        'a'
    } else if c == 'è' || c == 'é' || c == 'ê' || c == 'ë' || c == 'È' || c == 'É' || c == 'Ê'
        || c == 'Ë' {
        'e'
    } else if c == 'ì' || c == 'í' || c == 'î' || c == 'ï' || c == 'Ì' || c == 'Í' || c == 'Î'
        || c == 'Ï' {
        'i'
    } else if c == 'ò' || c == 'ó' || c == 'ô' || c == 'õ' || c == 'ö' || c == 'ø' || c == 'Ò'
        || c == 'Ó' || c == 'Ô' || c == 'Õ' || c == 'Ö' || c == 'Ø' {
        'o'
    } else if c == 'ù' || c == 'ú' || c == 'û' || c == 'ü' || c == 'Ù' || c == 'Ú' || c == 'Û'
        || c == 'Ü' {
        'u'
    } else if c == 'ý' || c == 'ÿ' || c == 'Ý' {
        'y'
    } else if c == 'ñ' || c == 'Ñ' {
        'n'
    } else if c == 'ç' || c == 'Ç' {
        'c'
    } else if c == 'ß' {
        's'
    } else {
        c
    }
}

pub fn unaccent_char(c: char) -> (r: char)
    ensures
        r == unaccented(c),
{
    match c {
        'à' | 'á' | 'â' | 'ã' | 'ä' | 'å' | 'À' | 'Á' | 'Â' | 'Ã' | 'Ä' | 'Å' => 'a',
        'è' | 'é' | 'ê' | 'ë' | 'È' | 'É' | 'Ê' | 'Ë' => 'e',
        'ì' | 'í' | 'î' | 'ï' | 'Ì' | 'Í' | 'Î' | 'Ï' => 'i',
        'ò' | 'ó' | 'ô' | 'õ' | 'ö' | 'ø' | 'Ò' | 'Ó' | 'Ô' | 'Õ' | 'Ö' | 'Ø' => 'o',
        'ù' | 'ú' | 'û' | 'ü' | 'Ù' | 'Ú' | 'Û' | 'Ü' => 'u',
        'ý' | 'ÿ' | 'Ý' => 'y',
        'ñ' | 'Ñ' => 'n',
        'ç' | 'Ç' => 'c',
        'ß' => 's',
        _ => c,
    }
}

pub open spec fn unaccented_seq(s: Seq<char>) -> Seq<char> {
    s.map_values(|c: char| unaccented(c))
}

/// Replaces accented Latin letters by their base letter.
pub fn strip_accents(s: &str) -> (r: String)
    ensures
        r@ == unaccented_seq(s@),
{
    let v = chars_of(s);
    let mut r = String::new();
    let mut i: usize = 0;
    while i < v.len()
        invariant
            i <= v@.len(),
            v@ == s@,
            r@ == unaccented_seq(s@.take(i as int)),
        decreases v@.len() - i,
    {
        let c = unaccent_char(v[i]);
        push_char(&mut r, c);
        assert(unaccented_seq(s@.take(i as int)).push(c) =~= unaccented_seq(s@.take(i + 1)));
        i += 1;
    }
    assert(s@.take(v@.len() as int) =~= s@);
    r
}

/// Which characters a separated case keeps.
pub open spec fn kept(c: char, unicode: bool) -> bool {
    if unicode {
        unicode_alphanumeric(c)
    } else {
        is_ascii_alnum(c)
    }
}

/// Kept characters lower-cased (ASCII), every other character turned into `sep`.
pub open spec fn separated_map(s: Seq<char>, sep: char, unicode: bool) -> Seq<char> {
    s.map_values(|c: char| if kept(c, unicode) { ascii_lower(c) } else { sep })
}

/// Lower-cases kept characters and collapses every other run into a single `sep`, with none
/// at either end.
pub open spec fn separated_case_spec(s: Seq<char>, sep: char, unicode: bool) -> Seq<char> {
    join_seqs(nonempty_pieces(separated_map(s, sep, unicode), sep), seq![sep])
}

pub fn separated_case(s: &str, sep: char, unicode: bool) -> (r: String)
    ensures
        r@ == separated_case_spec(s@, sep, unicode),
{
    let v = chars_of(s);
    let mut mapped = String::new();
    let mut i: usize = 0;
    while i < v.len()
        invariant
            i <= v@.len(),
            v@ == s@,
            mapped@ == separated_map(s@.take(i as int), sep, unicode),
        decreases v@.len() - i,
    {
        let c = v[i];
        let keep = if unicode { char_is_alphanumeric(c) } else { char_is_ascii_alnum(c) };
        let m = if keep { char_to_ascii_lower(c) } else { sep };
        push_char(&mut mapped, m);
        assert(separated_map(s@.take(i as int), sep, unicode).push(m) =~= separated_map(s@.take(i + 1), sep, unicode));
        i += 1;
    }
    assert(s@.take(v@.len() as int) =~= s@);
    let parts = split_nonempty(mapped.as_str(), sep);
    let mut sep_str = String::new();
    push_char(&mut sep_str, sep);
    assert(sep_str@ =~= seq![sep]);
    join(&parts, sep_str.as_str())
}

/// No two separators side by side, and none at either end.
pub open spec fn cleanly_separated(r: Seq<char>, sep: char) -> bool {
    &&& r.len() > 0 ==> r[0] != sep && r.last() != sep
    &&& forall|i: int| 0 <= i < r.len() - 1 ==> !(#[trigger] r[i] == sep && r[i + 1] == sep)
}

proof fn lemma_split_state_pieces(s: Seq<char>, sep: char)
    ensures
        forall|k: int| 0 <= k < split_state(s, sep).0.len() ==> (#[trigger] split_state(s, sep).0[k]).len() > 0
            && !split_state(s, sep).0[k].contains(sep),
        !split_state(s, sep).1.contains(sep),
    decreases s.len(),
{
    if s.len() > 0 {
        lemma_split_state_pieces(s.drop_last(), sep);
        let (parts, cur) = split_state(s.drop_last(), sep);
        if s.last() != sep {
            assert forall|j: int| 0 <= j < cur.push(s.last()).len() implies cur.push(s.last())[j] != sep by {
                if j < cur.len() {
                    assert(cur.push(s.last())[j] == cur[j]);
                }
            }
        }
    }
}

proof fn lemma_join_clean(parts: Seq<Seq<char>>, sep: char)
    requires
        forall|k: int| 0 <= k < parts.len() ==> (#[trigger] parts[k]).len() > 0 && !parts[k].contains(sep),
    ensures
        cleanly_separated(join_seqs(parts, seq![sep]), sep),
    decreases parts.len(),
{
    let r = join_seqs(parts, seq![sep]);
    if parts.len() == 1 {
        assert(!parts[0].contains(sep));
        assert(r[0] != sep);
        assert(r.last() != sep);
    } else if parts.len() > 1 {
        lemma_join_clean(parts.drop_last(), sep);
        let pre = join_seqs(parts.drop_last(), seq![sep]);
        let last = parts.last();
        assert(parts.drop_last()[0] == parts[0]);
        assert(!last.contains(sep));
        assert(r == pre + seq![sep] + last);
        assert(pre.len() > 0) by {
            lemma_join_nonempty(parts.drop_last(), sep);
        }
        assert(r[0] == pre[0]);
        assert(r.last() == last.last());
        assert forall|i: int| 0 <= i < r.len() - 1 implies !(#[trigger] r[i] == sep && r[i + 1] == sep) by {
            if i < pre.len() - 1 {
                assert(r[i] == pre[i] && r[i + 1] == pre[i + 1]);
            } else if i == pre.len() - 1 {
                assert(r[i] == pre.last());
            } else if i == pre.len() {
                assert(r[i + 1] == last[0]);
            } else {
                assert(r[i] == last[i - pre.len() - 1]);
            }
        }
    }
}

proof fn lemma_join_nonempty(parts: Seq<Seq<char>>, sep: char)
    requires
        parts.len() > 0,
        forall|k: int| 0 <= k < parts.len() ==> (#[trigger] parts[k]).len() > 0,
    ensures
        join_seqs(parts, seq![sep]).len() > 0,
    decreases parts.len(),
{
    if parts.len() > 1 {
        lemma_join_nonempty(parts.drop_last(), sep);
    }
}

/// A separated case collapses every run of other characters into one separator: the result
/// never holds two separators side by side, nor one at either end.
pub proof fn lemma_separated_case_clean(s: Seq<char>, sep: char, unicode: bool)
    ensures
        cleanly_separated(separated_case_spec(s, sep, unicode), sep),
{
    let m = separated_map(s, sep, unicode);
    lemma_split_state_pieces(m, sep);
    let (parts, cur) = split_state(m, sep);
    let pieces = nonempty_pieces(m, sep);
    assert forall|k: int| 0 <= k < pieces.len() implies (#[trigger] pieces[k]).len() > 0 && !pieces[k].contains(sep) by {
        if k < parts.len() {
            assert(pieces[k] == parts[k]);
        }
    }
    lemma_join_clean(pieces, sep);
}

pub open spec fn dashed_case(s: Seq<char>) -> Seq<char> {
    separated_case_spec(unaccented_seq(s), '-', false)
}

pub open spec fn snake_case(s: Seq<char>) -> Seq<char> {
    separated_case_spec(s, '_', true)
}

/// A character that dashed case can produce: a lower-case ASCII letter, a digit or `-`.
pub open spec fn is_dashed_char(c: char) -> bool {
    ('a' <= c && c <= 'z') || ('0' <= c && c <= '9') || c == '-'
}

/// Every piece of a split holds only characters of the text other than the separator.
proof fn lemma_split_state_chars(x: Seq<char>, sep: char)
    ensures
        forall|k: int, j: int| 0 <= k < split_state(x, sep).0.len() && 0 <= j < split_state(x, sep).0[k].len()
            ==> x.contains(#[trigger] split_state(x, sep).0[k][j]),
        forall|j: int| 0 <= j < split_state(x, sep).1.len() ==> x.contains(#[trigger] split_state(x, sep).1[j]),
    decreases x.len(),
{
    if x.len() > 0 {
        lemma_split_state_chars(x.drop_last(), sep);
        let (parts, cur) = split_state(x.drop_last(), sep);
        assert forall|c: char| x.drop_last().contains(c) implies x.contains(c) by {
            let i = choose|i: int| 0 <= i < x.drop_last().len() && x.drop_last()[i] == c;
            assert(x[i] == c);
        }
        assert(x.contains(x.last())) by {
            assert(x[x.len() - 1] == x.last());
        }
        if x.last() == sep {
            if cur.len() > 0 {
                let ps = parts.push(cur);
                assert forall|k: int, j: int| 0 <= k < ps.len() && 0 <= j < ps[k].len() implies x.contains(#[trigger] ps[k][j]) by {
                    if k < parts.len() {
                        assert(ps[k] == parts[k]);
                        assert(x.drop_last().contains(parts[k][j]));
                    } else {
                        assert(x.drop_last().contains(cur[j]));
                    }
                }
            } else {
                assert forall|k: int, j: int| 0 <= k < parts.len() && 0 <= j < parts[k].len() implies x.contains(#[trigger] parts[k][j]) by {
                    assert(x.drop_last().contains(parts[k][j]));
                }
            }
        } else {
            let c2 = cur.push(x.last());
            assert forall|j: int| 0 <= j < c2.len() implies x.contains(#[trigger] c2[j]) by {
                if j < cur.len() {
                    assert(c2[j] == cur[j]);
                    assert(x.drop_last().contains(cur[j]));
                }
            }
            assert forall|k: int, j: int| 0 <= k < parts.len() && 0 <= j < parts[k].len() implies x.contains(#[trigger] parts[k][j]) by {
                assert(x.drop_last().contains(parts[k][j]));
            }
        }
    }
}

/// Splitting text that ends in a piece without separators leaves that piece in progress.
proof fn lemma_split_state_append(x: Seq<char>, y: Seq<char>, sep: char)
    requires
        !y.contains(sep),
    ensures
        split_state(x + y, sep) == (split_state(x, sep).0, split_state(x, sep).1 + y),
    decreases y.len(),
{
    if y.len() == 0 {
        assert(x + y =~= x);
        assert(split_state(x, sep).1 + y =~= split_state(x, sep).1);
    } else {
        assert(!y.drop_last().contains(sep)) by {
            if y.drop_last().contains(sep) {
                let i = choose|i: int| 0 <= i < y.drop_last().len() && y.drop_last()[i] == sep;
                assert(y[i] == sep);
            }
        }
        lemma_split_state_append(x, y.drop_last(), sep);
        assert((x + y).drop_last() =~= x + y.drop_last());
        assert((x + y).last() == y.last());
        assert(y.last() != sep) by {
            assert(y[y.len() - 1] == y.last());
        }
        assert((split_state(x, sep).1 + y.drop_last()).push(y.last()) =~= split_state(x, sep).1 + y);
    }
}

/// Splitting pieces joined by the separator gives the pieces back.
proof fn lemma_split_join(pieces: Seq<Seq<char>>, sep: char)
    requires
        forall|k: int| 0 <= k < pieces.len() ==> (#[trigger] pieces[k]).len() > 0 && !pieces[k].contains(sep),
    ensures
        nonempty_pieces(join_seqs(pieces, seq![sep]), sep) == pieces,
        pieces.len() > 0 ==> split_state(join_seqs(pieces, seq![sep]), sep) == (pieces.drop_last(), pieces.last()),
    decreases pieces.len(),
{
    if pieces.len() == 0 {
        assert(nonempty_pieces(seq![], sep) =~= pieces);
    } else if pieces.len() == 1 {
        let e: Seq<char> = seq![];
        lemma_split_state_append(e, pieces[0], sep);
        assert(e + pieces[0] =~= pieces[0]);
        assert(e + pieces[0] =~= pieces[0]);
        assert(pieces.drop_last() =~= Seq::<Seq<char>>::empty());
        assert(seq![pieces[0]] =~= pieces);
        assert(Seq::<Seq<char>>::empty().push(pieces[0]) =~= pieces);
    } else {
        let pre = pieces.drop_last();
        assert forall|k: int| 0 <= k < pre.len() implies (#[trigger] pre[k]).len() > 0 && !pre[k].contains(sep) by {
            assert(pre[k] == pieces[k]);
        }
        lemma_split_join(pre, sep);
        let jp = join_seqs(pre, seq![sep]);
        let withsep = jp + seq![sep];
        assert(withsep.drop_last() =~= jp);
        assert(withsep.last() == sep);
        assert(pre.last().len() > 0) by {
            assert(pre.last() == pieces[pieces.len() - 2]);
        }
        assert(split_state(withsep, sep) == (pre.drop_last().push(pre.last()), Seq::<char>::empty()));
        assert(pre.drop_last().push(pre.last()) =~= pre);
        let last = pieces.last();
        assert(!last.contains(sep)) by {
            assert(last == pieces[pieces.len() - 1]);
        }
        lemma_split_state_append(withsep, last, sep);
        assert(join_seqs(pieces, seq![sep]) == withsep + last);
        assert(Seq::<char>::empty() + last =~= last);
        assert(last.len() > 0) by {
            assert(last == pieces[pieces.len() - 1]);
        }
        assert(pre.push(last) =~= pieces);
    }
}

/// Dashed case holds only lower-case ASCII letters, digits and `-`, never two `-` side by
/// side nor one at either end, and applying it again changes nothing.
pub proof fn lemma_dashed_case_charset_idempotent(s: Seq<char>)
    ensures
        forall|i: int| 0 <= i < dashed_case(s).len() ==> is_dashed_char(#[trigger] dashed_case(s)[i]),
        cleanly_separated(dashed_case(s), '-'),
        dashed_case(dashed_case(s)) == dashed_case(s),
{
    let sep = '-';
    let m = separated_map(unaccented_seq(s), sep, false);
    assert forall|i: int| 0 <= i < m.len() implies is_dashed_char(#[trigger] m[i]) by {}
    lemma_split_state_pieces(m, sep);
    lemma_split_state_chars(m, sep);
    let (parts, cur) = split_state(m, sep);
    let pieces = nonempty_pieces(m, sep);
    assert forall|k: int| 0 <= k < pieces.len() implies (#[trigger] pieces[k]).len() > 0 && !pieces[k].contains(sep) by {
        if k < parts.len() {
            assert(pieces[k] == parts[k]);
        }
    }
    assert forall|k: int, j: int| 0 <= k < pieces.len() && 0 <= j < pieces[k].len() implies is_dashed_char(#[trigger] pieces[k][j]) by {
        if k < parts.len() {
            assert(pieces[k] == parts[k]);
            assert(m.contains(parts[k][j]));
        } else {
            assert(m.contains(cur[j]));
        }
    }
    let r = join_seqs(pieces, seq![sep]);
    assert(r == dashed_case(s));
    lemma_separated_case_clean(unaccented_seq(s), sep, false);
    lemma_join_chars(pieces, sep);
    // applying it again
    assert(unaccented_seq(r) =~= r);
    assert(separated_map(r, sep, false) =~= r);
    lemma_split_join(pieces, sep);
}

/// The characters of pieces joined by a separator are the pieces' characters or the separator.
proof fn lemma_join_chars(pieces: Seq<Seq<char>>, sep: char)
    requires
        forall|k: int, j: int| 0 <= k < pieces.len() && 0 <= j < pieces[k].len() ==> is_dashed_char(#[trigger] pieces[k][j]),
        is_dashed_char(sep),
    ensures
        forall|i: int| 0 <= i < join_seqs(pieces, seq![sep]).len() ==> is_dashed_char(#[trigger] join_seqs(pieces, seq![sep])[i]),
    decreases pieces.len(),
{
    let r = join_seqs(pieces, seq![sep]);
    if pieces.len() == 1 {
        assert forall|i: int| 0 <= i < r.len() implies is_dashed_char(#[trigger] r[i]) by {
            assert(r[i] == pieces[0][i]);
        }
    } else if pieces.len() > 1 {
        let pre = pieces.drop_last();
        assert forall|k: int, j: int| 0 <= k < pre.len() && 0 <= j < pre[k].len() implies is_dashed_char(#[trigger] pre[k][j]) by {
            assert(pre[k] == pieces[k]);
        }
        lemma_join_chars(pre, sep);
        let jp = join_seqs(pre, seq![sep]);
        let last = pieces.last();
        assert(r == jp + seq![sep] + last);
        assert forall|i: int| 0 <= i < r.len() implies is_dashed_char(#[trigger] r[i]) by {
            if i < jp.len() {
                assert(r[i] == jp[i]);
            } else if i == jp.len() {
                assert(r[i] == sep);
            } else {
                assert(r[i] == last[i - jp.len() - 1]);
                assert(last == pieces[pieces.len() - 1]);
            }
        }
    }
}

/// ASCII kebab case without accents: `My REST API` becomes `my-rest-api`.
pub fn to_dashed_case(s: &str) -> (r: String)
    ensures
        r@ == dashed_case(s@),
{
    let plain = strip_accents(s);
    separated_case(plain.as_str(), '-', false)
}

/// Snake case keeping any Unicode letters or digits: `Pet Store` becomes `pet_store`.
pub fn to_snake_case(s: &str) -> (r: String)
    ensures
        r@ == snake_case(s@),
{
    separated_case(s, '_', true)
}

/// `AddDataSourceCommand` becomes `add-data-source-command`: a `-` before every upper-case
/// character but the first, and ASCII letters lower-cased.
pub open spec fn kebab(s: Seq<char>) -> Seq<char>
    decreases s.len(),
{
    if s.len() == 0 {
        seq![]
    } else {
        let c = s.last();
        let prefix = kebab(s.drop_last());
        if unicode_uppercase(c) && s.len() > 1 {
            prefix.push('-').push(ascii_lower(c))
        } else {
            prefix.push(ascii_lower(c))
        }
    }
}

pub fn camel_to_kebab(s: &str) -> (r: String)
    ensures
        r@ == kebab(s@),
{
    let v = chars_of(s);
    let mut r = String::new();
    let mut i: usize = 0;
    while i < v.len()
        invariant
            i <= v@.len(),
            v@ == s@,
            r@ == kebab(s@.take(i as int)),
        decreases v@.len() - i,
    {
        let c = v[i];
        assert(s@.take(i + 1).drop_last() =~= s@.take(i as int));
        if char_is_uppercase(c) && i > 0 {
            push_char(&mut r, '-');
        }
        push_char(&mut r, char_to_ascii_lower(c));
        i += 1;
    }
    assert(s@.take(v@.len() as int) =~= s@);
    r
}

/// The slug of one path segment: braces around a parameter name dropped, then kebab case.
pub open spec fn segment_slug(seg: Seq<char>) -> Seq<char> {
    kebab(trim_end_char_seq(trim_start_char_seq(seg, '{'), '}'))
}

/// `/pet/{petId}` becomes `pet-pet-id`.
pub open spec fn path_slug(path: Seq<char>) -> Seq<char> {
    join_seqs(nonempty_pieces(path, '/').map_values(|seg: Seq<char>| segment_slug(seg)), "-"@)
}

pub fn path_to_slug(path: &str) -> (r: String)
    ensures
        r@ == path_slug(path@),
{
    let segs = split_nonempty(path, '/');
    let mut slugs: Vec<String> = Vec::new();
    let mut i: usize = 0;
    while i < segs.len()
        invariant
            i <= segs@.len(),
            views(segs@) == nonempty_pieces(path@, '/'),
            views(slugs@) == views(segs@).take(i as int).map_values(|seg: Seq<char>| segment_slug(seg)),
        decreases segs@.len() - i,
    {
        let a = trim_start_char(segs[i].as_str(), '{');
        let b = trim_end_char(a.as_str(), '}');
        let s = camel_to_kebab(b.as_str());
        assert(views(segs@)[i as int] == segs@[i as int]@);
        assert(s@ == segment_slug(views(segs@)[i as int]));
        let ghost old_slugs = slugs@;
        slugs.push(s);
        assert(slugs@ == old_slugs.push(s));
        assert(views(slugs@) =~= views(old_slugs).push(s@));
        assert(views(segs@).take(i + 1) =~= views(segs@).take(i as int).push(views(segs@)[i as int]));
        assert(views(slugs@) =~= views(segs@).take(i + 1).map_values(|seg: Seq<char>| segment_slug(seg)));
        i += 1;
    }
    assert(views(segs@).take(segs@.len() as int) =~= views(segs@));
    join(&slugs, "-")
}

/// The endpoint file name for a method, a path and a hash of the path: `{method}-{slug}.md`
/// when that fits in [`MAX_FILENAME_LEN`] bytes, else the slug cut to fit, followed by the
/// 16 hex digits of the hash.
pub open spec fn endpoint_filename_spec(method: Seq<char>, path: Seq<char>, hash: u64) -> Seq<char> {
    let m = unicode_lower(method);
    let slug = path_slug(path);
    let full = m + "-"@ + slug + ".md"@;
    if utf8_len(full) <= MAX_FILENAME_LEN {
        full
    } else {
        let hex = hex_digits(hash as nat, 16);
        let fixed = utf8_len(m) + 5 + 16;
        let budget: nat = if fixed <= MAX_FILENAME_LEN { (MAX_FILENAME_LEN - fixed) as nat } else { 0 };
        m + "-"@ + truncated_to_bytes(slug, budget) + "-"@ + hex + ".md"@
    }
}

/// A file name never exceeds [`MAX_FILENAME_LEN`] bytes, as long as the lower-cased method
/// leaves room for the separators, the hash and the extension.
pub proof fn lemma_endpoint_filename_fits(method: Seq<char>, path: Seq<char>, hash: u64)
    requires
        utf8_len(unicode_lower(method)) + 21 <= MAX_FILENAME_LEN,
    ensures
        utf8_len(endpoint_filename_spec(method, path, hash)) <= MAX_FILENAME_LEN,
{
    let m = unicode_lower(method);
    let slug = path_slug(path);
    let full = m + "-"@ + slug + ".md"@;
    if utf8_len(full) > MAX_FILENAME_LEN {
        reveal_strlit("-");
        reveal_strlit(".md");
        let hex = hex_digits(hash as nat, 16);
        let budget = (MAX_FILENAME_LEN - (utf8_len(m) + 5 + 16)) as nat;
        let cut = truncated_to_bytes(slug, budget);
        lemma_truncated_fits(slug, budget);
        lemma_hex_digits_len(hash as nat, 16);
        lemma_ascii_width('-');
        assert(".md"@ =~= seq!['.'].push('m').push('d'));
        lemma_ascii_width('.');
        lemma_utf8_len_append(seq!['.'], seq!['m']);
        lemma_ascii_width('m');
        lemma_utf8_len_append(seq!['.'].push('m'), seq!['d']);
        lemma_ascii_width('d');
        assert(seq!['.'] + seq!['m'] =~= seq!['.'].push('m'));
        assert(seq!['.'].push('m') + seq!['d'] =~= ".md"@);
        lemma_utf8_len_append(m, "-"@);
        lemma_utf8_len_append(m + "-"@, cut);
        lemma_utf8_len_append(m + "-"@ + cut, "-"@);
        lemma_utf8_len_append(m + "-"@ + cut + "-"@, hex);
        lemma_utf8_len_append(m + "-"@ + cut + "-"@ + hex, ".md"@);
        assert("-"@ =~= seq!['-']);
        assert(utf8_len("-"@) == 1);
        assert(utf8_len(".md"@) == 3);
        assert(endpoint_filename_spec(method, path, hash) == m + "-"@ + cut + "-"@ + hex + ".md"@);
    }
}

/// What hashing `s` with a `DefaultHasher` made by `new` gives: std makes every such hasher
/// the same, so the value depends on `s` alone.
pub uninterp spec fn path_hash(s: Seq<char>) -> u64;

/// Hashes `s` with `BuildHasher::hash_one` on the builder of `DefaultHasher`s, which makes a
/// hasher with `DefaultHasher::new`, feeds it `s` and returns `finish`. The contract names the
/// value; std leaves the algorithm open, so nothing more is stated of it.
#[verifier::external_body]
fn hash_str(s: &str) -> (h: u64)
    ensures
        h == path_hash(s@),
{
    std::hash::BuildHasher::hash_one(&std::hash::BuildHasherDefault::<std::collections::hash_map::DefaultHasher>::default(), s)
}

/// [`endpoint_filename`] with the path's hash given.
pub fn endpoint_filename_with_hash(method: &str, path: &str, hash: u64) -> (r: String)
    ensures
        r@ == endpoint_filename_spec(method@, path@, hash),
{
    let m = str_to_lowercase(method);
    let slug = path_to_slug(path);
    let mut full = concat2(m.as_str(), "-");
    full.append(slug.as_str());
    full.append(".md");
    if utf8_len_upto(full.as_str(), MAX_FILENAME_LEN).is_some() {
        return full;
    }
    let hex = to_hex_digits(hash, 16);
    let budget = match utf8_len_upto(m.as_str(), MAX_FILENAME_LEN - 21) {
        Some(mlen) => MAX_FILENAME_LEN - 21 - mlen,
        None => 0,
    };
    let cut = truncate_at_char_boundary(slug.as_str(), budget);
    let mut r = concat2(m.as_str(), "-");
    r.append(cut.as_str());
    r.append("-");
    r.append(hex.as_str());
    r.append(".md");
    r
}

/// Builds the `{method}-{slug}.md` filename for an operation, truncating (and disambiguating
/// with a path hash) when it would exceed [`MAX_FILENAME_LEN`] bytes.
pub fn endpoint_filename(method: &str, path: &str) -> (r: String)
    ensures
        r@ == endpoint_filename_spec(method@, path@, path_hash(path@)),
{
    let h = hash_str(path);
    endpoint_filename_with_hash(method, path, h)
}

} // verus!
