//! The files a run produces, as `(relative path, content)` pairs.

use vstd::prelude::*;

verus! {

/// A file to write: its path below the output directory, as components, and its content.
pub type FileWrite = (Vec<String>, String);

/// Accumulates the files every writer produces, in order.
pub struct Writes {
    pub entries: Vec<FileWrite>,
}

impl Writes {
    pub fn new() -> (w: Writes)
        ensures
            w.entries@.len() == 0,
    {
        Writes { entries: Vec::new() }
    }

    /// Appends a file.
    pub fn push(&mut self, path: Vec<String>, content: String)
        ensures
            final(self).entries@ == old(self).entries@.push((path, content)),
    {
        self.entries.push((path, content));
    }

    /// The files, in the order they were pushed.
    pub fn into_vec(self) -> (v: Vec<FileWrite>)
        ensures
            v@ == self.entries@,
    {
        self.entries
    }
}

impl Default for Writes {
    fn default() -> (w: Writes)
        ensures
            w.entries@.len() == 0,
    {
        Writes::new()
    }
}

} // verus!

verus! {

/// A file as character sequences: its path components and its content.
pub open spec fn write_view(w: FileWrite) -> (Seq<Seq<char>>, Seq<char>) {
    (crate::text::views(w.0@), w.1@)
}

pub open spec fn writes_view(entries: Seq<FileWrite>) -> Seq<(Seq<Seq<char>>, Seq<char>)> {
    entries.map_values(|w: FileWrite| write_view(w))
}

/// A path of components from literal pieces.
pub fn path2(a: &str, b: &str) -> (r: Vec<String>)
    ensures
        crate::text::views(r@) == seq![a@, b@],
{
    let mut r: Vec<String> = Vec::new();
    r.push(String::from_str(a));
    r.push(String::from_str(b));
    assert(crate::text::views(r@) =~= seq![a@, b@]);
    r
}

pub fn path3(a: &str, b: &str, c: &str) -> (r: Vec<String>)
    ensures
        crate::text::views(r@) == seq![a@, b@, c@],
{
    let mut r: Vec<String> = Vec::new();
    r.push(String::from_str(a));
    r.push(String::from_str(b));
    r.push(String::from_str(c));
    assert(crate::text::views(r@) =~= seq![a@, b@, c@]);
    r
}

impl Writes {
    /// Appends a file, stated over character sequences.
    pub fn add(&mut self, path: Vec<String>, content: String)
        ensures
            writes_view(final(self).entries@) == writes_view(old(self).entries@).push(
                (crate::text::views(path@), content@),
            ),
    {
        let ghost p = (crate::text::views(path@), content@);
        let ghost before = self.entries@;
        self.push(path, content);
        assert(writes_view(self.entries@) =~= writes_view(before).push(p));
    }
}

} // verus!
