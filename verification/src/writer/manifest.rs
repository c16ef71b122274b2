//! The raw document, written verbatim as `openapi.json`/`openapi.yml` beside `SKILL.md`.

use vstd::prelude::*;
use vstd::string::*;
use crate::text::views;
use crate::writer::writes::{writes_view, Writes};

verus! {

pub struct ManifestWriter {
    pub raw: String,
    pub extension: String,
}

pub open spec fn manifest_filename_spec(extension: Seq<char>) -> Seq<char> {
    "openapi."@ + extension
}

impl ManifestWriter {
    /// `openapi.{extension}`.
    pub fn filename(&self) -> (r: String)
        ensures
            r@ == manifest_filename_spec(self.extension@),
    {
        let mut r = String::from_str("openapi.");
        r.append(self.extension.as_str());
        r
    }

    /// Adds the manifest file, at the top of the output directory.
    pub fn collect_writes(&self, writes: &mut Writes)
        ensures
            writes_view(final(writes).entries@) == writes_view(old(writes).entries@).push(
                (seq![manifest_filename_spec(self.extension@)], self.raw@),
            ),
    {
        let mut path: Vec<String> = Vec::new();
        let f = self.filename();
        path.push(f);
        assert(views(path@) =~= seq![manifest_filename_spec(self.extension@)]);
        writes.add(path, self.raw.clone());
    }
}

} // verus!
