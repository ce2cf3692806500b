//! Comparing the XML metadata with the packed compact files: which files
//! are new, modified or deleted since the last pack.
use vstd::prelude::*;
use crate::strings::{spec_trim, trim};

verus! {

/// The outcome of a comparison.
pub struct DiffResult {
    pub new_files: Vec<String>,
    pub modified_files: Vec<String>,
    pub deleted_files: Vec<String>,
    pub unchanged_files: usize,
}

/// A compact text is up to date when it equals the freshly written one,
/// leading and trailing white space aside.
pub open spec fn spec_up_to_date(fresh: Seq<char>, existing: Seq<char>) -> bool {
    spec_trim(fresh) == spec_trim(existing)
}

impl DiffResult {
    /// Nothing compared yet.
    pub fn new() -> (r: Self)
        ensures
            r.new_files@.len() == 0,
            r.modified_files@.len() == 0,
            r.deleted_files@.len() == 0,
            r.unchanged_files == 0,
    {
        DiffResult { new_files: Vec::new(), modified_files: Vec::new(), deleted_files: Vec::new(), unchanged_files: 0 }
    }

    /// Records an XML file: new when it has no compact file (`compact` is
    /// `None`); else, with the freshly written and the existing compact
    /// texts, unchanged when they agree (see `spec_up_to_date`) and
    /// modified when they do not.
    pub fn record(&mut self, relative: String, compact: Option<(&str, &str)>)
        requires
            old(self).unchanged_files < usize::MAX,
        ensures
            final(self).deleted_files@ == old(self).deleted_files@,
            compact is None ==> final(self).new_files@ == old(self).new_files@.push(relative)
                && final(self).modified_files@ == old(self).modified_files@ && final(self).unchanged_files
                == old(self).unchanged_files,
            compact matches Some((fresh, existing)) ==> final(self).new_files@ == old(self).new_files@ && if spec_up_to_date(
                fresh@,
                existing@,
            ) {
                final(self).modified_files@ == old(self).modified_files@ && final(self).unchanged_files
                    == old(self).unchanged_files + 1
            } else {
                final(self).modified_files@ == old(self).modified_files@.push(relative) && final(self).unchanged_files
                    == old(self).unchanged_files
            },
    {
        match compact {
            None => self.new_files.push(relative),
            Some((fresh, existing)) => {
                let a = trim(fresh);
                let b = trim(existing);
                if a == b {
                    self.unchanged_files = self.unchanged_files + 1;
                } else {
                    self.modified_files.push(relative);
                }
            },
        }
    }

    /// Records a packed file that has no source XML.
    pub fn record_deleted(&mut self, path: String)
        ensures
            final(self).deleted_files@ == old(self).deleted_files@.push(path),
            final(self).new_files@ == old(self).new_files@,
            final(self).modified_files@ == old(self).modified_files@,
            final(self).unchanged_files == old(self).unchanged_files,
    {
        self.deleted_files.push(path);
    }

    /// The number of files that need a pack: new, modified and deleted.
    pub fn total_changes(&self) -> (r: usize)
        requires
            self.new_files@.len() + self.modified_files@.len() + self.deleted_files@.len() <= usize::MAX,
        ensures
            r == self.new_files@.len() + self.modified_files@.len() + self.deleted_files@.len(),
    {
        self.new_files.len() + self.modified_files.len() + self.deleted_files.len()
    }
}

// ─── When a compact file is up to date ─────────────────────────────

/// A compact file is up to date exactly when, leading and trailing white
/// space aside, the fresh and the existing texts have the same length and
/// the same character at every place.
pub proof fn law_up_to_date_exactly(fresh: Seq<char>, existing: Seq<char>)
    ensures
        spec_up_to_date(fresh, existing) <==> (spec_trim(fresh).len() == spec_trim(existing).len() && forall|i: int|
            0 <= i < spec_trim(fresh).len() ==> #[trigger] spec_trim(fresh)[i] == spec_trim(existing)[i]),
{
    if spec_trim(fresh).len() == spec_trim(existing).len() && forall|i: int|
        0 <= i < spec_trim(fresh).len() ==> #[trigger] spec_trim(fresh)[i] == spec_trim(existing)[i] {
        assert(spec_trim(fresh) =~= spec_trim(existing));
    }
}

/// Being up to date does not depend on which text is the fresh one.
pub proof fn law_up_to_date_symmetric(fresh: Seq<char>, existing: Seq<char>)
    ensures
        spec_up_to_date(fresh, existing) == spec_up_to_date(existing, fresh),
{
}

/// A text is up to date against itself, and against itself with white
/// space added at either end.
pub proof fn law_up_to_date_reflexive(text: Seq<char>, before: Seq<char>, after: Seq<char>)
    requires
        forall|k: int| 0 <= k < before.len() ==> crate::strings::is_white(#[trigger] before[k]),
        forall|k: int| 0 <= k < after.len() ==> crate::strings::is_white(#[trigger] after[k]),
    ensures
        spec_up_to_date(text, text),
        spec_up_to_date(text, before + text + after),
{
    crate::strings::lemma_trim_padded(text, before, after);
}

} // verus!
