//! The state that is kept beside an index.

use std::collections::HashMap;

use vstd::prelude::*;

verus! {

/// What `xxhash_rust::xxh3::xxh3_64` returns for some bytes.
pub uninterp spec fn xxh3_64_of(bytes: Seq<u8>) -> u64;

/// `xxhash_rust::xxh3::xxh3_64`: a hash of the bytes alone.
pub assume_specification[ xxhash_rust::xxh3::xxh3_64 ](input: &[u8]) -> (h: u64)
    ensures
        h == xxh3_64_of(input@),
;

/// What is known of an indexed file.
#[derive(Clone, Copy, Debug)]
pub struct FileInfo {
    pub content_hash: u64,
    pub mtime: u64,
}

/// The state of an index.
#[derive(Debug)]
pub struct IndexState {
    /// Version of the program that last wrote the index.
    pub cli_version: String,
    /// Model that the index was built with; empty in indexes of old versions.
    pub model_id: String,
    /// The indexed files by their paths.
    pub files: HashMap<String, FileInfo>,
    /// Number of searches in the index.
    pub search_count: u64,
}

/// Whether a state is a fresh one: nothing is indexed or counted yet.
pub open spec fn is_fresh(s: IndexState) -> bool {
    &&& s.cli_version@.len() == 0
    &&& s.model_id@.len() == 0
    &&& s.files@ == Map::<String, FileInfo>::empty()
    &&& s.search_count == 0
}

/// Whether a state is what is written for another one by some version of the
/// program: it carries that version, and is otherwise the same.
pub open spec fn is_written_for(w: IndexState, s: IndexState, version: Seq<char>) -> bool {
    &&& w.cli_version@ == version
    &&& w.model_id@ == s.model_id@
    &&& w.files@ == s.files@
    &&& w.search_count == s.search_count
}

/// Whether a state is what is loaded: the one that is stored, or a fresh one
/// where none is.
pub open spec fn is_loaded_from(s: IndexState, stored: Option<IndexState>) -> bool {
    match stored {
        Some(w) => s == w,
        None => is_fresh(s),
    }
}

/// What was written is loaded again: the files, the model and the number of
/// searches as they were, with the version that wrote them.
pub proof fn law_written_state_is_loaded(
    s: IndexState,
    version: Seq<char>,
    written: IndexState,
    loaded: IndexState,
)
    requires
        is_written_for(written, s, version),
        is_loaded_from(loaded, Some(written)),
    ensures
        loaded.files@ == s.files@,
        loaded.model_id@ == s.model_id@,
        loaded.search_count == s.search_count,
        loaded.cli_version@ == version,
{
}

impl Default for IndexState {
    fn default() -> (r: Self)
        ensures
            is_fresh(r),
    {
        IndexState {
            cli_version: String::new(),
            model_id: String::new(),
            files: HashMap::new(),
            search_count: 0,
        }
    }
}

impl Clone for IndexState {
    fn clone(&self) -> (r: Self)
        ensures
            is_written_for(r, *self, self.cli_version@),
    {
        self.save(self.cli_version.as_str())
    }
}

impl IndexState {
    /// The state that was read, or a fresh one where nothing is stored yet.
    pub fn load(stored: Option<IndexState>) -> (r: IndexState)
        ensures
            is_loaded_from(r, stored),
    {
        match stored {
            Some(s) => s,
            None => IndexState::default(),
        }
    }

    /// The state as it is written: it carries the version that writes it, and
    /// is otherwise unchanged.
    pub fn save(&self, version: &str) -> (r: IndexState)
        ensures
            is_written_for(r, *self, version@),
    {
        IndexState {
            cli_version: version.to_owned(),
            model_id: self.model_id.clone(),
            files: self.files.clone(),
            search_count: self.search_count,
        }
    }

    /// Counts one more search.
    pub fn increment_search_count(&mut self)
        requires
            old(self).search_count < u64::MAX,
        ensures
            final(self).search_count == old(self).search_count + 1,
            final(self).cli_version == old(self).cli_version,
            final(self).model_id == old(self).model_id,
            final(self).files == old(self).files,
    {
        self.search_count = self.search_count + 1;
    }

    /// Sets the number of searches back to zero.
    pub fn reset_search_count(&mut self)
        ensures
            final(self).search_count == 0,
            final(self).cli_version == old(self).cli_version,
            final(self).model_id == old(self).model_id,
            final(self).files == old(self).files,
    {
        self.search_count = 0;
    }
}

/// The model that an index records. An empty name records none.
pub open spec fn recorded_model(model_id: Option<Seq<char>>) -> Option<Seq<char>> {
    match model_id {
        Some(id) => if id.len() == 0 {
            None
        } else {
            Some(id)
        },
        None => None,
    }
}

/// The contents of a text that may be missing.
pub open spec fn maybe_text(t: Option<String>) -> Option<Seq<char>> {
    match t {
        Some(s) => Some(s@),
        None => None,
    }
}

/// The contents of a borrowed text that may be missing.
pub open spec fn maybe_str(t: Option<&str>) -> Option<Seq<char>> {
    match t {
        Some(s) => Some(s@),
        None => None,
    }
}

/// The model that a status report names: the one that the index records, or
/// else the active one. `state_model` is what the index's state says, if the
/// state can be read.
pub fn displayed_model(state_model: &Option<String>, active: &str) -> (r: String)
    ensures
        r@ == match recorded_model(maybe_text(*state_model)) {
            Some(id) => id,
            None => active@,
        },
{
    if let Some(id) = state_model {
        if !id.as_str().is_empty() {
            return id.clone();
        }
    }
    active.to_owned()
}

/// The hash of a file, given its content, by which a change is noticed.
pub fn hash_file(content: &[u8]) -> (h: u64)
    ensures
        h == xxh3_64_of(content@),
{
    xxhash_rust::xxh3::xxh3_64(content)
}

/// A model is recorded exactly where a name is, and it is that name.
pub proof fn law_recorded_model(name: Seq<char>)
    ensures
        recorded_model(None) is None,
        name.len() == 0 ==> recorded_model(Some(name)) is None,
        name.len() > 0 ==> recorded_model(Some(name)) == Some(name),
{
}

/// A fresh state has no version, no model, no files and no searches.
pub proof fn law_fresh_state(s: IndexState)
    requires
        is_loaded_from(s, None),
    ensures
        s.cli_version@.len() == 0,
        s.model_id@.len() == 0,
        s.files@.dom().is_empty(),
        s.search_count == 0,
{
}

} // verus!
