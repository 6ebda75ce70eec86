//! What is searched, and what comes of searching several paths.

use vstd::prelude::*;

use crate::listing::{is_missing_path_message, says_missing};
use crate::parts::{
    adjoined, has_parent, is_joining, is_parent, is_relative_text, is_rooted,
    law_adjoined_is_rooted, law_adjoined_lies_below, path_shown, path_text, slash_parts, slash_path, FilePath, Location, Part,
    PathParts,
};
use crate::paths::ParentIndexInfo;
use crate::ranking::SearchHit;
use crate::text::{join_texts, joined, occurs_in, texts};

verus! {

// ---------------------------------------------------------------------------
// What is searched
// ---------------------------------------------------------------------------

/// A directory to search, and the one file in it that is meant, if any.
pub struct SearchScope {
    pub directory: FilePath,
    pub file: Option<FilePath>,
}

/// What is searched for a path that exists. For a file, the directory that it
/// stands in is searched.
pub fn search_scope(path: FilePath, is_file: bool, parent: Option<FilePath>) -> (r: Result<
    SearchScope,
    String,
>)
    ensures
        !is_file ==> (r matches Ok(scope) && scope.directory == path && scope.file is None),
        is_file && parent is Some ==> (r matches Ok(scope) && scope.directory == parent->0
            && scope.file == Some(path)),
        is_file && parent is None ==> (r matches Err(message) && message@
            == "File has no parent directory: "@ + path.text@),
{
    if !is_file {
        return Ok(SearchScope { directory: path, file: None });
    }
    match parent {
        Some(directory) => Ok(SearchScope { directory, file: Some(path) }),
        None => {
            let mut message: String = "File has no parent directory: ".to_owned();
            message.append(path.text.as_str());
            Err(message)
        },
    }
}

/// What is searched for a path that exists, whatever its parent is. For a file
/// in a directory, that directory is searched.
pub fn scope_of(path: FilePath, is_file: bool) -> (r: Result<SearchScope, String>)
    ensures
        !is_file ==> (r matches Ok(scope) && scope.directory == path && scope.file is None),
        is_file ==> (r matches Ok(scope) ==> scope.file == Some(path) && scope.directory.is_read()
            && is_parent(Some(path_text(scope.directory.path)), path_text(path.path))),
        r matches Err(message) ==> is_file && is_parent(None, path_text(path.path)) && message@
            == "File has no parent directory: "@ + path.text@,
        is_file && path_text(path.path) is Some && slash_path(path_text(path.path)->0) ==> r is Ok
            == has_parent(slash_parts(path_text(path.path)->0)),
{
    let parent: Option<FilePath> = if is_file {
        path.parent()
    } else {
        None
    };
    search_scope(path, is_file, parent)
}

/// The contents of a path that may be missing.
pub open spec fn maybe_parts(p: Option<PathParts>) -> Option<Seq<Part>> {
    match p {
        Some(parts) => Some(parts@),
        None => None,
    }
}

/// Whether a directory belongs to another project: it does not lie in the
/// current directory, as far as that is known.
pub fn is_external_project(directory: &PathParts, current: &Option<PathParts>) -> (r: bool)
    ensures
        r == match maybe_parts(*current) {
            Some(c) => !c.is_prefix_of(directory@),
            None => false,
        },
{
    match current {
        Some(c) => !directory.starts_with(c),
        None => false,
    }
}

/// The project that is searched, and the directory in it that the search is
/// restricted to, if any.
pub struct ProjectScope {
    pub root: FilePath,
    pub subdirectory: Option<PathParts>,
}

/// The project to search for a directory: the one that a parent index covers,
/// or else the directory itself. The search is restricted to the directory,
/// unless the patterns of the files to search lead out of it.
pub fn project_scope(
    directory: &FilePath,
    parent: &Option<ParentIndexInfo>,
    patterns_escape: bool,
) -> (r: ProjectScope)
    ensures
        parent matches Some(info) ==> {
            &&& r.root.path == info.project_path.path
            &&& r.root.text@ == info.project_path.text@
            &&& r.root.parts@ == info.project_path.parts@
            &&& maybe_parts(r.subdirectory) == if patterns_escape {
                None
            } else {
                Some(info.relative_subdir@)
            }
        },
        parent is None ==> {
            &&& r.root.path == directory.path
            &&& r.root.text@ == directory.text@
            &&& r.root.parts@ == directory.parts@
            &&& r.subdirectory is None
        },
{
    match parent {
        Some(info) => ProjectScope {
            root: info.project_path.clone(),
            subdirectory: if patterns_escape {
                None
            } else {
                Some(info.relative_subdir.clone())
            },
        },
        None => ProjectScope { root: directory.clone(), subdirectory: None },
    }
}

/// The index that is loaded: that of the parent, or else that of the project.
pub fn loaded_index(parent: &Option<ParentIndexInfo>, own: &Location) -> (r: Location)
    ensures
        r@ == match parent {
            Some(info) => info.index_dir@,
            None => own@,
        },
{
    match parent {
        Some(info) => info.index_dir.clone(),
        None => own.clone(),
    }
}

/// A file as the index of a project names it: from the root of the project on,
/// or whole where it does not lie there.
pub fn file_in_project(file: &PathParts, root: &PathParts) -> (r: PathParts)
    ensures
        root@.is_prefix_of(file@) ==> root@ + r@ == file@,
        !root@.is_prefix_of(file@) ==> r@ == file@,
{
    match file.strip_prefix(root) {
        Some(rest) => rest,
        None => file.clone(),
    }
}

/// Whether a path is the file of a result, given how the index names it and
/// whether that is absolute: one that is not is adjoined to the root of the
/// project.
pub open spec fn is_result_file(
    r: FilePath,
    root: FilePath,
    file: FilePath,
    absolute: bool,
) -> bool {
    &&& r.parts@ == result_parts(root.parts@, file.parts@, absolute)
    &&& absolute ==> r == file
    &&& !absolute ==> {
        &&& is_joining(path_text(r.path), path_text(root.path), path_text(file.path))
        &&& r.text@ == path_shown(r.path)
        &&& path_text(r.path) is Some ==> r.text@ == path_text(r.path)->0
    }
}

/// The file of a result, given how the index names it and whether that is
/// absolute.
pub fn result_file(root: &FilePath, file: FilePath, absolute: bool) -> (r: FilePath)
    ensures
        is_result_file(r, *root, file, absolute),
{
    if absolute {
        file
    } else {
        root.join(&file)
    }
}

/// The file of a result, given how the index names it. One without a root is put
/// below that of the project on every platform.
pub fn placed_file(root: &FilePath, file: FilePath) -> (r: FilePath)
    ensures
        is_result_file(r, *root, file, true) || is_result_file(r, *root, file, false),
        is_relative_text(path_text(file.path)) ==> is_result_file(r, *root, file, false),
{
    let absolute: bool = file.is_absolute();
    result_file(root, file, absolute)
}

/// In a project whose path starts at the root, so does the path of every result:
/// it is the text of the file where that starts at the root, and else the text
/// of the project with that of the file behind it.
pub proof fn law_result_path_is_absolute(r: FilePath, root: FilePath, file: FilePath)
    requires
        is_result_file(r, root, file, true) && !is_relative_text(path_text(file.path))
            || is_result_file(r, root, file, false),
        path_text(root.path) is Some && path_text(file.path) is Some,
        slash_path(path_text(root.path)->0) && slash_path(path_text(file.path)->0),
        path_text(root.path)->0.len() > 0 && path_text(root.path)->0[0] == '/',
        path_text(file.path)->0.len() > 0,
    ensures
        path_text(r.path) is Some,
        path_text(r.path)->0.len() > 0,
        path_text(r.path)->0[0] == '/',
{
    let a = path_text(root.path)->0;
    let b = path_text(file.path)->0;
    assert((a + b)[0] == a[0]);
    assert((a + seq!['/'] + b)[0] == a[0]);
    assert((a + seq!['\\'] + b)[0] == a[0]);
}

/// The components of the file of a result.
pub open spec fn result_parts(root: Seq<Part>, file: Seq<Part>, absolute: bool) -> Seq<Part> {
    if absolute {
        file
    } else {
        adjoined(root, file)
    }
}

/// The file of every result starts at a root, where the project does: an
/// absolute one by itself, and one without a volume of its own below the root.
pub proof fn law_result_file_is_rooted(root: Seq<Part>, file: Seq<Part>, absolute: bool)
    requires
        is_rooted(root),
        absolute ==> is_rooted(file),
        !absolute && file.len() > 0 ==> !(file[0] is Prefix),
    ensures
        is_rooted(result_parts(root, file, absolute)),
{
    if !absolute {
        law_adjoined_is_rooted(root, file);
    }
}

/// How many files an update of an index concerned.
pub fn total_changes(added: usize, changed: usize, deleted: usize) -> (r: usize)
    requires
        added + changed + deleted <= usize::MAX,
    ensures
        r == added + changed + deleted,
{
    added + changed + deleted
}

// ---------------------------------------------------------------------------
// Several paths
// ---------------------------------------------------------------------------

/// What came of searching some paths.
pub struct SearchTally {
    /// The hits in all of them.
    pub hits: Vec<SearchHit>,
    /// The messages for those that do not exist.
    pub missing: Vec<String>,
}

/// What came of searching one path: hits, or a message.
pub enum Outcome {
    Found(Seq<SearchHit>),
    Failed(Seq<char>),
}

/// Whether a search goes on after an outcome.
pub open spec fn is_tolerated(o: Outcome) -> bool {
    match o {
        Outcome::Found(_) => true,
        Outcome::Failed(message) => says_missing(message),
    }
}

/// The hits of some outcomes, in their order.
pub open spec fn hits_of(outcomes: Seq<Outcome>) -> Seq<SearchHit>
    decreases outcomes.len(),
{
    if outcomes.len() == 0 {
        Seq::empty()
    } else {
        match outcomes.last() {
            Outcome::Found(hits) => hits_of(outcomes.drop_last()) + hits,
            Outcome::Failed(_) => hits_of(outcomes.drop_last()),
        }
    }
}

/// The messages of some outcomes, in their order.
pub open spec fn messages_of(outcomes: Seq<Outcome>) -> Seq<Seq<char>>
    decreases outcomes.len(),
{
    if outcomes.len() == 0 {
        Seq::empty()
    } else {
        match outcomes.last() {
            Outcome::Found(_) => messages_of(outcomes.drop_last()),
            Outcome::Failed(message) => messages_of(outcomes.drop_last()).push(message),
        }
    }
}

impl SearchTally {
    /// Whether the tally is that of some outcomes.
    pub open spec fn counts(self, outcomes: Seq<Outcome>) -> bool {
        &&& self.hits@ == hits_of(outcomes)
        &&& texts(self.missing@) == messages_of(outcomes)
        &&& forall|i: int| 0 <= i < outcomes.len() ==> is_tolerated(#[trigger] outcomes[i])
    }

    /// No path has been searched yet.
    pub fn new() -> (r: SearchTally)
        ensures
            r.hits@ == Seq::<SearchHit>::empty(),
            r.missing@ == Seq::<String>::empty(),
            r.counts(Seq::empty()),
    {
        let r: SearchTally = SearchTally { hits: Vec::new(), missing: Vec::new() };
        assert(texts(r.missing@) =~= Seq::<Seq<char>>::empty());
        r
    }

    /// A path was searched, with these hits.
    pub fn add_hits(&mut self, hits: Vec<SearchHit>)
        ensures
            final(self).hits@ == old(self).hits@ + hits@,
            final(self).missing@ == old(self).missing@,
            forall|outcomes: Seq<Outcome>| #[trigger]
                old(self).counts(outcomes) ==> final(self).counts(
                    outcomes.push(Outcome::Found(hits@)),
                ),
    {
        let ghost found = hits@;
        let mut more: Vec<SearchHit> = hits;
        self.hits.append(&mut more);
        proof {
            assert forall|outcomes: Seq<Outcome>| #[trigger]
                old(self).counts(outcomes) implies self.counts(
                outcomes.push(Outcome::Found(found)),
            ) by {
                let all = outcomes.push(Outcome::Found(found));
                assert(all.drop_last() =~= outcomes);
                assert(all.last() == Outcome::Found(found));
            }
        }
    }

    /// Searching a path failed with a message. A path that does not exist is
    /// noted, and the search goes on; any other failure ends it.
    pub fn add_failure(&mut self, message: String) -> (goes_on: bool)
        ensures
            goes_on == says_missing(message@),
            final(self).hits@ == old(self).hits@,
            goes_on ==> texts(final(self).missing@) == texts(old(self).missing@).push(message@),
            !goes_on ==> final(self).missing@ == old(self).missing@,
            goes_on ==> forall|outcomes: Seq<Outcome>| #[trigger]
                old(self).counts(outcomes) ==> final(self).counts(
                    outcomes.push(Outcome::Failed(message@)),
                ),
    {
        if !is_missing_path_message(message.as_str()) {
            return false;
        }
        let ghost text = message@;
        self.missing.push(message);
        assert(texts(self.missing@) =~= texts(old(self).missing@).push(text));
        proof {
            assert forall|outcomes: Seq<Outcome>| #[trigger]
                old(self).counts(outcomes) implies self.counts(
                outcomes.push(Outcome::Failed(text)),
            ) by {
                let all = outcomes.push(Outcome::Failed(text));
                assert(all.drop_last() =~= outcomes);
                assert(all.last() == Outcome::Failed(text));
            }
        }
        true
    }

    /// The message with which the whole search fails: where nothing was found
    /// and some path does not exist, what was said of every such path.
    pub fn failure(&self) -> (r: Option<String>)
        ensures
            r is Some == (self.hits@.len() == 0 && self.missing@.len() > 0),
            r matches Some(message) ==> message@ == joined(texts(self.missing@), "\n\n"@),
    {
        if self.hits.len() == 0 && self.missing.len() > 0 {
            Some(join_texts(&self.missing, "\n\n"))
        } else {
            None
        }
    }

    /// Whether the paths that do not exist are warned of.
    pub fn warns(&self, json: bool, files_only: bool) -> (r: bool)
        ensures
            r == (self.missing@.len() > 0 && !json && !files_only),
    {
        self.missing.len() > 0 && !json && !files_only
    }
}

/// Paths that fail do not hide what is found in the others: a hit is among all
/// hits if and only if it was found in some path.
pub proof fn law_missing_paths_lose_no_hits(outcomes: Seq<Outcome>, h: SearchHit)
    ensures
        hits_of(outcomes).contains(h) <==> exists|i: int|
            0 <= i < outcomes.len() && #[trigger] has_hit(outcomes[i], h),
    decreases outcomes.len(),
{
    if outcomes.len() > 0 {
        let front = outcomes.drop_last();
        let n = outcomes.len() - 1;
        law_missing_paths_lose_no_hits(front, h);
        if hits_of(outcomes).contains(h) {
            if hits_of(front).contains(h) {
                let i = choose|i: int| 0 <= i < front.len() && #[trigger] has_hit(front[i], h);
                assert(has_hit(outcomes[i], h));
            } else {
                let at = choose|at: int|
                    0 <= at < hits_of(outcomes).len() && hits_of(outcomes)[at] == h;
                if at < hits_of(front).len() {
                    assert(hits_of(front)[at] == h);
                }
                assert(has_hit(outcomes[n], h));
            }
        }
        if exists|i: int| 0 <= i < outcomes.len() && #[trigger] has_hit(outcomes[i], h) {
            let i = choose|i: int| 0 <= i < outcomes.len() && #[trigger] has_hit(outcomes[i], h);
            if i < n {
                assert(has_hit(front[i], h));
                let at = choose|at: int| 0 <= at < hits_of(front).len() && hits_of(front)[at] == h;
                assert(hits_of(outcomes)[at] == h);
            } else {
                let hits = outcomes[n]->Found_0;
                let at = choose|at: int| 0 <= at < hits.len() && hits[at] == h;
                assert(hits_of(outcomes)[hits_of(front).len() + at] == h);
            }
        }
    }
}

/// Whether a hit is among those of an outcome.
pub open spec fn has_hit(o: Outcome, h: SearchHit) -> bool {
    o matches Outcome::Found(hits) && hits.contains(h)
}

/// The search goes on after hits, and after a message exactly where it says that
/// a path does not exist.
pub proof fn law_tolerated(hits: Seq<SearchHit>, message: Seq<char>)
    ensures
        is_tolerated(Outcome::Found(hits)),
        is_tolerated(Outcome::Failed(message)) <==> occurs_in("Path does not exist:"@, message),
{
}

/// Hits are added behind those of the paths before, and messages behind theirs;
/// neither touches the other.
pub proof fn law_outcomes_add_up(outcomes: Seq<Outcome>, hits: Seq<SearchHit>, message: Seq<char>)
    ensures
        hits_of(Seq::empty()) == Seq::<SearchHit>::empty(),
        messages_of(Seq::empty()) == Seq::<Seq<char>>::empty(),
        hits_of(outcomes.push(Outcome::Found(hits))) == hits_of(outcomes) + hits,
        messages_of(outcomes.push(Outcome::Found(hits))) == messages_of(outcomes),
        hits_of(outcomes.push(Outcome::Failed(message))) == hits_of(outcomes),
        messages_of(outcomes.push(Outcome::Failed(message))) == messages_of(outcomes).push(message),
{
    assert(outcomes.push(Outcome::Found(hits)).drop_last() =~= outcomes);
    assert(outcomes.push(Outcome::Failed(message)).drop_last() =~= outcomes);
}

/// A file that is absolute stays as it is, and one of names only lies below the
/// root of the project.
pub proof fn law_result_parts(root: Seq<Part>, file: Seq<Part>)
    ensures
        result_parts(root, file, true) == file,
        (forall|i: int| 0 <= i < file.len() ==> #[trigger] file[i] is Normal) ==> result_parts(
            root,
            file,
            false,
        ) == root + file,
{
    if forall|i: int| 0 <= i < file.len() ==> #[trigger] file[i] is Normal {
        law_adjoined_lies_below(root, file);
    }
}

/// A result file that is absolute is the file itself; another has the text and
/// the path of the root with the file adjoined.
pub proof fn law_result_file(r: FilePath, root: FilePath, file: FilePath)
    ensures
        is_result_file(r, root, file, true) ==> r == file,
        is_result_file(r, root, file, false) ==> r.parts@ == adjoined(root.parts@, file.parts@)
            && is_joining(path_text(r.path), path_text(root.path), path_text(file.path)) && r.text@
            == path_shown(r.path),
{
}

} // verus!
