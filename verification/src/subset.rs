//! Narrowing a search to the code units that pass every filter.

use std::collections::HashSet;

use vstd::prelude::*;

use crate::lists::{distinct, lemma_distinct, lemma_filter_members, lemma_set_of_push};

verus! {

broadcast use vstd::std_specs::hash::group_hash_axioms;

/// The ids of a list that stand in another list too, in their order.
pub open spec fn kept(ids: Seq<i64>, allowed: Seq<i64>) -> Seq<i64> {
    ids.filter(|id: i64| allowed.contains(id))
}

/// The set of the ids in a list.
fn id_set(ids: &Vec<i64>) -> (r: HashSet<i64>)
    ensures
        r@ == ids@.to_set(),
{
    let mut r: HashSet<i64> = HashSet::new();
    let mut i: usize = 0;
    assert(ids@.take(0).to_set() =~= Set::<i64>::empty());
    while i < ids.len()
        invariant
            i <= ids.len(),
            r@ == ids@.take(i as int).to_set(),
        decreases ids.len() - i,
    {
        r.insert(ids[i]);
        proof {
            lemma_set_of_push(ids@.take(i as int), ids@[i as int]);
            assert(ids@.take(i + 1) =~= ids@.take(i as int).push(ids@[i as int]));
        }
        i = i + 1;
    }
    assert(ids@.take(ids@.len() as int) =~= ids@);
    r
}

/// The ids of a list that stand in another list too, in their order.
pub fn keep_allowed(ids: &Vec<i64>, allowed: &Vec<i64>) -> (r: Vec<i64>)
    ensures
        r@ == kept(ids@, allowed@),
{
    let set: HashSet<i64> = id_set(allowed);
    let mut r: Vec<i64> = Vec::new();
    let mut i: usize = 0;
    let ghost keep = |id: i64| allowed@.contains(id);
    proof {
        reveal(Seq::filter);
        assert(ids@.take(0).filter(keep) =~= Seq::<i64>::empty());
    }
    while i < ids.len()
        invariant
            i <= ids.len(),
            set@ == allowed@.to_set(),
            keep == (|id: i64| allowed@.contains(id)),
            r@ == ids@.take(i as int).filter(keep),
        decreases ids.len() - i,
    {
        let id: i64 = ids[i];
        proof {
            reveal(Seq::filter);
            assert(ids@.take(i + 1).drop_last() =~= ids@.take(i as int));
            assert(ids@.take(i + 1).last() == id);
            assert(set@.contains(id) == allowed@.contains(id));
        }
        if set.contains(&id) {
            r.push(id);
        }
        i = i + 1;
    }
    assert(ids@.take(ids@.len() as int) =~= ids@);
    r
}

/// A list without repetitions.
pub fn without_repetitions(ids: &Vec<i64>) -> (r: Vec<i64>)
    ensures
        r@ == distinct(ids@),
{
    let mut seen: HashSet<i64> = HashSet::new();
    let mut r: Vec<i64> = Vec::new();
    let mut i: usize = 0;
    assert(ids@.take(0) =~= Seq::<i64>::empty());
    assert(r@.to_set() =~= seen@);
    while i < ids.len()
        invariant
            i <= ids.len(),
            seen@ == r@.to_set(),
            r@ == distinct(ids@.take(i as int)),
        decreases ids.len() - i,
    {
        let id: i64 = ids[i];
        let ghost before = r@;
        proof {
            assert(ids@.take(i + 1).drop_last() =~= ids@.take(i as int));
            assert(ids@.take(i + 1).last() == id);
            assert(seen@.contains(id) == r@.contains(id));
        }
        if seen.insert(id) {
            r.push(id);
            proof {
                lemma_set_of_push(before, id);
            }
        } else {
            assert(before.to_set().insert(id) =~= before.to_set());
        }
        i = i + 1;
    }
    assert(ids@.take(ids@.len() as int) =~= ids@);
    r
}

/// The ids that passed the filters so far. Before the first filter every id
/// passes.
pub struct IdFilter {
    pub ids: Option<Vec<i64>>,
}

impl View for IdFilter {
    type V = Option<Seq<i64>>;

    open spec fn view(&self) -> Option<Seq<i64>> {
        match self.ids {
            Some(v) => Some(v@),
            None => None,
        }
    }
}

/// The ids that a filter lets pass.
pub open spec fn passing(f: Option<Seq<i64>>) -> Set<i64> {
    match f {
        Some(ids) => ids.to_set(),
        None => Set::full(),
    }
}

/// What is left when only the ids that a filter found may pass: those of the
/// found ids that passed before.
pub open spec fn narrowed(before: Option<Seq<i64>>, found: Seq<i64>) -> Seq<i64> {
    match before {
        Some(ids) => kept(found, ids),
        None => found,
    }
}

/// What is left when only the ids that an exclusion spares may pass: those that
/// passed before and are spared.
pub open spec fn spared_of(before: Option<Seq<i64>>, spared: Seq<i64>) -> Seq<i64> {
    match before {
        Some(ids) => kept(ids, spared),
        None => distinct(spared),
    }
}

/// The ids that stand in two lists are the common ids.
pub proof fn lemma_kept_is_intersection(ids: Seq<i64>, allowed: Seq<i64>)
    ensures
        kept(ids, allowed).to_set() == ids.to_set().intersect(allowed.to_set()),
{
    lemma_filter_members(ids, |id: i64| allowed.contains(id));
    assert forall|id: i64|
        kept(ids, allowed).to_set().contains(id) == ids.to_set().intersect(
            allowed.to_set(),
        ).contains(id) by {
        if kept(ids, allowed).contains(id) {
            let i = choose|i: int|
                0 <= i < kept(ids, allowed).len() && kept(ids, allowed)[i] == id;
            assert(kept(ids, allowed)[i] == id);
        }
        if ids.contains(id) && allowed.contains(id) {
            let i = choose|i: int| 0 <= i < ids.len() && ids[i] == id;
            assert(ids[i] == id);
        }
    }
    assert(kept(ids, allowed).to_set() =~= ids.to_set().intersect(allowed.to_set()));
}

/// Filters and exclusions let exactly the ids pass that passed before and that
/// they find or spare: in whatever order they come, what is left is what they
/// have in common.
pub proof fn law_filters_intersect(before: Option<Seq<i64>>, ids: Seq<i64>)
    ensures
        narrowed(before, ids).to_set() == passing(before).intersect(ids.to_set()),
        spared_of(before, ids).to_set() == passing(before).intersect(ids.to_set()),
{
    match before {
        Some(b) => {
            lemma_kept_is_intersection(ids, b);
            lemma_kept_is_intersection(b, ids);
            assert(ids.to_set().intersect(b.to_set()) =~= b.to_set().intersect(ids.to_set()));
        },
        None => {
            lemma_distinct(ids);
            assert(Set::<i64>::full().intersect(ids.to_set()) =~= ids.to_set());
        },
    }
}

/// What narrows a search.
#[derive(Clone, Copy, Debug, PartialEq, Eq, Structural)]
pub enum FilterStage {
    /// The directory that is searched, below the root of the project.
    Subdirectory,
    /// A text pattern.
    TextPattern,
    /// Patterns of files to search.
    IncludedFiles,
    /// One file to search.
    SingleFile,
    /// Patterns of files not to search.
    ExcludedFiles,
    /// Directories not to search.
    ExcludedDirs,
}

/// Which stages a search was asked to narrow itself by.
#[derive(Clone, Copy, Debug, PartialEq, Eq, Structural)]
pub struct FilterRequest {
    pub subdirectory: bool,
    pub text_pattern: bool,
    pub included_files: bool,
    pub single_file: bool,
    pub excluded_files: bool,
    pub excluded_dirs: bool,
}

/// A stage, if it was asked for.
pub open spec fn stage_if(asked: bool, stage: FilterStage) -> Seq<FilterStage> {
    if asked {
        seq![stage]
    } else {
        Seq::empty()
    }
}

/// The stages that were asked for, in the order in which they are applied.
pub open spec fn stages_of(f: FilterRequest) -> Seq<FilterStage> {
    stage_if(f.subdirectory, FilterStage::Subdirectory) + stage_if(
        f.text_pattern,
        FilterStage::TextPattern,
    ) + stage_if(f.included_files, FilterStage::IncludedFiles) + stage_if(
        f.single_file,
        FilterStage::SingleFile,
    ) + stage_if(f.excluded_files, FilterStage::ExcludedFiles) + stage_if(
        f.excluded_dirs,
        FilterStage::ExcludedDirs,
    )
}

/// Adds a stage, if it was asked for.
fn push_stage(stages: &mut Vec<FilterStage>, asked: bool, stage: FilterStage)
    ensures
        final(stages)@ == old(stages)@ + stage_if(asked, stage),
{
    if asked {
        stages.push(stage);
    }
    assert(stages@ =~= old(stages)@ + stage_if(asked, stage));
}

/// The stages that were asked for, in the order in which they are applied.
pub fn planned_stages(f: &FilterRequest) -> (r: Vec<FilterStage>)
    ensures
        r@ == stages_of(*f),
        r@.contains(FilterStage::Subdirectory) == f.subdirectory,
        r@.contains(FilterStage::TextPattern) == f.text_pattern,
        r@.contains(FilterStage::IncludedFiles) == f.included_files,
        r@.contains(FilterStage::SingleFile) == f.single_file,
        r@.contains(FilterStage::ExcludedFiles) == f.excluded_files,
        r@.contains(FilterStage::ExcludedDirs) == f.excluded_dirs,
        r@.no_duplicates(),
{
    let mut r: Vec<FilterStage> = Vec::new();
    push_stage(&mut r, f.subdirectory, FilterStage::Subdirectory);
    push_stage(&mut r, f.text_pattern, FilterStage::TextPattern);
    push_stage(&mut r, f.included_files, FilterStage::IncludedFiles);
    push_stage(&mut r, f.single_file, FilterStage::SingleFile);
    push_stage(&mut r, f.excluded_files, FilterStage::ExcludedFiles);
    push_stage(&mut r, f.excluded_dirs, FilterStage::ExcludedDirs);
    assert(r@ =~= stages_of(*f));
    proof {
        law_stages_are_those_asked_for(*f);
    }
    r
}

/// Whether a stage finds ids; the others spare them.
pub open spec fn finds(stage: FilterStage) -> bool {
    stage != FilterStage::ExcludedFiles && stage != FilterStage::ExcludedDirs
}

/// Whether a search ends at once if a stage finds nothing.
pub open spec fn is_decisive(stage: FilterStage) -> bool {
    stage == FilterStage::Subdirectory || stage == FilterStage::TextPattern || stage
        == FilterStage::SingleFile
}

/// The ids that pass a stage, of those that passed before.
pub open spec fn after_stage(
    before: Option<Seq<i64>>,
    stage: FilterStage,
    ids: Seq<i64>,
) -> Seq<i64> {
    if finds(stage) {
        narrowed(before, ids)
    } else {
        spared_of(before, ids)
    }
}

/// The ids that pass some stages, one after the other.
pub open spec fn after_stages(stages: Seq<(FilterStage, Seq<i64>)>) -> Option<Seq<i64>>
    decreases stages.len(),
{
    if stages.len() == 0 {
        None
    } else {
        Some(after_stage(after_stages(stages.drop_last()), stages.last().0, stages.last().1))
    }
}

/// An id passes all stages if and only if every one of them finds or spares it.
pub proof fn law_stages_intersect(stages: Seq<(FilterStage, Seq<i64>)>, id: i64)
    ensures
        passing(after_stages(stages)).contains(id) <==> forall|k: int|
            0 <= k < stages.len() ==> (#[trigger] stages[k]).1.contains(id),
    decreases stages.len(),
{
    if stages.len() > 0 {
        let front = stages.drop_last();
        law_stages_intersect(front, id);
        law_filters_intersect(after_stages(front), stages.last().1);
        let n = stages.len() - 1;
        if forall|k: int| 0 <= k < stages.len() ==> (#[trigger] stages[k]).1.contains(id) {
            assert forall|k: int| 0 <= k < front.len() implies (#[trigger] front[k]).1.contains(
                id,
            ) by {
                assert(stages[k].1.contains(id));
            }
            assert(stages[n].1.contains(id));
        }
        if passing(after_stages(stages)).contains(id) {
            assert forall|k: int| 0 <= k < stages.len() implies (#[trigger] stages[k]).1.contains(
                id,
            ) by {
                if k < n {
                    assert(front[k].1.contains(id));
                }
            }
        }
    }
}

/// Where a stage finds nothing, nothing is left whatever stages follow: a
/// search that ends there misses nothing.
pub proof fn law_empty_stage_is_final(stages: Seq<(FilterStage, Seq<i64>)>, k: int)
    requires
        0 <= k < stages.len(),
        stages[k].1.len() == 0,
    ensures
        after_stages(stages) == Some(Seq::<i64>::empty()),
{
    let left = after_stages(stages)->0;
    if left.len() > 0 {
        let id = left[0];
        law_stages_intersect(stages, id);
        assert(passing(after_stages(stages)).contains(id));
        assert(stages[k].1.contains(id));
        assert(false);
    }
    assert(left =~= Seq::<i64>::empty());
}

impl IdFilter {
    /// A filter that lets every id pass.
    pub fn new() -> (r: IdFilter)
        ensures
            r@ == None::<Seq<i64>>,
    {
        IdFilter { ids: None }
    }

    /// Lets only the ids pass that a stage finds or spares. Tells whether the
    /// search ends here, because the stage found nothing.
    pub fn apply(&mut self, stage: FilterStage, ids: Vec<i64>) -> (ends: bool)
        ensures
            final(self)@ == Some(after_stage(old(self)@, stage, ids@)),
            ends == (is_decisive(stage) && ids@.len() == 0),
            final(self)@ is Some,
            forall|id: i64| #[trigger]
                final(self)@->0.contains(id) <==> ids@.contains(id) && (old(self)@ matches Some(
                    before,
                ) ==> before.contains(id)),
    {
        let empty: bool = ids.len() == 0;
        let ends: bool = empty && (stage == FilterStage::Subdirectory || stage
            == FilterStage::TextPattern || stage == FilterStage::SingleFile);
        let next: Vec<i64> = if stage == FilterStage::ExcludedFiles || stage
            == FilterStage::ExcludedDirs {
            match &self.ids {
                Some(passed) => keep_allowed(passed, &ids),
                None => without_repetitions(&ids),
            }
        } else {
            self.restrict(ids)
        };
        proof {
            law_stage_lets_pass(old(self)@, stage, ids@);
        }
        self.ids = Some(next);
        ends
    }

    /// Whether no id passes any more.
    pub fn is_exhausted(&self) -> (r: bool)
        ensures
            r == (self@ matches Some(ids) && ids.len() == 0),
    {
        match &self.ids {
            Some(ids) => ids.len() == 0,
            None => false,
        }
    }

    /// Of some ids, those that pass.
    pub fn restrict(&self, found: Vec<i64>) -> (r: Vec<i64>)
        ensures
            r@ == narrowed(self@, found@),
    {
        match &self.ids {
            Some(ids) => keep_allowed(&found, ids),
            None => found,
        }
    }
}

/// The ids among which the query's own text is searched for besides, given those
/// that hold it. There is no such search where there is a text pattern, or where
/// no id that passes holds the text.
pub fn text_search(has_pattern: bool, filter: &IdFilter, with_text: Vec<i64>) -> (r: Option<
    Vec<i64>,
>)
    ensures
        r is Some == (!has_pattern && narrowed(filter@, with_text@).len() > 0),
        r matches Some(ids) ==> ids@ == narrowed(filter@, with_text@),
        r matches Some(ids) ==> forall|id: i64| #[trigger]
            ids@.contains(id) <==> with_text@.contains(id) && (filter@ matches Some(passed)
                ==> passed.contains(id)),
{
    proof {
        law_stage_lets_pass(filter@, FilterStage::TextPattern, with_text@);
    }
    if has_pattern {
        return None;
    }
    let ids: Vec<i64> = filter.restrict(with_text);
    if ids.len() > 0 {
        Some(ids)
    } else {
        None
    }
}

/// How many results to ask for, so that enough are left when they have been
/// ranked anew: more where documents will be dropped.
pub fn search_limit(top_k: usize, code_only: bool) -> (r: usize)
    requires
        top_k * (if code_only { 4int } else { 3int }) <= usize::MAX,
    ensures
        r == top_k * (if code_only { 4int } else { 3int }),
{
    if code_only {
        top_k * 4
    } else {
        top_k * 3
    }
}

// ---------------------------------------------------------------------------
// Laws of the stages
// ---------------------------------------------------------------------------

/// A stage is applied if and only if it was asked for, whatever else was; none is
/// applied twice; and what finds comes before what excludes, in a fixed order.
pub proof fn law_stages_are_those_asked_for(f: FilterRequest)
    ensures
        stages_of(f).contains(FilterStage::Subdirectory) == f.subdirectory,
        stages_of(f).contains(FilterStage::TextPattern) == f.text_pattern,
        stages_of(f).contains(FilterStage::IncludedFiles) == f.included_files,
        stages_of(f).contains(FilterStage::SingleFile) == f.single_file,
        stages_of(f).contains(FilterStage::ExcludedFiles) == f.excluded_files,
        stages_of(f).contains(FilterStage::ExcludedDirs) == f.excluded_dirs,
        stages_of(f).no_duplicates(),
        forall|i: int, j: int|
            0 <= i < j < stages_of(f).len() ==> match (
                #[trigger] stages_of(f)[i],
                #[trigger] stages_of(f)[j],
            ) {
                (FilterStage::Subdirectory, _) => true,
                (_, FilterStage::Subdirectory) => false,
                (FilterStage::TextPattern, _) => true,
                (_, FilterStage::TextPattern) => false,
                (FilterStage::IncludedFiles, _) => true,
                (_, FilterStage::IncludedFiles) => false,
                (FilterStage::SingleFile, _) => true,
                (_, FilterStage::SingleFile) => false,
                (FilterStage::ExcludedFiles, _) => true,
                _ => false,
            },
{
    let s0 = Seq::<FilterStage>::empty();
    let s1 = s0 + stage_if(f.subdirectory, FilterStage::Subdirectory);
    let s2 = s1 + stage_if(f.text_pattern, FilterStage::TextPattern);
    let s3 = s2 + stage_if(f.included_files, FilterStage::IncludedFiles);
    let s4 = s3 + stage_if(f.single_file, FilterStage::SingleFile);
    let s5 = s4 + stage_if(f.excluded_files, FilterStage::ExcludedFiles);
    let s6 = s5 + stage_if(f.excluded_dirs, FilterStage::ExcludedDirs);
    lemma_stage_behind(s0, f.subdirectory, FilterStage::Subdirectory);
    lemma_stage_behind(s1, f.text_pattern, FilterStage::TextPattern);
    lemma_stage_behind(s2, f.included_files, FilterStage::IncludedFiles);
    lemma_stage_behind(s3, f.single_file, FilterStage::SingleFile);
    lemma_stage_behind(s4, f.excluded_files, FilterStage::ExcludedFiles);
    lemma_stage_behind(s5, f.excluded_dirs, FilterStage::ExcludedDirs);
    assert(s1 =~= stage_if(f.subdirectory, FilterStage::Subdirectory));
    assert(s6 == stages_of(f));
    assert forall|i: int, j: int| 0 <= i < j < s6.len() implies stage_place(#[trigger] s6[i])
        < stage_place(#[trigger] s6[j]) by {}
}

/// The place of a stage among all stages.
spec fn stage_place(stage: FilterStage) -> int {
    match stage {
        FilterStage::Subdirectory => 0,
        FilterStage::TextPattern => 1,
        FilterStage::IncludedFiles => 2,
        FilterStage::SingleFile => 3,
        FilterStage::ExcludedFiles => 4,
        FilterStage::ExcludedDirs => 5,
    }
}

/// Whether stages stand in their places, all of them in front of a place.
spec fn are_in_place(s: Seq<FilterStage>, limit: int) -> bool {
    &&& forall|i: int| 0 <= i < s.len() ==> stage_place(#[trigger] s[i]) < limit
    &&& forall|i: int, j: int|
        0 <= i < j < s.len() ==> stage_place(#[trigger] s[i]) < stage_place(#[trigger] s[j])
}

/// A stage behind others.
proof fn lemma_stage_behind(s: Seq<FilterStage>, asked: bool, stage: FilterStage)
    requires
        are_in_place(s, stage_place(stage)),
    ensures
        are_in_place(s + stage_if(asked, stage), stage_place(stage) + 1),
        forall|x: FilterStage| #[trigger]
            (s + stage_if(asked, stage)).contains(x) <==> s.contains(x) || (asked && x == stage),
{
    let next = s + stage_if(asked, stage);
    if asked {
        assert(next =~= s.push(stage));
    } else {
        assert(next =~= s);
    }
    assert forall|x: FilterStage| #[trigger]
        next.contains(x) <==> s.contains(x) || (asked && x == stage) by {
        if s.contains(x) {
            let i = choose|i: int| 0 <= i < s.len() && s[i] == x;
            assert(next[i] == x);
        }
        if asked && x == stage {
            assert(next[s.len() as int] == x);
        }
    }
}

/// Which stages find and which exclude, and at which a search ends if they find
/// nothing.
pub proof fn law_kinds_of_stages(stage: FilterStage)
    ensures
        !finds(stage) <==> stage == FilterStage::ExcludedFiles || stage
            == FilterStage::ExcludedDirs,
        is_decisive(stage) <==> stage == FilterStage::Subdirectory || stage
            == FilterStage::TextPattern || stage == FilterStage::SingleFile,
{
}

/// An id passes a stage if and only if it passed before and the stage has it.
pub proof fn law_stage_lets_pass(before: Option<Seq<i64>>, stage: FilterStage, ids: Seq<i64>)
    ensures
        forall|id: i64| #[trigger]
            after_stage(before, stage, ids).contains(id) <==> ids.contains(id) && (before matches Some(
                b,
            ) ==> b.contains(id)),
        forall|id: i64| #[trigger]
            narrowed(before, ids).contains(id) <==> ids.contains(id) && (before matches Some(b)
                ==> b.contains(id)),
{
    law_filters_intersect(before, ids);
    assert forall|id: i64| #[trigger]
        narrowed(before, ids).contains(id) <==> ids.contains(id) && (before matches Some(b)
            ==> b.contains(id)) by {
        assert(narrowed(before, ids).to_set().contains(id) == passing(before).intersect(
            ids.to_set(),
        ).contains(id));
    }
    assert forall|id: i64| #[trigger]
        after_stage(before, stage, ids).contains(id) <==> ids.contains(id) && (before matches Some(
            b,
        ) ==> b.contains(id)) by {
        assert(spared_of(before, ids).to_set().contains(id) == passing(before).intersect(
            ids.to_set(),
        ).contains(id));
        assert(narrowed(before, ids).contains(id) <==> ids.contains(id) && (before matches Some(b)
            ==> b.contains(id)));
    }
}

/// What is left keeps its order and its repetitions: one more id is left behind
/// the others exactly where it is allowed.
pub proof fn law_order_is_kept(ids: Seq<i64>, id: i64, allowed: Seq<i64>)
    ensures
        kept(Seq::empty(), allowed) == Seq::<i64>::empty(),
        allowed.contains(id) ==> kept(ids.push(id), allowed) == kept(ids, allowed).push(id),
        !allowed.contains(id) ==> kept(ids.push(id), allowed) == kept(ids, allowed),
{
    reveal(Seq::filter);
    assert(ids.push(id).drop_last() =~= ids);
}

/// What finds leaves its own ids in its own order; what excludes leaves those
/// that passed before in theirs.
pub proof fn law_stages_keep_order(
    before: Seq<i64>,
    stage: FilterStage,
    ids: Seq<i64>,
    id: i64,
)
    ensures
        stage != FilterStage::ExcludedFiles && stage != FilterStage::ExcludedDirs ==> after_stage(
            None,
            stage,
            ids,
        ) == ids && after_stage(Some(before), stage, ids.push(id)) == if before.contains(id) {
            after_stage(Some(before), stage, ids).push(id)
        } else {
            after_stage(Some(before), stage, ids)
        },
        stage == FilterStage::ExcludedFiles || stage == FilterStage::ExcludedDirs ==> after_stage(
            Some(before.push(id)),
            stage,
            ids,
        ) == if ids.contains(id) {
            after_stage(Some(before), stage, ids).push(id)
        } else {
            after_stage(Some(before), stage, ids)
        },
{
    law_order_is_kept(ids, id, before);
    law_order_is_kept(before, id, ids);
}

} // verus!
