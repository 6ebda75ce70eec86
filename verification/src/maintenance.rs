//! Building and clearing indexes.

use vstd::prelude::*;

use crate::paths::{IndexEntry, ParentIndexInfo};
use crate::state::{maybe_text, recorded_model};
use crate::text::same_text;

verus! {

/// Whether the index in an entry may be cleared for a model: it records that
/// model or none.
pub open spec fn is_cleared_for(model: Seq<char>, e: IndexEntry) -> bool {
    match recorded_model(maybe_text(e.model_id)) {
        Some(recorded) => recorded == model,
        None => true,
    }
}

/// Whether the index in an entry may be cleared for a model.
pub fn may_clear(model: &str, e: &IndexEntry) -> (r: bool)
    ensures
        r == is_cleared_for(model@, *e),
        r == (match e.model_id {
            Some(id) => id@.len() == 0 || id@ == model@,
            None => true,
        }),
{
    match &e.model_id {
        Some(recorded) => recorded.as_str().is_empty() || same_text(recorded.as_str(), model),
        None => true,
    }
}

/// The positions of the entries to clear.
pub open spec fn cleared_positions(model: Seq<char>, entries: Seq<IndexEntry>) -> Seq<int>
    decreases entries.len(),
{
    if entries.len() == 0 {
        Seq::empty()
    } else if is_cleared_for(model, entries.last()) {
        cleared_positions(model, entries.drop_last()).push(entries.len() - 1)
    } else {
        cleared_positions(model, entries.drop_last())
    }
}

/// The positions of the entries to clear when all indexes of a model are.
pub fn entries_to_clear(model: &str, entries: &Vec<IndexEntry>) -> (r: Vec<usize>)
    ensures
        r@.map_values(|i: usize| i as int) == cleared_positions(model@, entries@),
        forall|i: usize| #[trigger]
            r@.contains(i) <==> i < entries@.len() && (match entries@[i as int].model_id {
                Some(id) => id@.len() == 0 || id@ == model@,
                None => true,
            }),
        forall|i: int, j: int| 0 <= i < j < r@.len() ==> #[trigger] r@[i] < #[trigger] r@[j],
{
    let mut r: Vec<usize> = Vec::new();
    let mut i: usize = 0;
    let ghost number = |i: usize| i as int;
    assert(r@.map_values(number) =~= cleared_positions(model@, entries@.take(0)));
    while i < entries.len()
        invariant
            i <= entries.len(),
            number == (|i: usize| i as int),
            r@.map_values(number) == cleared_positions(model@, entries@.take(i as int)),
        decreases entries.len() - i,
    {
        let ghost before = r@;
        assert(entries@.take(i + 1).drop_last() =~= entries@.take(i as int));
        assert(entries@.take(i + 1).last() == entries@[i as int]);
        if may_clear(model, &entries[i]) {
            r.push(i);
            assert(r@.map_values(number) =~= before.map_values(number).push(i as int));
        }
        i = i + 1;
    }
    assert(entries@.take(entries@.len() as int) =~= entries@);
    proof {
        let positions = cleared_positions(model@, entries@);
        assert forall|i: usize| #[trigger]
            r@.contains(i) <==> i < entries@.len() && (match entries@[i as int].model_id {
                Some(id) => id@.len() == 0 || id@ == model@,
                None => true,
            }) by {
            law_other_models_keep_their_indexes(model@, entries@, i as int);
            if i < entries@.len() {
                law_cleared_by_recorded_model(model@, entries@, i as int);
            }
            if r@.contains(i) {
                let k = choose|k: int| 0 <= k < r@.len() && r@[k] == i;
                assert(positions[k] == i);
            }
            if positions.contains(i as int) {
                let k = choose|k: int| 0 <= k < positions.len() && positions[k] == i as int;
                assert(r@[k] == i);
            }
        }
        law_cleared_in_order(model@, entries@);
        assert forall|i: int, j: int| 0 <= i < j < r@.len() implies #[trigger] r@[i]
            < #[trigger] r@[j] by {
            assert(positions[i] < positions[j]);
        }
    }
    r
}

/// When all indexes of a model are cleared, exactly those entries are that
/// record the model or none: the indexes of other models stay.
pub proof fn law_other_models_keep_their_indexes(model: Seq<char>, entries: Seq<IndexEntry>, i: int)
    ensures
        cleared_positions(model, entries).contains(i) <==> 0 <= i < entries.len()
            && is_cleared_for(model, entries[i]),
    decreases entries.len(),
{
    if entries.len() > 0 {
        let front = entries.drop_last();
        law_other_models_keep_their_indexes(model, front, i);
        let fewer = cleared_positions(model, front);
        let all = cleared_positions(model, entries);
        if all.contains(i) {
            let k = choose|k: int| 0 <= k < all.len() && all[k] == i;
            if k < fewer.len() {
                assert(fewer[k] == i);
            }
        }
        if fewer.contains(i) {
            let k = choose|k: int| 0 <= k < fewer.len() && fewer[k] == i;
            assert(all[k] == i);
        }
        if i == entries.len() - 1 && is_cleared_for(model, entries[i]) {
            assert(all[all.len() - 1] == i);
        }
    }
}

/// What the index in an entry is called: by the path of its project, or else by
/// its own directory.
pub fn entry_label(e: &IndexEntry, dir_text: &str) -> (r: String)
    ensures
        r@ == match e.metadata {
            Some(meta) => meta.project_path.text@,
            None => dir_text@,
        },
{
    match &e.metadata {
        Some(meta) => meta.project_path.text.clone(),
        None => dir_text.to_owned(),
    }
}

/// Which index is cleared for a project.
pub enum ClearTarget {
    /// Its own.
    Own,
    /// That of a parent directory.
    Parent(ParentIndexInfo),
    /// None, for there is none.
    Nothing,
}

/// Which index is cleared for a project: its own if it exists, or else that of
/// a parent directory.
pub fn clear_target(own_exists: bool, parent: Option<ParentIndexInfo>) -> (r: ClearTarget)
    ensures
        r == if own_exists {
            ClearTarget::Own
        } else {
            match parent {
                Some(info) => ClearTarget::Parent(info),
                None => ClearTarget::Nothing,
            }
        },
{
    if own_exists {
        return ClearTarget::Own;
    }
    match parent {
        Some(info) => ClearTarget::Parent(info),
        None => ClearTarget::Nothing,
    }
}

/// Why a path cannot be indexed, if it cannot.
pub fn init_refusal(path: &str, exists: bool, is_dir: bool) -> (r: Option<String>)
    ensures
        r is Some == !(exists && is_dir),
        !exists ==> (r matches Some(message) && message@ == "Path does not exist: "@ + path@),
        exists && !is_dir ==> (r matches Some(message) && message@ == "Path is not a directory: "@
            + path@),
{
    if exists && is_dir {
        return None;
    }
    let mut message: String = if exists {
        "Path is not a directory: ".to_owned()
    } else {
        "Path does not exist: ".to_owned()
    };
    message.append(path);
    Some(message)
}

/// An index that records another model is never cleared; one that records the
/// model, or none, or nothing that can be read, always is.
pub proof fn law_cleared_by_recorded_model(model: Seq<char>, entries: Seq<IndexEntry>, i: int)
    requires
        0 <= i < entries.len(),
    ensures
        entries[i].model_id matches Some(id) ==> id@.len() > 0 ==> id@ != model
            ==> !cleared_positions(model, entries).contains(i),
        entries[i].model_id matches Some(id) ==> id@ == model ==> cleared_positions(
            model,
            entries,
        ).contains(i),
        entries[i].model_id matches Some(id) ==> id@.len() == 0 ==> cleared_positions(
            model,
            entries,
        ).contains(i),
        entries[i].model_id is None ==> cleared_positions(model, entries).contains(i),
{
    law_other_models_keep_their_indexes(model, entries, i);
}

/// Indexes are cleared in the order in which they stand, and none twice.
pub proof fn law_cleared_in_order(model: Seq<char>, entries: Seq<IndexEntry>)
    ensures
        forall|i: int, j: int|
            0 <= i < j < cleared_positions(model, entries).len() ==> #[trigger] cleared_positions(
                model,
                entries,
            )[i] < #[trigger] cleared_positions(model, entries)[j],
    decreases entries.len(),
{
    if entries.len() > 0 {
        let front = entries.drop_last();
        let fewer = cleared_positions(model, front);
        law_cleared_in_order(model, front);
        assert forall|i: int| 0 <= i < fewer.len() implies #[trigger] fewer[i] < front.len() by {
            assert(fewer.contains(fewer[i]));
            law_other_models_keep_their_indexes(model, front, fewer[i]);
        }
    }
}

} // verus!
