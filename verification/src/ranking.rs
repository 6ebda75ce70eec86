//! Search results: merging, ranking, selecting and listing them.

use vstd::prelude::*;

use crate::matcher::CodeUnit;
use crate::lists::{
    distinct, law_distinct_keeps_the_first, lemma_distinct, lemma_filter_members,
};
use crate::text::{holds_text, texts};

verus! {

/// A search result.
pub struct SearchHit {
    /// The unit that was found.
    pub unit: CodeUnit,
    /// How well it fits, as an integer that orders hits as their scores do.
    pub rank: i64,
    /// The number by which the caller finds the hit again.
    pub id: usize,
}

// ---------------------------------------------------------------------------
// Ranking
// ---------------------------------------------------------------------------

/// Whether hits stand in descending order of rank.
pub open spec fn descending(hits: Seq<SearchHit>) -> bool {
    forall|i: int, j: int|
        0 <= i < j < hits.len() ==> (#[trigger] hits[i]).rank >= (#[trigger] hits[j]).rank
}

/// The hits of a rank, in their order.
pub open spec fn of_rank(hits: Seq<SearchHit>, rank: i64) -> Seq<SearchHit> {
    hits.filter(|h: SearchHit| h.rank == rank)
}

/// Whether hits are a ranking of others: in descending order, with the hits of
/// each rank in the order in which they came.
pub open spec fn is_ranking(ranked: Seq<SearchHit>, hits: Seq<SearchHit>) -> bool {
    &&& descending(ranked)
    &&& forall|rank: i64| #[trigger] of_rank(ranked, rank) == of_rank(hits, rank)
}

/// Inserting a hit behind all hits of higher rank and in front of all others.
proof fn lemma_insert_keeps_ranks(ranked: Seq<SearchHit>, at: int, h: SearchHit, rank: i64)
    requires
        0 <= at <= ranked.len(),
        forall|i: int| 0 <= i < at ==> (#[trigger] ranked[i]).rank > h.rank,
    ensures
        of_rank(ranked.insert(at, h), rank) == if rank == h.rank {
            seq![h] + of_rank(ranked, rank)
        } else {
            of_rank(ranked, rank)
        },
{
    let same = |x: SearchHit| x.rank == rank;
    let front = ranked.take(at);
    let back = ranked.skip(at);
    assert(ranked =~= front + back);
    assert(ranked.insert(at, h) =~= front + (seq![h] + back));
    Seq::filter_distributes_over_add(front, back, same);
    Seq::filter_distributes_over_add(front, seq![h] + back, same);
    Seq::filter_distributes_over_add(seq![h], back, same);
    reveal(Seq::filter);
    assert(seq![h].drop_last() =~= Seq::<SearchHit>::empty());
    assert(seq![h].last() == h);
    assert(seq![h].drop_last().filter(same) =~= Seq::<SearchHit>::empty());
    if rank == h.rank {
        assert forall|i: int| 0 <= i < front.len() implies !same(#[trigger] front[i]) by {
            assert(front[i] == ranked[i]);
        }
        front.lemma_all_neg_filter_empty(same);
        assert(front.filter(same) =~= Seq::<SearchHit>::empty());
        assert(seq![h].filter(same) =~= seq![h]);
        assert(of_rank(ranked.insert(at, h), rank) =~= seq![h] + of_rank(ranked, rank));
    } else {
        assert(seq![h].filter(same) =~= Seq::<SearchHit>::empty());
        assert(of_rank(ranked.insert(at, h), rank) =~= of_rank(ranked, rank));
    }
}

/// Ranks hits: the better ones first, and hits of the same rank in the order in
/// which they came.
pub fn rank_hits(hits: Vec<SearchHit>) -> (r: Vec<SearchHit>)
    ensures
        is_ranking(r@, hits@),
        forall|i: int, j: int|
            0 <= i < j < r@.len() ==> (#[trigger] r@[i]).rank >= (#[trigger] r@[j]).rank,
        r@.to_multiset() == hits@.to_multiset(),
{
    let ghost all = hits@;
    let mut todo: Vec<SearchHit> = hits;
    let mut r: Vec<SearchHit> = Vec::new();
    proof {
        reveal(Seq::filter);
        assert forall|rank: i64| of_rank(todo@, rank) + of_rank(r@, rank) == #[trigger] of_rank(
            all,
            rank,
        ) by {
            assert(of_rank(todo@, rank) + of_rank(r@, rank) =~= of_rank(all, rank));
        }
    }
    while todo.len() > 0
        invariant
            descending(r@),
            forall|rank: i64|
                of_rank(todo@, rank) + of_rank(r@, rank) == #[trigger] of_rank(all, rank),
        decreases todo.len(),
    {
        let ghost before = todo@;
        let ghost ranked = r@;
        if let Some(h) = todo.pop() {
            let mut at: usize = 0;
            while at < r.len() && r[at].rank > h.rank
                invariant
                    at <= r.len(),
                    forall|i: int| 0 <= i < at ==> (#[trigger] r@[i]).rank > h.rank,
                decreases r.len() - at,
            {
                at = at + 1;
            }
            r.insert(at, h);
            proof {
                reveal(Seq::filter);
                assert(before.drop_last() =~= todo@);
                assert(before.last() == h);
                assert forall|rank: i64|
                    of_rank(todo@, rank) + of_rank(r@, rank) == #[trigger] of_rank(all, rank) by {
                    lemma_insert_keeps_ranks(ranked, at as int, h, rank);
                    assert(of_rank(before, rank) + of_rank(ranked, rank) == of_rank(all, rank));
                    assert(of_rank(todo@, rank) + of_rank(r@, rank) =~= of_rank(before, rank)
                        + of_rank(ranked, rank));
                }
                assert forall|i: int, j: int| 0 <= i < j < r@.len() implies (
                #[trigger] r@[i]).rank >= (#[trigger] r@[j]).rank by {
                    if j > at {
                        assert(r@[j] == ranked[j - 1]);
                        if at < ranked.len() {
                            assert(ranked[at as int].rank >= ranked[j - 1].rank || j - 1 == at);
                        }
                    }
                    if i > at {
                        assert(r@[i] == ranked[i - 1]);
                    } else if i < at {
                        assert(r@[i] == ranked[i as int]);
                    }
                }
            }
        }
    }
    proof {
        reveal(Seq::filter);
        assert forall|rank: i64| #[trigger] of_rank(r@, rank) == of_rank(all, rank) by {
            assert(todo@ =~= Seq::<SearchHit>::empty());
            assert(of_rank(todo@, rank) + of_rank(r@, rank) == of_rank(all, rank));
            assert(of_rank(todo@, rank) + of_rank(r@, rank) =~= of_rank(r@, rank));
        }
        law_ranking_keeps_hits(r@, all);
    }
    r
}

/// The hits of a rank, of a first hit and others behind it.
proof fn lemma_of_rank_first(h: SearchHit, rest: Seq<SearchHit>, rank: i64)
    ensures
        of_rank(seq![h] + rest, rank) == if rank == h.rank {
            seq![h] + of_rank(rest, rank)
        } else {
            of_rank(rest, rank)
        },
{
    assert(rest.insert(0, h) =~= seq![h] + rest);
    lemma_insert_keeps_ranks(rest, 0, h, rank);
}

/// Hits in descending order are determined by the hits of each rank.
proof fn lemma_ranking_is_determined(a: Seq<SearchHit>, b: Seq<SearchHit>)
    requires
        descending(a),
        descending(b),
        forall|rank: i64| #[trigger] of_rank(a, rank) == of_rank(b, rank),
    ensures
        a == b,
    decreases a.len(),
{
    reveal(Seq::filter);
    if a.len() == 0 {
        if b.len() > 0 {
            let rest = b.skip(1);
            assert(b =~= seq![b[0]] + rest);
            lemma_of_rank_first(b[0], rest, b[0].rank);
            assert(of_rank(a, b[0].rank).len() == 0);
            assert(false);
        }
        assert(a =~= b);
    } else {
        let ra = a.skip(1);
        assert(a =~= seq![a[0]] + ra);
        lemma_of_rank_first(a[0], ra, a[0].rank);
        assert(of_rank(a, a[0].rank)[0] == a[0]);
        if b.len() == 0 {
            assert(of_rank(b, a[0].rank).len() == 0);
            assert(false);
        }
        let rb = b.skip(1);
        assert(b =~= seq![b[0]] + rb);
        lemma_of_rank_first(b[0], rb, b[0].rank);
        assert(of_rank(b, b[0].rank)[0] == b[0]);
        // Each first hit stands in the other list, so neither outranks the other.
        let sa = |x: SearchHit| x.rank == a[0].rank;
        let sb = |x: SearchHit| x.rank == b[0].rank;
        assert(of_rank(b, a[0].rank)[0] == a[0]);
        assert(b.filter(sa).contains(a[0]));
        b.lemma_filter_contains_rev(sa, a[0]);
        assert(of_rank(a, b[0].rank)[0] == b[0]);
        assert(a.filter(sb).contains(b[0]));
        a.lemma_filter_contains_rev(sb, b[0]);
        let i = choose|i: int| 0 <= i < b.len() && b[i] == a[0];
        let j = choose|j: int| 0 <= j < a.len() && a[j] == b[0];
        assert(b[0].rank >= b[i].rank);
        assert(a[0].rank >= a[j].rank);
        assert(a[0] == b[0]);
        assert forall|rank: i64| #[trigger] of_rank(ra, rank) == of_rank(rb, rank) by {
            lemma_of_rank_first(a[0], ra, rank);
            lemma_of_rank_first(b[0], rb, rank);
            assert(of_rank(a, rank) == of_rank(b, rank));
            if rank == a[0].rank {
                assert((seq![a[0]] + of_rank(ra, rank)).skip(1) =~= of_rank(ra, rank));
                assert((seq![b[0]] + of_rank(rb, rank)).skip(1) =~= of_rank(rb, rank));
            }
        }
        assert(descending(ra)) by {
            assert forall|x: int, y: int| 0 <= x < y < ra.len() implies (#[trigger] ra[x]).rank >= (
            #[trigger] ra[y]).rank by {
                assert(ra[x] == a[x + 1] && ra[y] == a[y + 1]);
            }
        }
        assert(descending(rb)) by {
            assert forall|x: int, y: int| 0 <= x < y < rb.len() implies (#[trigger] rb[x]).rank >= (
            #[trigger] rb[y]).rank by {
                assert(rb[x] == b[x + 1] && rb[y] == b[y + 1]);
            }
        }
        lemma_ranking_is_determined(ra, rb);
    }
}

/// There is one way only to rank hits, and ranking ranked hits again changes
/// nothing.
pub proof fn law_ranking_is_determined(
    hits: Seq<SearchHit>,
    a: Seq<SearchHit>,
    b: Seq<SearchHit>,
    again: Seq<SearchHit>,
)
    requires
        is_ranking(a, hits),
        is_ranking(b, hits),
        is_ranking(again, a),
    ensures
        a == b,
        again == a,
{
    assert forall|rank: i64| #[trigger] of_rank(a, rank) == of_rank(b, rank) by {
        assert(of_rank(b, rank) == of_rank(hits, rank));
    }
    lemma_ranking_is_determined(a, b);
    lemma_ranking_is_determined(again, a);
}

/// How often a hit occurs among the hits of its rank.
proof fn lemma_count_of_rank(hits: Seq<SearchHit>, h: SearchHit)
    ensures
        hits.to_multiset().count(h) == of_rank(hits, h.rank).to_multiset().count(h),
    decreases hits.len(),
{
    broadcast use vstd::seq_lib::group_to_multiset_ensures;

    reveal(Seq::filter);
    if hits.len() > 0 {
        let front = hits.drop_last();
        lemma_count_of_rank(front, h);
        assert(front.push(hits.last()) =~= hits);
    }
}

/// Ranking loses no hit and adds none.
pub proof fn law_ranking_keeps_hits(a: Seq<SearchHit>, b: Seq<SearchHit>)
    requires
        is_ranking(a, b),
    ensures
        a.to_multiset() == b.to_multiset(),
{
    assert forall|h: SearchHit| a.to_multiset().count(h) == b.to_multiset().count(h) by {
        lemma_count_of_rank(a, h);
        lemma_count_of_rank(b, h);
        assert(of_rank(a, h.rank) == of_rank(b, h.rank));
    }
    assert(a.to_multiset() =~= b.to_multiset());
}

// ---------------------------------------------------------------------------
// Merging
// ---------------------------------------------------------------------------

/// Whether two hits are the same unit: in the same file, at the same line.
pub open spec fn same_unit(a: SearchHit, b: SearchHit) -> bool {
    a.unit.file.parts@ == b.unit.file.parts@ && a.unit.line == b.unit.line
}

/// Whether a hit is the first of the best for its unit.
pub open spec fn is_best(hits: Seq<SearchHit>, i: int) -> bool {
    &&& 0 <= i < hits.len()
    &&& forall|j: int|
        0 <= j < hits.len() && same_unit(#[trigger] hits[j], hits[i]) ==> hits[j].rank
            < hits[i].rank || (hits[j].rank == hits[i].rank && i <= j)
}

/// Whether a hit is the one at a position, and the first of the best for its
/// unit.
pub open spec fn stands_for(h: SearchHit, hits: Seq<SearchHit>, i: int) -> bool {
    is_best(hits, i) && hits[i] == h
}

/// Whether a hit is among some hits, and the first of the best for its unit.
pub open spec fn is_best_among(h: SearchHit, hits: Seq<SearchHit>) -> bool {
    exists|i: int| stands_for(h, hits, i)
}

/// Whether a hit for the same unit is among some hits.
pub open spec fn covers(merged: Seq<SearchHit>, h: SearchHit) -> bool {
    exists|k: int| 0 <= k < merged.len() && same_unit(#[trigger] merged[k], h)
}

/// Whether some hits are, for each unit among others, the first of the best.
#[verifier::opaque]
pub open spec fn are_merged(merged: Seq<SearchHit>, hits: Seq<SearchHit>) -> bool {
    &&& forall|k: int| 0 <= k < merged.len() ==> is_best_among(#[trigger] merged[k], hits)
    &&& forall|i: int| 0 <= i < hits.len() ==> covers(merged, #[trigger] hits[i])
    &&& forall|k: int, m: int|
        0 <= k < m < merged.len() ==> !same_unit(#[trigger] merged[k], #[trigger] merged[m])
}

/// The position of the hit for the same unit.
fn position_of_unit(hits: &Vec<SearchHit>, h: &SearchHit) -> (r: Option<usize>)
    ensures
        r matches Some(k) ==> k < hits@.len() && same_unit(hits@[k as int], *h),
        r is None ==> !covers(hits@, *h),
{
    let mut k: usize = 0;
    while k < hits.len()
        invariant
            k <= hits.len(),
            forall|m: int| 0 <= m < k ==> !same_unit(#[trigger] hits@[m], *h),
        decreases hits.len() - k,
    {
        if hits[k].unit.line == h.unit.line && hits[k].unit.file.parts.is_same(
            &h.unit.file.parts,
        ) {
            return Some(k);
        }
        k = k + 1;
    }
    None
}

/// A best hit stays one when a hit follows that is for another unit or no
/// better.
proof fn lemma_best_stays(hits: Seq<SearchHit>, h: SearchHit, i: int)
    requires
        is_best(hits, i),
        same_unit(h, hits[i]) ==> h.rank <= hits[i].rank,
    ensures
        is_best(hits.push(h), i),
        hits.push(h)[i] == hits[i],
{
    let all = hits.push(h);
    assert forall|j: int| 0 <= j < all.len() && same_unit(#[trigger] all[j], all[i]) implies
        all[j].rank < all[i].rank || (all[j].rank == all[i].rank && i <= j) by {
        if j < hits.len() {
            assert(all[j] == hits[j]);
        }
    }
}

/// A merged hit stands for one of the hits.
proof fn lemma_merged_position(merged: Seq<SearchHit>, hits: Seq<SearchHit>, k: int) -> (i: int)
    requires
        are_merged(merged, hits),
        0 <= k < merged.len(),
    ensures
        stands_for(merged[k], hits, i),
{
    reveal(are_merged);
    assert(is_best_among(merged[k], hits));
    choose|i: int| stands_for(merged[k], hits, i)
}

/// For every hit there is a merged one for the same unit.
proof fn lemma_covering_position(merged: Seq<SearchHit>, hits: Seq<SearchHit>, i: int) -> (k: int)
    requires
        are_merged(merged, hits),
        0 <= i < hits.len(),
    ensures
        0 <= k < merged.len(),
        same_unit(merged[k], hits[i]),
{
    reveal(are_merged);
    assert(covers(merged, hits[i]));
    choose|k: int| 0 <= k < merged.len() && same_unit(#[trigger] merged[k], hits[i])
}

/// No two merged hits are for the same unit.
proof fn lemma_merged_apart(merged: Seq<SearchHit>, hits: Seq<SearchHit>, k: int, m: int)
    requires
        are_merged(merged, hits),
        0 <= k < merged.len(),
        0 <= m < merged.len(),
        k != m,
    ensures
        !same_unit(merged[k], merged[m]),
{
    reveal(are_merged);
    if k > m {
        assert(!same_unit(merged[m], merged[k]));
    }
}

/// What hits are merged, part by part.
proof fn lemma_are_merged(merged: Seq<SearchHit>, hits: Seq<SearchHit>)
    requires
        forall|k: int| 0 <= k < merged.len() ==> is_best_among(#[trigger] merged[k], hits),
        forall|i: int| 0 <= i < hits.len() ==> covers(merged, #[trigger] hits[i]),
        forall|k: int, m: int|
            0 <= k < m < merged.len() ==> !same_unit(#[trigger] merged[k], #[trigger] merged[m]),
    ensures
        are_merged(merged, hits),
{
    reveal(are_merged);
}

/// In merged hits, a hit for a unit is at least as good as any that was merged
/// for it.
proof fn lemma_merged_is_best(merged: Seq<SearchHit>, hits: Seq<SearchHit>, k: int, j: int)
    requires
        are_merged(merged, hits),
        0 <= k < merged.len(),
        0 <= j < hits.len(),
        same_unit(merged[k], hits[j]),
    ensures
        hits[j].rank <= merged[k].rank,
{
    let i = lemma_merged_position(merged, hits, k);
    assert(same_unit(hits[j], hits[i]));
}

/// A hit for a unit that was not merged yet.
proof fn lemma_merge_new(merged: Seq<SearchHit>, hits: Seq<SearchHit>, h: SearchHit)
    requires
        are_merged(merged, hits),
        !covers(merged, h),
    ensures
        are_merged(merged.push(h), hits.push(h)),
{
    let next = merged.push(h);
    let all = hits.push(h);
    let n = hits.len() as int;
    assert forall|k: int| 0 <= k < next.len() implies is_best_among(#[trigger] next[k], all) by {
        if k < merged.len() {
            let i = lemma_merged_position(merged, hits, k);
            assert(!same_unit(merged[k], h));
            lemma_best_stays(hits, h, i);
            assert(stands_for(next[k], all, i));
        } else {
            assert forall|j: int| 0 <= j < all.len() && same_unit(#[trigger] all[j], all[n]) implies
                all[j].rank < all[n].rank || (all[j].rank == all[n].rank && n <= j) by {
                if j < n {
                    let m = lemma_covering_position(merged, hits, j);
                    assert(same_unit(merged[m], h));
                }
            }
            assert(stands_for(next[k], all, n));
        }
    }
    assert forall|i: int| 0 <= i < all.len() implies covers(next, #[trigger] all[i]) by {
        if i < n {
            let k = lemma_covering_position(merged, hits, i);
            assert(same_unit(next[k], all[i]));
        } else {
            assert(same_unit(next[merged.len() as int], all[i]));
        }
    }
    assert forall|k: int, m: int| 0 <= k < m < next.len() implies !same_unit(
        #[trigger] next[k],
        #[trigger] next[m],
    ) by {
        if m < merged.len() {
            lemma_merged_apart(merged, hits, k, m);
        } else {
            assert(!same_unit(merged[k], h));
        }
    }
    lemma_are_merged(next, all);
}

/// A hit for a unit that was merged already, and that is no better.
proof fn lemma_merge_no_better(
    merged: Seq<SearchHit>,
    hits: Seq<SearchHit>,
    h: SearchHit,
    at: int,
)
    requires
        are_merged(merged, hits),
        0 <= at < merged.len(),
        same_unit(merged[at], h),
        h.rank <= merged[at].rank,
    ensures
        are_merged(merged, hits.push(h)),
{
    let all = hits.push(h);
    assert forall|k: int| 0 <= k < merged.len() implies is_best_among(
        #[trigger] merged[k],
        all,
    ) by {
        let i = lemma_merged_position(merged, hits, k);
        if k != at {
            lemma_merged_apart(merged, hits, k, at);
        }
        lemma_best_stays(hits, h, i);
        assert(stands_for(merged[k], all, i));
    }
    assert forall|i: int| 0 <= i < all.len() implies covers(merged, #[trigger] all[i]) by {
        if i < hits.len() {
            let k = lemma_covering_position(merged, hits, i);
            assert(same_unit(merged[k], all[i]));
        } else {
            assert(same_unit(merged[at], all[i]));
        }
    }
    assert forall|k: int, m: int| 0 <= k < m < merged.len() implies !same_unit(
        #[trigger] merged[k],
        #[trigger] merged[m],
    ) by {
        lemma_merged_apart(merged, hits, k, m);
    }
    lemma_are_merged(merged, all);
}

/// A better hit for a unit that was merged already.
proof fn lemma_merge_better(merged: Seq<SearchHit>, hits: Seq<SearchHit>, h: SearchHit, at: int)
    requires
        are_merged(merged, hits),
        0 <= at < merged.len(),
        same_unit(merged[at], h),
        h.rank > merged[at].rank,
    ensures
        are_merged(merged.update(at, h), hits.push(h)),
{
    let next = merged.update(at, h);
    let all = hits.push(h);
    let n = hits.len() as int;
    assert forall|k: int| 0 <= k < next.len() implies is_best_among(#[trigger] next[k], all) by {
        if k == at {
            assert forall|j: int| 0 <= j < all.len() && same_unit(#[trigger] all[j], all[n]) implies
                all[j].rank < all[n].rank || (all[j].rank == all[n].rank && n <= j) by {
                if j < n {
                    assert(same_unit(merged[at], hits[j]));
                    lemma_merged_is_best(merged, hits, at, j);
                }
            }
            assert(stands_for(next[k], all, n));
        } else {
            let i = lemma_merged_position(merged, hits, k);
            lemma_merged_apart(merged, hits, k, at);
            lemma_best_stays(hits, h, i);
            assert(stands_for(next[k], all, i));
        }
    }
    assert forall|i: int| 0 <= i < all.len() implies covers(next, #[trigger] all[i]) by {
        if i < n {
            let k = lemma_covering_position(merged, hits, i);
            assert(same_unit(next[k], all[i]));
        } else {
            assert(same_unit(next[at], all[i]));
        }
    }
    assert forall|k: int, m: int| 0 <= k < m < next.len() implies !same_unit(
        #[trigger] next[k],
        #[trigger] next[m],
    ) by {
        lemma_merged_apart(merged, hits, k, m);
    }
    lemma_are_merged(next, all);
}

/// Merges more hits into merged hits. Of two hits for the same unit the better
/// one stays, and of two that are equally good the first.
fn merge_into(merged: &mut Vec<SearchHit>, more: Vec<SearchHit>, Ghost(hits): Ghost<Seq<SearchHit>>)
    requires
        are_merged(old(merged)@, hits),
    ensures
        are_merged(final(merged)@, hits + more@),
{
    let ghost all = more@;
    assert(hits + all.take(0) =~= hits);
    for h in it: more
        invariant
            it.seq() == all,
            are_merged(merged@, hits + all.take(it.index())),
    {
        let ghost before = merged@;
        let ghost seen = hits + all.take(it.index());
        assert(hits + all.take(it.index() + 1) =~= seen.push(h));
        match position_of_unit(merged, &h) {
            Some(k) => {
                if h.rank > merged[k].rank {
                    merged.set(k, h);
                    proof {
                        lemma_merge_better(before, seen, h, k as int);
                    }
                } else {
                    proof {
                        lemma_merge_no_better(before, seen, h, k as int);
                    }
                }
            },
            None => {
                merged.push(h);
                proof {
                    lemma_merge_new(before, seen, h);
                }
            },
        }
    }
    assert(all.take(all.len() as int) =~= all);
}

/// Merges the hits of a semantic search with those of a search for the text of
/// the query, so that each unit is found once, with its best rank.
pub fn merge_hits(semantic: Vec<SearchHit>, hybrid: Vec<SearchHit>) -> (r: Vec<SearchHit>)
    ensures
        are_merged(r@, semantic@ + hybrid@),
        holds_every_unit(r@, semantic@ + hybrid@),
{
    let ghost all = semantic@ + hybrid@;
    let mut r: Vec<SearchHit> = Vec::new();
    let ghost first = semantic@;
    proof {
        reveal(are_merged);
        assert(are_merged(r@, Seq::empty()));
    }
    merge_into(&mut r, semantic, Ghost(Seq::empty()));
    assert(Seq::<SearchHit>::empty() + first =~= first);
    merge_into(&mut r, hybrid, Ghost(first));
    proof {
        lemma_holds_every_unit(r@, all);
    }
    r
}

/// The hits of a search. With a text pattern they are those that were found by
/// meaning; else those that hold the query's own text are merged with them.
pub fn combine_hits(has_pattern: bool, semantic: Vec<SearchHit>, hybrid: Vec<SearchHit>) -> (r: Vec<
    SearchHit,
>)
    ensures
        has_pattern ==> r@ == semantic@,
        !has_pattern ==> are_merged(r@, semantic@ + hybrid@),
        !has_pattern ==> holds_every_unit(r@, semantic@ + hybrid@),
{
    if has_pattern {
        semantic
    } else {
        merge_hits(semantic, hybrid)
    }
}

/// No hit is lost by merging but to one for the same unit that is as good or
/// better.
pub proof fn law_merge_keeps_the_best(merged: Seq<SearchHit>, hits: Seq<SearchHit>, i: int)
    requires
        are_merged(merged, hits),
        0 <= i < hits.len(),
    ensures
        exists|k: int|
            0 <= k < merged.len() && same_unit(#[trigger] merged[k], hits[i]) && merged[k].rank
                >= hits[i].rank,
{
    let k = lemma_covering_position(merged, hits, i);
    lemma_merged_is_best(merged, hits, k, i);
}

/// A hit that one way of merging keeps, every other keeps.
proof fn lemma_merged_alike(a: Seq<SearchHit>, b: Seq<SearchHit>, hits: Seq<SearchHit>, k: int)
    requires
        are_merged(a, hits),
        are_merged(b, hits),
        0 <= k < a.len(),
    ensures
        b.contains(a[k]),
{
    let i = lemma_merged_position(a, hits, k);
    let m = lemma_covering_position(b, hits, i);
    let j = lemma_merged_position(b, hits, m);
    assert(same_unit(hits[j], hits[i]));
    assert(same_unit(hits[i], hits[j]));
    assert(i == j);
    assert(b[m] == a[k]);
}

/// Which hits are left by merging is determined; only their order is open.
pub proof fn law_merge_is_determined(a: Seq<SearchHit>, b: Seq<SearchHit>, hits: Seq<SearchHit>)
    requires
        are_merged(a, hits),
        are_merged(b, hits),
    ensures
        a.to_set() == b.to_set(),
{
    assert forall|h: SearchHit| a.to_set().contains(h) == b.to_set().contains(h) by {
        if a.contains(h) {
            let k = choose|k: int| 0 <= k < a.len() && a[k] == h;
            lemma_merged_alike(a, b, hits, k);
        }
        if b.contains(h) {
            let k = choose|k: int| 0 <= k < b.len() && b[k] == h;
            lemma_merged_alike(b, a, hits, k);
        }
    }
    assert(a.to_set() =~= b.to_set());
}

// ---------------------------------------------------------------------------
// Selecting and listing
// ---------------------------------------------------------------------------

/// The hits that may be shown: all of them, or those that are code.
pub open spec fn eligible(hits: Seq<SearchHit>, code_only: bool) -> Seq<SearchHit> {
    hits.filter(|h: SearchHit| !code_only || !h.unit.text_format)
}

/// The first items of a list, as many as are wanted and there.
pub open spec fn first_few(hits: Seq<SearchHit>, count: nat) -> Seq<SearchHit> {
    if count < hits.len() {
        hits.take(count as int)
    } else {
        hits
    }
}

/// Selects the hits to show: the first of those that may be shown.
pub fn select_hits(hits: Vec<SearchHit>, code_only: bool, top_k: usize) -> (r: Vec<SearchHit>)
    ensures
        r@ == first_few(eligible(hits@, code_only), top_k as nat),
{
    let ghost all = hits@;
    let mut r: Vec<SearchHit> = Vec::new();
    proof {
        reveal(Seq::filter);
        assert(eligible(all.take(0), code_only) =~= Seq::<SearchHit>::empty());
    }
    for h in it: hits
        invariant
            it.seq() == all,
            r@ == first_few(eligible(all.take(it.index()), code_only), top_k as nat),
    {
        proof {
            reveal(Seq::filter);
            let seen = all.take(it.index() + 1);
            assert(seen.drop_last() =~= all.take(it.index()));
            assert(seen.last() == h);
        }
        let ghost before = eligible(all.take(it.index()), code_only);
        if r.len() < top_k && (!code_only || !h.unit.text_format) {
            assert(r@ == before);
            r.push(h);
        }
        assert(r@ =~= first_few(eligible(all.take(it.index() + 1), code_only), top_k as nat));
    }
    assert(all.take(all.len() as int) =~= all);
    r
}

/// The hits to show, of all that were found: the best of those that may be
/// shown, best first.
pub fn top_hits(hits: Vec<SearchHit>, code_only: bool, top_k: usize) -> (r: Vec<SearchHit>)
    ensures
        exists|ranked: Seq<SearchHit>| #[trigger]
            is_ranking(ranked, hits@) && r@ == first_few(
                eligible(ranked, code_only),
                top_k as nat,
            ),
        are_the_best(r@, hits@, code_only, top_k as nat),
{
    let ghost all = hits@;
    let ranked: Vec<SearchHit> = rank_hits(hits);
    assert(is_ranking(ranked@, all));
    let ghost order = ranked@;
    let r: Vec<SearchHit> = select_hits(ranked, code_only, top_k);
    proof {
        law_top_hits_are_the_best(all, order, code_only, top_k as nat);
    }
    r
}

/// No more hits are shown than are wanted; every hit shown was found and may be
/// shown; and where fewer are shown than are wanted, none is missing.
pub proof fn law_selection(hits: Seq<SearchHit>, code_only: bool, top_k: nat)
    ensures
        first_few(eligible(hits, code_only), top_k).len() <= top_k,
        forall|i: int|
            0 <= i < first_few(eligible(hits, code_only), top_k).len() ==> {
                let h = #[trigger] first_few(eligible(hits, code_only), top_k)[i];
                hits.contains(h) && !(code_only && h.unit.text_format)
            },
        first_few(eligible(hits, code_only), top_k).len() < top_k ==> forall|j: int|
            0 <= j < hits.len() && !(code_only && hits[j].unit.text_format) ==> first_few(
                eligible(hits, code_only),
                top_k,
            ).contains(#[trigger] hits[j]),
{
    let keep = |h: SearchHit| !code_only || !h.unit.text_format;
    lemma_filter_members(hits, keep);
    let all = eligible(hits, code_only);
    let some = first_few(all, top_k);
    assert forall|i: int| 0 <= i < some.len() implies {
        let h = #[trigger] some[i];
        hits.contains(h) && !(code_only && h.unit.text_format)
    } by {
        assert(some[i] == hits.filter(keep)[i]);
    }
}

/// Leaving hits out keeps the others in descending order.
proof fn lemma_eligible_descend(hits: Seq<SearchHit>, code_only: bool)
    requires
        descending(hits),
    ensures
        descending(eligible(hits, code_only)),
        hits.len() > 0 ==> forall|i: int|
            0 <= i < eligible(hits, code_only).len() ==> (#[trigger] eligible(
                hits,
                code_only,
            )[i]).rank >= hits.last().rank,
    decreases hits.len(),
{
    reveal(Seq::filter);
    if hits.len() > 0 {
        let front = hits.drop_last();
        let kept = eligible(front, code_only);
        lemma_eligible_descend(front, code_only);
        assert forall|i: int| 0 <= i < kept.len() implies (#[trigger] kept[i]).rank
            >= hits.last().rank by {
            assert(kept[i].rank >= front.last().rank);
            assert(hits[front.len() - 1].rank >= hits[hits.len() - 1].rank);
        }
    }
}

/// Of ranked hits the best are shown: none that is left out, though it may be
/// shown, is better than one that is shown.
pub proof fn law_best_are_shown(
    hits: Seq<SearchHit>,
    ranked: Seq<SearchHit>,
    code_only: bool,
    top_k: nat,
    shown: int,
    left_out: int,
)
    requires
        is_ranking(ranked, hits),
        0 <= shown < first_few(eligible(ranked, code_only), top_k).len(),
        first_few(eligible(ranked, code_only), top_k).len() <= left_out < eligible(
            ranked,
            code_only,
        ).len(),
    ensures
        first_few(eligible(ranked, code_only), top_k)[shown].rank >= eligible(
            ranked,
            code_only,
        )[left_out].rank,
{
    lemma_eligible_descend(ranked, code_only);
}

/// The texts of the files that hits stand in.
pub open spec fn file_texts(hits: Seq<SearchHit>) -> Seq<Seq<char>> {
    hits.map_values(|h: SearchHit| h.unit.file.text@)
}

/// The files that hits stand in, each once, in the order of their first hits.
pub fn unique_files(hits: &Vec<SearchHit>) -> (r: Vec<String>)
    ensures
        texts(r@) == distinct(file_texts(hits@)),
        texts(r@).no_duplicates(),
        forall|i: int| 0 <= i < hits@.len() ==> texts(r@).contains((#[trigger] hits@[i]).unit.file.text@),
{
    let mut r: Vec<String> = Vec::new();
    let mut i: usize = 0;
    assert(texts(r@) =~= distinct(file_texts(hits@.take(0))));
    while i < hits.len()
        invariant
            i <= hits.len(),
            texts(r@) == distinct(file_texts(hits@.take(i as int))),
        decreases hits.len() - i,
    {
        let ghost before = r@;
        proof {
            let seen = file_texts(hits@.take(i + 1));
            assert(seen.drop_last() =~= file_texts(hits@.take(i as int)));
            assert(seen.last() == hits@[i as int].unit.file.text@);
        }
        if !holds_text(&r, hits[i].unit.file.text.as_str()) {
            r.push(hits[i].unit.file.text.clone());
            assert(texts(r@) =~= texts(before).push(hits@[i as int].unit.file.text@));
        }
        i = i + 1;
    }
    assert(hits@.take(hits@.len() as int) =~= hits@);
    proof {
        law_listed_files(hits@);
        assert forall|i: int| 0 <= i < hits@.len() implies texts(r@).contains(
            (#[trigger] hits@[i]).unit.file.text@,
        ) by {
            assert(file_texts(hits@)[i] == hits@[i].unit.file.text@);
            assert(file_texts(hits@).to_set().contains(hits@[i].unit.file.text@));
            assert(texts(r@).to_set().contains(hits@[i].unit.file.text@));
        }
    }
    r
}

/// The files that are listed are those that some hit stands in, and none is
/// listed twice.
pub proof fn law_listed_files(hits: Seq<SearchHit>)
    ensures
        distinct(file_texts(hits)).to_set() == file_texts(hits).to_set(),
        distinct(file_texts(hits)).no_duplicates(),
{
    lemma_distinct(file_texts(hits));
}

/// The hits that are code, in their order.
pub open spec fn code_hits(hits: Seq<SearchHit>) -> Seq<SearchHit> {
    hits.filter(|h: SearchHit| !h.unit.text_format)
}

/// The hits that are text or configuration, in their order.
pub open spec fn document_hits(hits: Seq<SearchHit>) -> Seq<SearchHit> {
    hits.filter(|h: SearchHit| h.unit.text_format)
}

/// Parts hits into those that are code and those that are not.
pub fn split_by_kind(hits: Vec<SearchHit>) -> (r: (Vec<SearchHit>, Vec<SearchHit>))
    ensures
        r.0@ == code_hits(hits@),
        r.1@ == document_hits(hits@),
        forall|i: int| 0 <= i < r.0@.len() ==> !(#[trigger] r.0@[i]).unit.text_format,
        forall|i: int| 0 <= i < r.1@.len() ==> (#[trigger] r.1@[i]).unit.text_format,
        (r.0@ + r.1@).to_multiset() == hits@.to_multiset(),
{
    let ghost all = hits@;
    let mut code: Vec<SearchHit> = Vec::new();
    let mut documents: Vec<SearchHit> = Vec::new();
    proof {
        reveal(Seq::filter);
        assert(code_hits(all.take(0)) =~= Seq::<SearchHit>::empty());
        assert(document_hits(all.take(0)) =~= Seq::<SearchHit>::empty());
    }
    for h in it: hits
        invariant
            it.seq() == all,
            code@ == code_hits(all.take(it.index())),
            documents@ == document_hits(all.take(it.index())),
    {
        proof {
            reveal(Seq::filter);
            let seen = all.take(it.index() + 1);
            assert(seen.drop_last() =~= all.take(it.index()));
            assert(seen.last() == h);
        }
        if h.unit.text_format {
            documents.push(h);
        } else {
            code.push(h);
        }
    }
    assert(all.take(all.len() as int) =~= all);
    proof {
        law_kinds_part_hits(all);
        lemma_filter_members(all, |h: SearchHit| !h.unit.text_format);
        lemma_filter_members(all, |h: SearchHit| h.unit.text_format);
    }
    (code, documents)
}

/// Each hit is either code or a document, so that parting hits loses none and
/// shows none twice.
pub proof fn law_kinds_part_hits(hits: Seq<SearchHit>)
    ensures
        code_hits(hits).len() + document_hits(hits).len() == hits.len(),
        (code_hits(hits) + document_hits(hits)).to_multiset() == hits.to_multiset(),
    decreases hits.len(),
{
    broadcast use vstd::seq_lib::group_to_multiset_ensures;

    reveal(Seq::filter);
    if hits.len() > 0 {
        let front = hits.drop_last();
        let h = hits.last();
        law_kinds_part_hits(front);
        vstd::seq_lib::lemma_multiset_commutative(code_hits(front), document_hits(front));
        vstd::seq_lib::lemma_multiset_commutative(code_hits(hits), document_hits(hits));
        assert(front.push(h) =~= hits);
        assert((code_hits(hits) + document_hits(hits)).to_multiset() =~= hits.to_multiset());
    } else {
        assert(code_hits(hits) + document_hits(hits) =~= hits);
    }
}

/// The highest number of a last line.
pub open spec fn highest_line(hits: Seq<SearchHit>) -> usize
    decreases hits.len(),
{
    if hits.len() == 0 {
        0
    } else if hits.last().unit.end_line > highest_line(hits.drop_last()) {
        hits.last().unit.end_line
    } else {
        highest_line(hits.drop_last())
    }
}

/// The number of decimal digits of a number.
pub open spec fn decimal_digits(n: nat) -> nat
    decreases n,
{
    if n < 10 {
        1
    } else {
        1 + decimal_digits(n / 10)
    }
}

/// How many columns line numbers take.
pub open spec fn number_width(hits: Seq<SearchHit>) -> nat {
    if decimal_digits(highest_line(hits) as nat) < 4 {
        4
    } else {
        decimal_digits(highest_line(hits) as nat)
    }
}

/// How many columns line numbers take, so that those of all hits line up.
pub fn line_number_width(hits: &Vec<SearchHit>) -> (r: usize)
    ensures
        r == number_width(hits@),
{
    let mut highest: usize = 0;
    let mut i: usize = 0;
    while i < hits.len()
        invariant
            i <= hits.len(),
            highest == highest_line(hits@.take(i as int)),
        decreases hits.len() - i,
    {
        assert(hits@.take(i + 1).drop_last() =~= hits@.take(i as int));
        if hits[i].unit.end_line > highest {
            highest = hits[i].unit.end_line;
        }
        i = i + 1;
    }
    assert(hits@.take(hits@.len() as int) =~= hits@);
    let mut digits: usize = 1;
    let mut rest: usize = highest;
    while rest >= 10
        invariant
            digits + decimal_digits(rest as nat) == 1 + decimal_digits(highest as nat),
            digits + rest <= 1 + highest,
            digits <= highest || rest == highest,
        decreases rest,
    {
        rest = rest / 10;
        digits = digits + 1;
    }
    if digits < 4 {
        4
    } else {
        digits
    }
}

/// A number has no more decimal digits than a greater one.
proof fn lemma_digits_grow(a: nat, b: nat)
    requires
        a <= b,
    ensures
        decimal_digits(a) <= decimal_digits(b),
    decreases b,
{
    if b >= 10 && a >= 10 {
        lemma_digits_grow(a / 10, b / 10);
    }
}

/// Every line number of a hit fits into the columns that line numbers take.
pub proof fn law_line_numbers_fit(hits: Seq<SearchHit>, i: int, line: nat)
    requires
        0 <= i < hits.len(),
        line <= hits[i].unit.end_line,
    ensures
        decimal_digits(line) <= number_width(hits),
    decreases hits.len(),
{
    lemma_highest(hits, i);
    lemma_digits_grow(line, highest_line(hits) as nat);
}

/// No last line has a higher number than the highest.
proof fn lemma_highest(hits: Seq<SearchHit>, i: int)
    requires
        0 <= i < hits.len(),
    ensures
        hits[i].unit.end_line <= highest_line(hits),
    decreases hits.len(),
{
    if i < hits.len() - 1 {
        lemma_highest(hits.drop_last(), i);
    }
}

// ---------------------------------------------------------------------------
// Laws of results
// ---------------------------------------------------------------------------

/// Whether some hits hold, for every one of others, one in the same file, with
/// the same components from the root to the name, and at the same line, that is
/// as good or better.
pub open spec fn holds_every_unit(merged: Seq<SearchHit>, hits: Seq<SearchHit>) -> bool {
    forall|i: int| 0 <= i < hits.len() ==> holds_unit(merged, #[trigger] hits[i])
}

/// Whether some hits hold one in the same file and at the same line as another
/// that is as good or better.
pub open spec fn holds_unit(merged: Seq<SearchHit>, h: SearchHit) -> bool {
    exists|k: int|
        0 <= k < merged.len() && (#[trigger] merged[k]).unit.file.parts@ == h.unit.file.parts@
            && merged[k].unit.line == h.unit.line && merged[k].rank >= h.rank
}

/// Merged hits hold every unit.
proof fn lemma_holds_every_unit(merged: Seq<SearchHit>, hits: Seq<SearchHit>)
    requires
        are_merged(merged, hits),
    ensures
        holds_every_unit(merged, hits),
{
    assert forall|i: int| 0 <= i < hits.len() implies holds_unit(merged, #[trigger] hits[i]) by {
        let k = law_merge_holds_unit(merged, hits, i);
        assert(merged[k].rank >= hits[i].rank);
    }
}

/// Merging never drops a hit for another path or another line: for every hit
/// there is a merged one with the same components of its file, at the same line,
/// that is as good or better.
pub proof fn law_merge_holds_unit(merged: Seq<SearchHit>, hits: Seq<SearchHit>, i: int) -> (k: int)
    requires
        are_merged(merged, hits),
        0 <= i < hits.len(),
    ensures
        0 <= k < merged.len(),
        merged[k].unit.file.parts@ == hits[i].unit.file.parts@,
        merged[k].unit.line == hits[i].unit.line,
        merged[k].rank >= hits[i].rank,
{
    let k = lemma_covering_position(merged, hits, i);
    lemma_merged_is_best(merged, hits, k, i);
    k
}

/// Merging invents no hit: each is one of those that were merged, the first of
/// them that no other in the same file at the same line is better than.
pub proof fn law_merge_invents_nothing(merged: Seq<SearchHit>, hits: Seq<SearchHit>, k: int) -> (i:
    int)
    requires
        are_merged(merged, hits),
        0 <= k < merged.len(),
    ensures
        0 <= i < hits.len(),
        hits[i] == merged[k],
        forall|j: int|
            0 <= j < hits.len() && (#[trigger] hits[j]).unit.file.parts@
                == hits[i].unit.file.parts@ && hits[j].unit.line == hits[i].unit.line ==> hits[j].rank
                <= hits[i].rank && (j < i ==> hits[j].rank < hits[i].rank),
{
    let i = lemma_merged_position(merged, hits, k);
    assert forall|j: int|
        0 <= j < hits.len() && (#[trigger] hits[j]).unit.file.parts@ == hits[i].unit.file.parts@
            && hits[j].unit.line == hits[i].unit.line implies hits[j].rank <= hits[i].rank && (j < i
        ==> hits[j].rank < hits[i].rank) by {
        assert(same_unit(hits[j], hits[i]));
    }
    i
}

/// No two merged hits are in the same file at the same line.
pub proof fn law_merged_units_differ(
    merged: Seq<SearchHit>,
    hits: Seq<SearchHit>,
    k: int,
    m: int,
)
    requires
        are_merged(merged, hits),
        0 <= k < merged.len(),
        0 <= m < merged.len(),
        k != m,
    ensures
        merged[k].unit.file.parts@ != merged[m].unit.file.parts@ || merged[k].unit.line
            != merged[m].unit.line,
{
    lemma_merged_apart(merged, hits, k, m);
}

/// A ranking holds the same hits, better ones in front of others, and those of a
/// rank in the order in which they came.
pub proof fn law_ranking(ranked: Seq<SearchHit>, hits: Seq<SearchHit>, rank: i64)
    requires
        is_ranking(ranked, hits),
    ensures
        forall|i: int, j: int|
            0 <= i < j < ranked.len() ==> (#[trigger] ranked[i]).rank >= (
            #[trigger] ranked[j]).rank,
        ranked.to_multiset() == hits.to_multiset(),
        ranked.filter(|h: SearchHit| h.rank == rank) == hits.filter(
            |h: SearchHit| h.rank == rank,
        ),
{
    law_ranking_keeps_hits(ranked, hits);
    assert(of_rank(ranked, rank) == of_rank(hits, rank));
}

/// Whether hits are the best of others, documents aside where only code is
/// wanted: as many as are wanted, or all; in descending order; and none of those
/// that are left out better than any of them.
pub open spec fn are_the_best(
    shown: Seq<SearchHit>,
    hits: Seq<SearchHit>,
    code_only: bool,
    top_k: nat,
) -> bool {
    let wanted = hits.filter(|h: SearchHit| !(code_only && h.unit.text_format));
    &&& shown.len() == if top_k < wanted.len() {
        top_k
    } else {
        wanted.len()
    }
    &&& shown.to_multiset().subset_of(wanted.to_multiset())
    &&& forall|i: int, j: int|
        0 <= i < j < shown.len() ==> (#[trigger] shown[i]).rank >= (#[trigger] shown[j]).rank
    &&& forall|i: int, h: SearchHit|
        0 <= i < shown.len() && #[trigger] wanted.to_multiset().count(h)
            > shown.to_multiset().count(h) ==> (#[trigger] shown[i]).rank >= h.rank
}

/// Leaving out hits of a kind leaves the others as often as they were.
proof fn lemma_filter_counts(s: Seq<SearchHit>, keep: spec_fn(SearchHit) -> bool, h: SearchHit)
    ensures
        s.filter(keep).to_multiset().count(h) == if keep(h) {
            s.to_multiset().count(h)
        } else {
            0
        },
    decreases s.len(),
{
    broadcast use vstd::seq_lib::group_to_multiset_ensures;

    reveal(Seq::filter);
    if s.len() > 0 {
        lemma_filter_counts(s.drop_last(), keep, h);
        assert(s.drop_last().push(s.last()) =~= s);
    }
}

/// What is shown are the best of the hits, documents aside where only code is
/// wanted.
pub proof fn law_top_hits_are_the_best(
    hits: Seq<SearchHit>,
    ranked: Seq<SearchHit>,
    code_only: bool,
    top_k: nat,
)
    requires
        is_ranking(ranked, hits),
    ensures
        are_the_best(first_few(eligible(ranked, code_only), top_k), hits, code_only, top_k),
{
    let keep = |h: SearchHit| !(code_only && h.unit.text_format);
    let kept = |h: SearchHit| !code_only || !h.unit.text_format;
    assert(keep =~= kept);
    let wanted = hits.filter(keep);
    let all = ranked.filter(kept);
    let shown = first_few(all, top_k);
    let left = all.skip(shown.len() as int);
    law_ranking_keeps_hits(ranked, hits);
    assert forall|h: SearchHit| wanted.to_multiset().count(h) == all.to_multiset().count(h) by {
        lemma_filter_counts(hits, keep, h);
        lemma_filter_counts(ranked, kept, h);
    }
    assert(wanted.to_multiset() =~= all.to_multiset());
    wanted.to_multiset_ensures();
    all.to_multiset_ensures();
    assert(wanted.len() == all.len());
    assert(all =~= shown + left);
    vstd::seq_lib::lemma_multiset_commutative(shown, left);
    lemma_eligible_descend(ranked, code_only);
    assert forall|i: int, h: SearchHit|
        0 <= i < shown.len() && #[trigger] wanted.to_multiset().count(h)
            > shown.to_multiset().count(h) implies (#[trigger] shown[i]).rank >= h.rank by {
        assert(left.to_multiset().count(h) > 0);
        left.to_multiset_ensures();
        assert(left.contains(h));
        let j = choose|j: int| 0 <= j < left.len() && left[j] == h;
        assert(all[shown.len() + j] == h);
        assert(all[i] == shown[i]);
    }
    assert(shown.to_multiset().subset_of(wanted.to_multiset()));
}

/// The hits that are selected are the first of those that may be shown, in their
/// order.
pub proof fn law_selection_is_a_prefix(hits: Seq<SearchHit>, code_only: bool, top_k: nat)
    ensures
        ({
            let wanted = hits.filter(|h: SearchHit| !(code_only && h.unit.text_format));
            &&& first_few(eligible(hits, code_only), top_k).is_prefix_of(wanted)
            &&& first_few(eligible(hits, code_only), top_k).len() == if top_k < wanted.len() {
                top_k
            } else {
                wanted.len()
            }
        }),
{
    let keep = |h: SearchHit| !(code_only && h.unit.text_format);
    let kept = |h: SearchHit| !code_only || !h.unit.text_format;
    assert(keep =~= kept);
}

/// A file is listed if and only if some hit stands in it, once, and behind the
/// files of the hits in front of its first one.
pub proof fn law_files_in_order_of_first_hits(hits: Seq<SearchHit>, h: SearchHit)
    ensures
        distinct(file_texts(Seq::<SearchHit>::empty())) == Seq::<Seq<char>>::empty(),
        (exists|i: int| 0 <= i < hits.len() && (#[trigger] hits[i]).unit.file.text@ == h.unit.file.text@)
            ==> distinct(file_texts(hits.push(h))) == distinct(file_texts(hits)),
        (forall|i: int| 0 <= i < hits.len() ==> (#[trigger] hits[i]).unit.file.text@ != h.unit.file.text@)
            ==> distinct(file_texts(hits.push(h))) == distinct(file_texts(hits)).push(
            h.unit.file.text@,
        ),
{
    let before = file_texts(hits);
    assert(file_texts(hits.push(h)) =~= before.push(h.unit.file.text@));
    assert(file_texts(Seq::<SearchHit>::empty()) =~= Seq::<Seq<char>>::empty());
    law_distinct_keeps_the_first(before, h.unit.file.text@);
    if exists|i: int| 0 <= i < hits.len() && (#[trigger] hits[i]).unit.file.text@ == h.unit.file.text@ {
        let i = choose|i: int|
            0 <= i < hits.len() && (#[trigger] hits[i]).unit.file.text@ == h.unit.file.text@;
        assert(before[i] == h.unit.file.text@);
    }
}

/// Code and documents keep their order: one more hit is added behind those of
/// its kind, and to no other.
pub proof fn law_kinds_keep_order(hits: Seq<SearchHit>, h: SearchHit)
    ensures
        code_hits(Seq::empty()) == Seq::<SearchHit>::empty(),
        document_hits(Seq::empty()) == Seq::<SearchHit>::empty(),
        h.unit.text_format ==> code_hits(hits.push(h)) == code_hits(hits) && document_hits(
            hits.push(h),
        ) == document_hits(hits).push(h),
        !h.unit.text_format ==> document_hits(hits.push(h)) == document_hits(hits) && code_hits(
            hits.push(h),
        ) == code_hits(hits).push(h),
{
    reveal(Seq::filter);
    assert(hits.push(h).drop_last() =~= hits);
}

/// A number below ten has one digit, and one more digit behind a number makes one
/// more.
pub proof fn law_decimal_digits(n: nat, digit: nat)
    requires
        digit < 10,
    ensures
        decimal_digits(digit) == 1,
        n > 0 ==> decimal_digits(n * 10 + digit) == decimal_digits(n) + 1,
{
    assert((n * 10 + digit) / 10 == n);
}

/// Line numbers take four columns, or as many as the last line of some hit has
/// digits, if those are more; and no last line has more.
pub proof fn law_number_width(hits: Seq<SearchHit>)
    ensures
        number_width(hits) >= 4,
        forall|i: int|
            0 <= i < hits.len() ==> decimal_digits((#[trigger] hits[i]).unit.end_line as nat)
                <= number_width(hits),
        number_width(hits) > 4 ==> exists|i: int|
            0 <= i < hits.len() && decimal_digits((#[trigger] hits[i]).unit.end_line as nat)
                == number_width(hits),
{
    assert forall|i: int| 0 <= i < hits.len() implies decimal_digits(
        (#[trigger] hits[i]).unit.end_line as nat,
    ) <= number_width(hits) by {
        law_line_numbers_fit(hits, i, hits[i].unit.end_line as nat);
    }
    if number_width(hits) > 4 {
        let i = lemma_highest_is_there(hits);
        assert(decimal_digits(hits[i].unit.end_line as nat) == number_width(hits));
    }
}

/// The highest number of a last line is that of some hit.
proof fn lemma_highest_is_there(hits: Seq<SearchHit>) -> (i: int)
    requires
        highest_line(hits) > 0,
    ensures
        0 <= i < hits.len(),
        hits[i].unit.end_line == highest_line(hits),
    decreases hits.len(),
{
    if hits.last().unit.end_line > highest_line(hits.drop_last()) {
        hits.len() - 1
    } else {
        lemma_highest_is_there(hits.drop_last())
    }
}

} // verus!
