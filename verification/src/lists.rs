//! Sequences without repetitions, and filtered sequences.

use vstd::prelude::*;

verus! {

/// A sequence without repetitions: the first of each item, in their order.
pub open spec fn distinct<T>(s: Seq<T>) -> Seq<T>
    decreases s.len(),
{
    if s.len() == 0 {
        Seq::empty()
    } else if distinct(s.drop_last()).contains(s.last()) {
        distinct(s.drop_last())
    } else {
        distinct(s.drop_last()).push(s.last())
    }
}

/// Appending an item adds it to the set of the items.
pub proof fn lemma_set_of_push<T>(s: Seq<T>, item: T)
    ensures
        s.push(item).to_set() == s.to_set().insert(item),
{
    let grown = s.push(item);
    assert forall|x: T| grown.to_set().contains(x) == s.to_set().insert(item).contains(x) by {
        if s.contains(x) {
            let j = choose|j: int| 0 <= j < s.len() && s[j] == x;
            assert(grown[j] == x);
        }
        if x == item {
            assert(grown[s.len() as int] == x);
        }
        if grown.contains(x) {
            let j = choose|j: int| 0 <= j < grown.len() && grown[j] == x;
            if j < s.len() {
                assert(s[j] == x);
            }
        }
    }
    assert(grown.to_set() =~= s.to_set().insert(item));
}

/// A sequence without repetitions holds the same items, each once.
pub proof fn lemma_distinct<T>(s: Seq<T>)
    ensures
        distinct(s).to_set() == s.to_set(),
        distinct(s).no_duplicates(),
    decreases s.len(),
{
    if s.len() > 0 {
        let front = s.drop_last();
        lemma_distinct(front);
        lemma_set_of_push(front, s.last());
        lemma_set_of_push(distinct(front), s.last());
        assert(front.push(s.last()) =~= s);
        if distinct(front).contains(s.last()) {
            assert(distinct(front).to_set().contains(s.last()));
            assert(front.to_set().insert(s.last()) =~= front.to_set());
        }
    } else {
        assert(distinct(s).to_set() =~= s.to_set());
    }
}

/// A filtered sequence holds exactly the items that pass.
pub proof fn lemma_filter_members<T>(s: Seq<T>, keep: spec_fn(T) -> bool)
    ensures
        forall|i: int|
            0 <= i < s.filter(keep).len() ==> keep(#[trigger] s.filter(keep)[i]) && s.contains(
                s.filter(keep)[i],
            ),
        forall|i: int|
            0 <= i < s.len() && keep(#[trigger] s[i]) ==> s.filter(keep).contains(s[i]),
{
    assert forall|i: int| 0 <= i < s.filter(keep).len() implies keep(#[trigger] s.filter(keep)[i])
        && s.contains(s.filter(keep)[i]) by {
        s.lemma_filter_pred(keep, i);
        assert(s.filter(keep).contains(s.filter(keep)[i]));
        s.lemma_filter_contains_rev(keep, s.filter(keep)[i]);
    }
    assert forall|i: int| 0 <= i < s.len() && keep(#[trigger] s[i]) implies s.filter(
        keep,
    ).contains(s[i]) by {
        s.lemma_filter_contains(keep, i);
    }
}

/// Nothing repeats in nothing; and an item behind a sequence is kept exactly
/// where it did not occur before, behind what was kept.
pub proof fn law_distinct_keeps_the_first<T>(s: Seq<T>, item: T)
    ensures
        distinct(Seq::<T>::empty()) == Seq::<T>::empty(),
        s.contains(item) ==> distinct(s.push(item)) == distinct(s),
        !s.contains(item) ==> distinct(s.push(item)) == distinct(s).push(item),
{
    lemma_distinct(s);
    assert(s.push(item).drop_last() =~= s);
    assert(distinct(s).to_set().contains(item) == s.to_set().contains(item));
}

} // verus!
