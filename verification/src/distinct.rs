//! Sequences without repeats: what it means to keep the first occurrence of
//! each item, and the routine that does it.

use std::hash::Hash;

use itertools::Itertools;
use vstd::prelude::*;
use vstd::std_specs::hash::obeys_key_model;

verus! {

/// The items of `items` in their order, each kept where it first occurs and
/// left out wherever it occurs again.
pub open spec fn first_occurrences<T>(items: Seq<T>) -> Seq<T>
    decreases items.len(),
{
    if items.len() == 0 {
        Seq::empty()
    } else {
        let earlier = first_occurrences(items.drop_last());
        if items.drop_last().contains(items.last()) {
            earlier
        } else {
            earlier.push(items.last())
        }
    }
}

/// Keeping first occurrences neither invents nor loses an item, and never
/// makes a sequence longer.
pub proof fn lemma_first_occurrences_same_items<T>(items: Seq<T>)
    ensures
        forall|x: T|
            #![trigger first_occurrences(items).contains(x)]
            #![trigger items.contains(x)]
            first_occurrences(items).contains(x) <==> items.contains(x),
        first_occurrences(items).len() <= items.len(),
    decreases items.len(),
{
    if items.len() > 0 {
        let front = items.drop_last();
        let last = items.last();
        lemma_first_occurrences_same_items(front);
        assert forall|x: T|
            #![trigger first_occurrences(items).contains(x)]
            #![trigger items.contains(x)]
            first_occurrences(items).contains(x) <==> items.contains(x) by {
            if items.contains(x) {
                let i = choose|i: int| 0 <= i < items.len() && items[i] == x;
                if i < front.len() {
                    assert(front[i] == x);
                    assert(front.contains(x));
                    let j = choose|j: int|
                        0 <= j < first_occurrences(front).len() && first_occurrences(front)[j] == x;
                    assert(first_occurrences(items)[j] == x);
                } else {
                    assert(x == last);
                    if front.contains(last) {
                        let j = choose|j: int|
                            0 <= j < first_occurrences(front).len() && first_occurrences(front)[j]
                                == x;
                        assert(first_occurrences(items)[j] == x);
                    } else {
                        assert(first_occurrences(items)[first_occurrences(front).len() as int]
                            == x);
                    }
                }
            }
            if first_occurrences(items).contains(x) {
                let j = choose|j: int|
                    0 <= j < first_occurrences(items).len() && first_occurrences(items)[j] == x;
                if j < first_occurrences(front).len() {
                    assert(first_occurrences(front)[j] == x);
                    assert(first_occurrences(front).contains(x));
                    let i = choose|i: int| 0 <= i < front.len() && front[i] == x;
                    assert(items[i] == x);
                } else {
                    assert(items[items.len() - 1] == x);
                }
            }
        }
    }
}

/// No item occurs twice among the first occurrences.
pub proof fn lemma_first_occurrences_distinct<T>(items: Seq<T>)
    ensures
        first_occurrences(items).no_duplicates(),
    decreases items.len(),
{
    if items.len() > 0 {
        let front = items.drop_last();
        lemma_first_occurrences_distinct(front);
        lemma_first_occurrences_same_items(front);
        if !front.contains(items.last()) {
            let kept = first_occurrences(front);
            assert forall|i: int, j: int|
                0 <= i < kept.len() + 1 && 0 <= j < kept.len() + 1 && i != j implies kept.push(
                items.last(),
            )[i] != kept.push(items.last())[j] by {
                if i < kept.len() && j < kept.len() {
                } else if i < kept.len() {
                    assert(kept.contains(kept[i]));
                } else {
                    assert(kept.contains(kept[j]));
                }
            }
        }
    }
}

/// A sequence that holds nothing twice is its own sequence of first
/// occurrences.
pub proof fn lemma_first_occurrences_of_distinct<T>(items: Seq<T>)
    requires
        items.no_duplicates(),
    ensures
        first_occurrences(items) == items,
    decreases items.len(),
{
    if items.len() > 0 {
        let front = items.drop_last();
        lemma_first_occurrences_of_distinct(front);
        if front.contains(items.last()) {
            let i = choose|i: int| 0 <= i < front.len() && front[i] == items.last();
            assert(items[i] == items[items.len() - 1]);
        }
        assert(front.push(items.last()) =~= items);
    }
}

/// The first item of a sequence is the first of its first occurrences.
pub proof fn lemma_first_occurrences_head<T>(items: Seq<T>)
    requires
        items.len() > 0,
    ensures
        first_occurrences(items).len() > 0,
        first_occurrences(items)[0] == items[0],
    decreases items.len(),
{
    let front = items.drop_last();
    if front.len() > 0 {
        lemma_first_occurrences_head(front);
        assert(first_occurrences(items)[0] == first_occurrences(front)[0]);
        assert(front[0] == items[0]);
    } else {
        assert(first_occurrences(front) =~= Seq::<T>::empty());
        assert(!front.contains(items.last()));
        assert(first_occurrences(items) =~= seq![items[0]]);
    }
}

/// Renaming the items one to one commutes with keeping first occurrences.
pub proof fn lemma_first_occurrences_renamed<A, B>(items: Seq<A>, rename: spec_fn(A) -> B)
    requires
        forall|x: A, y: A| #[trigger] rename(x) == #[trigger] rename(y) ==> x == y,
    ensures
        first_occurrences(items.map_values(rename)) == first_occurrences(items).map_values(
            rename,
        ),
    decreases items.len(),
{
    let renamed = items.map_values(rename);
    if items.len() > 0 {
        let front = items.drop_last();
        lemma_first_occurrences_renamed(front, rename);
        assert(renamed.drop_last() =~= front.map_values(rename));
        assert(renamed.last() == rename(items.last()));
        if front.contains(items.last()) {
            let i = choose|i: int| 0 <= i < front.len() && front[i] == items.last();
            assert(front.map_values(rename)[i] == renamed.last());
        }
        if renamed.drop_last().contains(renamed.last()) {
            let i = choose|i: int|
                0 <= i < front.len() && front.map_values(rename)[i] == renamed.last();
            assert(rename(front[i]) == rename(items.last()));
            assert(front[i] == items.last());
        }
        assert(first_occurrences(front).push(items.last()).map_values(rename)
            =~= first_occurrences(front).map_values(rename).push(rename(items.last())));
    } else {
        assert(first_occurrences(items).map_values(rename) =~= Seq::<B>::empty());
    }
}

/// Drops every repeated item, keeping each where it first stands.
///
/// Trusted: this is `itertools::Itertools::unique` collected into a vector.
/// The adaptor is documented to be stable: it hands on the items in the order
/// of the source and, of several equal items, the first one met. The claim
/// is made only for item types whose `Hash` and `Eq` follow plain equality.
#[verifier::external_body]
pub(crate) fn unique<T: Copy + Eq + Hash>(items: &Vec<T>) -> (kept: Vec<T>)
    requires
        obeys_key_model::<T>(),
    ensures
        kept@ == first_occurrences(items@),
{
    items.iter().copied().unique().collect()
}

} // verus!
