//! Searching a sequence for the first or the last element of which a
//! predicate holds.

use vstd::prelude::*;

verus! {

/// The index of the first element at or after `from` of which `wanted`
/// holds, or the length of the sequence when there is none.
pub open spec fn first_index<A>(items: Seq<A>, from: int, wanted: spec_fn(A) -> bool) -> int
    decreases items.len() - from,
{
    if 0 <= from < items.len() {
        if wanted(items[from]) {
            from
        } else {
            first_index(items, from + 1, wanted)
        }
    } else {
        items.len() as int
    }
}

/// The index of the last element before `upto` of which `wanted` holds, or -1
/// when there is none.
pub open spec fn last_index<A>(items: Seq<A>, upto: int, wanted: spec_fn(A) -> bool) -> int
    decreases upto,
{
    if 0 < upto <= items.len() {
        if wanted(items[upto - 1]) {
            upto - 1
        } else {
            last_index(items, upto - 1, wanted)
        }
    } else {
        -1
    }
}

/// `first_index` is the least index at or after `from` where `wanted` holds.
pub proof fn lemma_first_index<A>(items: Seq<A>, from: int, wanted: spec_fn(A) -> bool)
    requires
        0 <= from <= items.len(),
    ensures
        from <= first_index(items, from, wanted) <= items.len(),
        first_index(items, from, wanted) < items.len() ==> wanted(
            items[first_index(items, from, wanted)],
        ),
        forall|k: int| from <= k < first_index(items, from, wanted) ==> !wanted(#[trigger] items[k]),
    decreases items.len() - from,
{
    if from < items.len() && !wanted(items[from]) {
        lemma_first_index(items, from + 1, wanted);
    }
}

/// `last_index` is the greatest index before `upto` where `wanted` holds.
pub proof fn lemma_last_index<A>(items: Seq<A>, upto: int, wanted: spec_fn(A) -> bool)
    requires
        0 <= upto <= items.len(),
    ensures
        -1 <= last_index(items, upto, wanted) < upto,
        last_index(items, upto, wanted) >= 0 ==> wanted(items[last_index(items, upto, wanted)]),
        forall|k: int| last_index(items, upto, wanted) < k < upto ==> !wanted(#[trigger] items[k]),
    decreases upto,
{
    if upto > 0 && !wanted(items[upto - 1]) {
        lemma_last_index(items, upto - 1, wanted);
    }
}

} // verus!
