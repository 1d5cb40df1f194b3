//! Two things done to sequences throughout: finding the first item that
//! answers a description, and keeping the items that do.
//!
//! Entities are looked up by owner, inputs and snapshots by id, and in each
//! case the first match counts. Histories let go of what has grown old and
//! keep the rest in order.

use vstd::prelude::*;

verus! {

/// The index of the first item of `items` that `hit` accepts.
pub open spec fn first_index<T>(items: Seq<T>, hit: spec_fn(T) -> bool) -> Option<int>
    decreases items.len(),
{
    if items.len() == 0 {
        None
    } else {
        match first_index(items.drop_last(), hit) {
            Some(i) => Some(i),
            None => if hit(items.last()) {
                Some(items.len() - 1)
            } else {
                None
            },
        }
    }
}

/// What `first_index` returns is a hit with no hit before it; when it
/// returns nothing, there is no hit at all.
pub proof fn lemma_first_index<T>(items: Seq<T>, hit: spec_fn(T) -> bool)
    ensures
        match first_index(items, hit) {
            Some(i) => {
                &&& 0 <= i < items.len()
                &&& hit(items[i])
                &&& forall|j: int| 0 <= j < i ==> !hit(#[trigger] items[j])
            },
            None => forall|j: int| 0 <= j < items.len() ==> !hit(#[trigger] items[j]),
        },
    decreases items.len(),
{
    if items.len() > 0 {
        lemma_first_index(items.drop_last(), hit);
        assert(forall|j: int| 0 <= j < items.len() - 1 ==> items.drop_last()[j] == items[j]);
    }
}

/// A hit with no hit before it is what `first_index` returns.
pub proof fn lemma_first_index_is<T>(items: Seq<T>, hit: spec_fn(T) -> bool, i: int)
    requires
        0 <= i < items.len(),
        hit(items[i]),
        forall|j: int| 0 <= j < i ==> !hit(#[trigger] items[j]),
    ensures
        first_index(items, hit) == Some(i),
{
    lemma_first_index(items, hit);
}

/// Without a hit `first_index` returns nothing.
pub proof fn lemma_first_index_none<T>(items: Seq<T>, hit: spec_fn(T) -> bool)
    requires
        forall|j: int| 0 <= j < items.len() ==> !hit(#[trigger] items[j]),
    ensures
        first_index(items, hit) is None,
{
    lemma_first_index(items, hit);
}

/// Whether an index found at run time is the index the definition gives.
pub open spec fn same_index(found: Option<usize>, index: Option<int>) -> bool {
    match found {
        Some(i) => index == Some(i as int),
        None => index is None,
    }
}

/// The items of `items` that `wanted` accepts, in their order.
pub open spec fn keep<T>(items: Seq<T>, wanted: spec_fn(T) -> bool) -> Seq<T>
    decreases items.len(),
{
    if items.len() == 0 {
        Seq::empty()
    } else if wanted(items.last()) {
        keep(items.drop_last(), wanted).push(items.last())
    } else {
        keep(items.drop_last(), wanted)
    }
}

/// Every item that is kept was wanted and was there before.
pub proof fn lemma_keep_members<T>(items: Seq<T>, wanted: spec_fn(T) -> bool)
    ensures
        keep(items, wanted).len() <= items.len(),
        forall|i: int|
            0 <= i < keep(items, wanted).len() ==> wanted(#[trigger] keep(items, wanted)[i]) && items.contains(
                keep(items, wanted)[i],
            ),
    decreases items.len(),
{
    if items.len() > 0 {
        lemma_keep_members(items.drop_last(), wanted);
        let shorter = keep(items.drop_last(), wanted);
        let kept = keep(items, wanted);
        assert forall|i: int| 0 <= i < kept.len() implies wanted(#[trigger] kept[i]) && items.contains(kept[i]) by {
            if i < shorter.len() {
                assert(kept[i] == shorter[i]);
                let k = choose|k: int| 0 <= k < items.drop_last().len() && items.drop_last()[k] == shorter[i];
                assert(items[k] == kept[i]);
            } else {
                assert(kept[i] == items[items.len() - 1]);
            }
        }
    }
}

/// Every wanted item is kept.
pub proof fn lemma_keep_is_complete<T>(items: Seq<T>, wanted: spec_fn(T) -> bool, k: int)
    requires
        0 <= k < items.len(),
        wanted(items[k]),
    ensures
        keep(items, wanted).contains(items[k]),
    decreases items.len(),
{
    let kept = keep(items, wanted);
    if k == items.len() - 1 {
        assert(kept[kept.len() - 1] == items[k]);
    } else {
        lemma_keep_is_complete(items.drop_last(), wanted, k);
        let shorter = keep(items.drop_last(), wanted);
        let i = choose|i: int| 0 <= i < shorter.len() && shorter[i] == items.drop_last()[k];
        assert(kept[i] == items[k]);
    }
}

/// What holds of every item holds of every kept item.
pub proof fn lemma_keep_all<T>(items: Seq<T>, wanted: spec_fn(T) -> bool, holds: spec_fn(T) -> bool)
    requires
        forall|i: int| 0 <= i < items.len() ==> holds(#[trigger] items[i]),
    ensures
        forall|i: int| 0 <= i < keep(items, wanted).len() ==> holds(#[trigger] keep(items, wanted)[i]),
{
    lemma_keep_members(items, wanted);
    let kept = keep(items, wanted);
    assert forall|i: int| 0 <= i < kept.len() implies holds(#[trigger] kept[i]) by {
        let k = choose|k: int| 0 <= k < items.len() && items[k] == kept[i];
        assert(holds(items[k]));
    }
}

/// What holds between every earlier and every later item holds between
/// every earlier and every later kept item.
pub proof fn lemma_keep_order<T>(items: Seq<T>, wanted: spec_fn(T) -> bool, before: spec_fn(T, T) -> bool)
    requires
        forall|i: int, j: int| 0 <= i < j < items.len() ==> before(#[trigger] items[i], #[trigger] items[j]),
    ensures
        forall|i: int, j: int|
            0 <= i < j < keep(items, wanted).len() ==> before(
                #[trigger] keep(items, wanted)[i],
                #[trigger] keep(items, wanted)[j],
            ),
    decreases items.len(),
{
    if items.len() > 0 {
        let fewer = items.drop_last();
        assert forall|i: int, j: int| 0 <= i < j < fewer.len() implies before(
            #[trigger] fewer[i],
            #[trigger] fewer[j],
        ) by {
            assert(before(items[i], items[j]));
        }
        lemma_keep_order(fewer, wanted, before);
        lemma_keep_members(fewer, wanted);
        let shorter = keep(fewer, wanted);
        let kept = keep(items, wanted);
        assert forall|i: int, j: int| 0 <= i < j < kept.len() implies before(#[trigger] kept[i], #[trigger] kept[j]) by {
            if j < shorter.len() {
                assert(before(shorter[i], shorter[j]));
            } else {
                assert(kept[i] == shorter[i]);
                let k = choose|k: int| 0 <= k < fewer.len() && fewer[k] == shorter[i];
                assert(before(items[k], items[items.len() - 1]));
            }
        }
    }
}

} // verus!
