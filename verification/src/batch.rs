//! Splitting a sequence into consecutive batches of bounded size.

use vstd::prelude::*;
use vstd::seq_lib::lemma_flatten_concat;

verus! {

/// Length of the first batch cut from `remaining` items: a full batch of
/// `size` where that many are left, else all that are left.
pub open spec fn first_batch_len(remaining: nat, size: nat) -> nat {
    if remaining <= size {
        remaining
    } else {
        size
    }
}

/// The consecutive, non-overlapping batches that `items` is split into, each
/// of `size` items except possibly the last, which holds the remainder. No
/// batch is empty; an empty sequence has no batches.
pub open spec fn batches<T>(items: Seq<T>, size: nat) -> Seq<Seq<T>>
    decreases items.len(),
{
    if size == 0 || items.len() == 0 {
        Seq::empty()
    } else {
        let n = first_batch_len(items.len(), size) as int;
        seq![items.take(n)] + batches(items.skip(n), size)
    }
}

/// Index one past the end of the batch that starts at `start` in a sequence
/// of `total` items.
pub fn batch_end(start: usize, total: usize, size: usize) -> (end: usize)
    requires
        start <= total,
    ensures
        end == start + first_batch_len((total - start) as nat, size as nat),
        start <= end <= total,
{
    if total - start <= size {
        total
    } else {
        start + size
    }
}

/// What is left of `items` from `start` on splits into the batch that starts
/// there, followed by the batches of what is left after it.
pub proof fn lemma_batches_unfold<T>(items: Seq<T>, size: nat, start: int)
    requires
        size > 0,
        0 <= start < items.len(),
    ensures
        ({
            let end = start + first_batch_len((items.len() - start) as nat, size);
            batches(items.skip(start), size) == seq![items.subrange(start, end)] + batches(
                items.skip(end),
                size,
            )
        }),
{
    let rest = items.skip(start);
    let n = first_batch_len(rest.len(), size) as int;
    assert(rest.take(n) =~= items.subrange(start, start + n));
    assert(rest.skip(n) =~= items.skip(start + n));
}

/// Batching loses, adds and reorders nothing: the batches, concatenated in
/// order, are the sequence that was split.
pub proof fn lemma_batches_concat<T>(items: Seq<T>, size: nat)
    requires
        size > 0,
    ensures
        batches(items, size).flatten() == items,
    decreases items.len(),
{
    if items.len() == 0 {
        assert(batches(items, size).flatten() =~= items);
    } else {
        let n = first_batch_len(items.len(), size) as int;
        let head = seq![items.take(n)];
        let tail = batches(items.skip(n), size);
        lemma_batches_concat(items.skip(n), size);
        lemma_flatten_concat(head, tail);
        head.lemma_flatten_one_element();
        assert(items.take(n) + items.skip(n) =~= items);
    }
}

/// A batch size that takes every item gives one batch: the whole sequence.
pub proof fn lemma_single_batch<T>(items: Seq<T>, size: nat)
    requires
        0 < items.len() <= size,
    ensures
        batches(items, size) == seq![items],
{
    let n = items.len() as int;
    assert(items.take(n) =~= items);
    assert(batches(items.skip(n), size) =~= Seq::<Seq<T>>::empty());
    assert(seq![items.take(n)] + batches(items.skip(n), size) =~= seq![items]);
}

/// Every batch holds at least one item and at most `size`, and every batch
/// but the last holds exactly `size`.
pub proof fn lemma_batches_bounded<T>(items: Seq<T>, size: nat, i: int)
    requires
        0 <= i < batches(items, size).len(),
    ensures
        0 < batches(items, size)[i].len() <= size,
        i + 1 < batches(items, size).len() ==> batches(items, size)[i].len() == size,
    decreases items.len(),
{
    let n = first_batch_len(items.len(), size) as int;
    if i > 0 {
        lemma_batches_bounded(items.skip(n), size, i - 1);
    } else if 1 < batches(items, size).len() {
        assert(batches(items.skip(n), size).len() > 0);
    }
}

/// The number of batches is the number of items divided by the batch size,
/// rounded up.
pub proof fn lemma_batches_count<T>(items: Seq<T>, size: nat)
    requires
        size > 0,
    ensures
        batches(items, size).len() == (items.len() + size - 1) / (size as int),
    decreases items.len(),
{
    let len = items.len() as int;
    let d = size as int;
    vstd::arithmetic::div_mod::lemma_basic_div_specific_divisor(d);
    if len == 0 {
    } else if len <= d {
        assert(batches(items.skip(len), size).len() == 0);
        vstd::arithmetic::div_mod::lemma_div_plus_one(len - 1, d);
    } else {
        lemma_batches_count(items.skip(d), size);
        vstd::arithmetic::div_mod::lemma_div_plus_one(len - 1, d);
    }
}

/// An item occurs in the sequence exactly when it occurs in one of its
/// batches.
pub proof fn lemma_batches_cover<T>(items: Seq<T>, size: nat, item: T)
    requires
        size > 0,
    ensures
        items.contains(item) <==> exists|i: int|
            0 <= i < batches(items, size).len() && #[trigger] batches(items, size)[i].contains(
                item,
            ),
    decreases items.len(),
{
    let all = batches(items, size);
    if items.len() > 0 {
        let n = first_batch_len(items.len(), size) as int;
        let rest = batches(items.skip(n), size);
        lemma_batches_cover(items.skip(n), size, item);
        assert(items.take(n) + items.skip(n) =~= items);
        if items.contains(item) {
            let k = choose|k: int| 0 <= k < items.len() && items[k] == item;
            if k < n {
                assert(items.take(n)[k] == item);
                assert(all[0].contains(item));
            } else {
                assert(items.skip(n)[k - n] == item);
                let j = choose|j: int| 0 <= j < rest.len() && #[trigger] rest[j].contains(item);
                assert(all[j + 1] == rest[j]);
                assert(all[j + 1].contains(item));
            }
        }
        if exists|i: int| 0 <= i < all.len() && #[trigger] all[i].contains(item) {
            let i = choose|i: int| 0 <= i < all.len() && #[trigger] all[i].contains(item);
            if i == 0 {
                let k = choose|k: int| 0 <= k < items.take(n).len() && items.take(n)[k] == item;
                assert(items[k] == item);
            } else {
                assert(all[i] == rest[i - 1]);
                assert(items.skip(n).contains(item));
                let k = choose|k: int| 0 <= k < items.skip(n).len() && items.skip(n)[k] == item;
                assert(items[k + n] == item);
            }
        }
    }
}

/// Batches do not overlap: of a sequence without duplicates, no item occurs
/// in two batches.
pub proof fn lemma_batches_disjoint<T>(items: Seq<T>, size: nat, i: int, j: int, item: T)
    requires
        size > 0,
        items.no_duplicates(),
        0 <= i < j < batches(items, size).len(),
        batches(items, size)[i].contains(item),
    ensures
        !batches(items, size)[j].contains(item),
    decreases items.len(),
{
    let n = first_batch_len(items.len(), size) as int;
    let rest = items.skip(n);
    assert(batches(items, size)[j] == batches(rest, size)[j - 1]);
    assert forall|a: int, b: int| 0 <= a < rest.len() && 0 <= b < rest.len() && a != b implies rest[a]
        != rest[b] by {
        assert(rest[a] == items[a + n] && rest[b] == items[b + n]);
    }
    if i == 0 {
        if batches(rest, size)[j - 1].contains(item) {
            lemma_batches_cover(rest, size, item);
            let a = choose|a: int| 0 <= a < n && items.take(n)[a] == item;
            let b = choose|b: int| 0 <= b < rest.len() && rest[b] == item;
            assert(items[a] == item && items[b + n] == item);
        }
    } else {
        assert(batches(items, size)[i] == batches(rest, size)[i - 1]);
        lemma_batches_disjoint(rest, size, i - 1, j - 1, item);
    }
}

} // verus!
