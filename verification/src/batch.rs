//! Cutting a sequence into consecutive batches of bounded size.

use vstd::prelude::*;

verus! {

/// The largest number of items that one removal or one addition may carry.
pub const MAX_BATCH: usize = 100;

/// Where the batch that starts at `start` ends: `size` items further, or at the
/// end of the sequence if fewer are left.
pub open spec fn batch_end(len: int, start: int, size: int) -> int {
    if start + size <= len {
        start + size
    } else {
        len
    }
}

/// The batch of `s` that starts at position `start`.
pub open spec fn batch_at<A>(s: Seq<A>, start: int, size: int) -> Seq<A> {
    s.subrange(start, batch_end(s.len() as int, start, size))
}

/// `s` cut into consecutive batches of `size` items; only the last may be
/// shorter. An empty sequence has no batch.
pub open spec fn batches<A>(s: Seq<A>, size: nat) -> Seq<Seq<A>>
    decreases s.len(),
{
    if size == 0 || s.len() == 0 {
        Seq::empty()
    } else if s.len() <= size {
        seq![s]
    } else {
        seq![s.take(size as int)] + batches(s.skip(size as int), size)
    }
}

/// The number of batches that `len` items make.
pub open spec fn batch_count(len: nat, size: nat) -> nat {
    if size == 0 {
        0
    } else {
        ((len + size - 1) / (size as int)) as nat
    }
}

/// There are as many batches as the item count asks for, and the `k`-th one is
/// the batch that starts after `k` full ones.
pub proof fn lemma_batches_by_position<A>(s: Seq<A>, size: nat, k: nat)
    requires
        size > 0,
    ensures
        batches(s, size).len() == batch_count(s.len(), size),
        k < batch_count(s.len(), size) ==> k * size < s.len() && batches(s, size)[k as int]
            == batch_at(s, (k * size) as int, size as int),
    decreases s.len(),
{
    let n = s.len();
    if n == 0 {
        assert((size - 1) / (size as int) == 0) by (nonlinear_arith)
            requires
                size > 0,
        ;
    } else if n <= size {
        assert((n + size - 1) / (size as int) == 1) by (nonlinear_arith)
            requires
                0 < n <= size,
        ;
        if k == 0 {
            assert(k * size == 0) by (nonlinear_arith)
                requires
                    k == 0,
            ;
        }
    } else {
        let rest = s.skip(size as int);
        assert((n + size - 1) / (size as int) == (n - size + size - 1) / (size as int) + 1)
            by (nonlinear_arith)
            requires
                size > 0,
                n > size,
        ;
        if k == 0 {
            lemma_batches_by_position(rest, size, 0);
            assert(k * size == 0) by (nonlinear_arith)
                requires
                    k == 0,
            ;
        } else {
            let j = (k - 1) as nat;
            lemma_batches_by_position(rest, size, j);
            assert(k * size == j * size + size) by (nonlinear_arith)
                requires
                    k == j + 1,
            ;
            if k < batch_count(n, size) {
                assert(batch_at(rest, (j * size) as int, size as int) =~= batch_at(
                    s,
                    (k * size) as int,
                    size as int,
                ));
            }
        }
    }
}

/// The batches, put end to end, give the sequence back, and each holds between
/// one and `size` items.
pub proof fn lemma_batches_cover<A>(s: Seq<A>, size: nat)
    requires
        size > 0,
    ensures
        batches(s, size).flatten() == s,
        forall|k: int|
            0 <= k < batches(s, size).len() ==> 0 < (#[trigger] batches(s, size)[k]).len() <= size,
    decreases s.len(),
{
    let parts = batches(s, size);
    if s.len() > size {
        let rest = s.skip(size as int);
        lemma_batches_cover(rest, size);
        assert(parts.drop_first() =~= batches(rest, size));
    } else if s.len() > 0 {
        assert(seq![s].drop_first() =~= Seq::<Seq<A>>::empty());
        assert(seq![s].flatten() =~= s + Seq::<Seq<A>>::empty().flatten());
    }
}

/// Where the batch that starts at `start` ends, among `len` items.
pub fn end_of_batch(len: usize, start: usize, size: usize) -> (end: usize)
    requires
        start <= len,
    ensures
        end == batch_end(len as int, start as int, size as int),
{
    if size <= len - start {
        start + size
    } else {
        len
    }
}

/// Copies the batch of `items` that starts at `start`.
pub fn take_batch(items: &Vec<String>, start: usize, size: usize) -> (batch: Vec<String>)
    requires
        start <= items.len(),
    ensures
        batch.deep_view() == batch_at(items.deep_view(), start as int, size as int),
{
    let end: usize = end_of_batch(items.len(), start, size);
    let mut batch: Vec<String> = Vec::new();
    let ghost all = items.deep_view();
    for at in start..end
        invariant
            all == items.deep_view(),
            start <= end <= items.len(),
            batch.deep_view() == all.subrange(start as int, at as int),
    {
        let ghost before = batch.deep_view();
        batch.push(items[at].clone());
        assert(all.subrange(start as int, at + 1) =~= before.push(all[at as int]));
    }
    batch
}

/// Cuts `items` into consecutive batches of `size` items, the last one possibly
/// shorter.
pub fn split_batches(items: &Vec<String>, size: usize) -> (parts: Vec<Vec<String>>)
    requires
        size > 0,
    ensures
        parts.deep_view() == batches(items.deep_view(), size as nat),
        parts.deep_view().flatten() == items.deep_view(),
        forall|k: int|
            0 <= k < parts.len() ==> 0 < (#[trigger] parts.deep_view()[k]).len() <= size,
{
    let mut parts: Vec<Vec<String>> = Vec::new();
    let mut start: usize = 0;
    let ghost all = items.deep_view();
    assert(parts.deep_view() + batches(all.skip(0), size as nat) =~= batches(all, size as nat)) by {
        assert(all.skip(0) =~= all);
    }
    while start < items.len()
        invariant
            size > 0,
            all == items.deep_view(),
            start <= items.len(),
            parts.deep_view() + batches(all.skip(start as int), size as nat) == batches(
                all,
                size as nat,
            ),
        decreases items.len() - start,
    {
        let ghost before = parts.deep_view();
        let ghost rest = all.skip(start as int);
        let batch = take_batch(items, start, size);
        let taken: usize = batch.len();
        proof {
            if rest.len() <= size {
                assert(batches(rest, size as nat) =~= seq![rest] + batches(
                    all.skip(start + taken),
                    size as nat,
                ));
            } else {
                assert(batch.deep_view() =~= rest.take(size as int));
                assert(rest.skip(size as int) =~= all.skip(start + taken));
            }
        }
        parts.push(batch);
        proof {
            let tail = batches(all.skip(start + taken), size as nat);
            assert(before + (seq![batch.deep_view()] + tail) =~= before.push(batch.deep_view())
                + tail);
        }
        start = start + taken;
    }
    proof {
        lemma_batches_cover(all, size as nat);
    }
    parts
}

} // verus!
