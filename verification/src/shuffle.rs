//! Random reordering of the tracks.

use rand::seq::SliceRandom;
use vstd::prelude::*;

verus! {

/// Whether `a` and `b` hold the same texts the same number of times.
pub open spec fn is_reordering(a: Seq<Seq<char>>, b: Seq<Seq<char>>) -> bool {
    a.to_multiset() == b.to_multiset()
}

/// Calls `rand::seq::SliceRandom::shuffle` with the thread's generator from
/// `rand::rng`. Trusted: the call only swaps elements of the slice, so the
/// texts afterwards are the texts before in some order. Which order is left
/// open. `rand::rng` stops the program when the operating system has no
/// entropy to seed it with.
#[verifier::external_body]
fn shuffle_in_place(tracks: &mut Vec<String>)
    ensures
        is_reordering(final(tracks).deep_view(), old(tracks).deep_view()),
{
    tracks.shuffle(&mut rand::rng());
}

/// Returns the tracks in a random order.
///
/// Nothing is added or lost. The order is drawn anew on every call, so two
/// calls on the same tracks may differ.
pub fn shuffle_tracks(tracks: Vec<String>) -> (shuffled: Vec<String>)
    ensures
        is_reordering(shuffled.deep_view(), tracks.deep_view()),
{
    let mut shuffled = tracks;
    shuffle_in_place(&mut shuffled);
    shuffled
}

/// A reordering holds the same texts, and holds none twice if the other
/// holds none twice.
pub proof fn lemma_reordering_keeps(a: Seq<Seq<char>>, b: Seq<Seq<char>>)
    requires
        is_reordering(a, b),
    ensures
        a.len() == b.len(),
        a.to_set() == b.to_set(),
        b.no_duplicates() ==> a.no_duplicates(),
{
    a.to_multiset_ensures();
    b.to_multiset_ensures();
    assert forall|x: Seq<char>| a.contains(x) <==> b.contains(x) by {
        assert(a.to_multiset().count(x) == b.to_multiset().count(x));
    }
    if b.no_duplicates() {
        b.lemma_multiset_has_no_duplicates();
        a.lemma_multiset_has_no_duplicates_conv();
    }
}

} // verus!
