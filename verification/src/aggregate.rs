//! Gathering track identifiers from the items of a source.

use crate::tracks::{
    is_track_uri, is_valid_spotify_track_uri, lemma_valid_only_of_valid, valid_only,
};
use vstd::prelude::*;

verus! {

/// The sources of a run: playlists, in the order given, and whether the user's
/// saved tracks are read as well.
#[derive(Debug, PartialEq, Eq)]
pub struct SourceSet {
    pub playlists: Vec<String>,
    pub include_saved: bool,
}

impl SourceSet {
    /// Whether no source at all is selected.
    pub open spec fn spec_is_empty(&self) -> bool {
        self.playlists.len() == 0 && !self.include_saved
    }

    /// Whether no source at all is selected.
    #[verifier::when_used_as_spec(spec_is_empty)]
    pub fn is_empty(&self) -> (empty: bool)
        ensures
            empty == self.spec_is_empty(),
    {
        self.playlists.len() == 0 && !self.include_saved
    }
}

/// What one source gave: the identifiers that were accepted, in the order of
/// the source, and how many were rejected.
#[derive(Debug, PartialEq, Eq)]
pub struct Collected {
    pub tracks: Vec<String>,
    pub rejected: usize,
}

/// The identifiers that the items carry, in order. An item without a track
/// behind it carries none.
pub open spec fn present(items: Seq<Option<Seq<char>>>) -> Seq<Seq<char>>
    decreases items.len(),
{
    if items.len() == 0 {
        Seq::empty()
    } else {
        let front = present(items.drop_last());
        match items.last() {
            Some(text) => front.push(text),
            None => front,
        }
    }
}

/// Copies the identifiers that the items carry.
pub fn present_items(items: &Vec<Option<String>>) -> (found: Vec<String>)
    ensures
        found.deep_view() == present(items.deep_view()),
{
    let mut found: Vec<String> = Vec::new();
    let ghost all = items.deep_view();
    for at in 0..items.len()
        invariant
            all == items.deep_view(),
            found.deep_view() == present(all.take(at as int)),
    {
        assert(all.take(at + 1).drop_last() =~= all.take(at as int));
        match &items[at] {
            Some(text) => {
                found.push(text.clone());
            },
            None => {},
        }
    }
    assert(all.take(items.len() as int) =~= all);
    found
}

/// Sorts the items of one source into accepted and rejected.
///
/// An item without an identifier is passed over and counts as neither. An
/// identifier is accepted when it is a well-formed track identifier; the
/// others are only counted.
pub fn collect_valid(items: &Vec<Option<String>>) -> (out: Collected)
    ensures
        out.tracks.deep_view() == valid_only(present(items.deep_view())),
        out.rejected == present(items.deep_view()).len() - out.tracks.len(),
{
    let mut tracks: Vec<String> = Vec::new();
    let mut rejected: usize = 0;
    let ghost all = items.deep_view();
    let ghost accept = |t: Seq<char>| is_track_uri(t);
    for at in 0..items.len()
        invariant
            all == items.deep_view(),
            accept == (|t: Seq<char>| is_track_uri(t)),
            tracks.deep_view() == present(all.take(at as int)).filter(accept),
            rejected == present(all.take(at as int)).len() - tracks.len(),
            present(all.take(at as int)).len() <= at,
    {
        let ghost seen = present(all.take(at as int));
        assert(all.take(at + 1).drop_last() =~= all.take(at as int));
        match &items[at] {
            Some(text) => {
                proof {
                    Seq::lemma_filter_push(seen, text@, accept);
                }
                if is_valid_spotify_track_uri(text.as_str()) {
                    tracks.push(text.clone());
                } else {
                    rejected = rejected + 1;
                }
            },
            None => {},
        }
    }
    assert(all.take(items.len() as int) =~= all);
    Collected { tracks, rejected }
}

/// Where every item carries an identifier, all of them are present.
proof fn lemma_present_of_all(texts: Seq<Seq<char>>)
    ensures
        present(texts.map_values(|t: Seq<char>| Some(t))) == texts,
    decreases texts.len(),
{
    let items = texts.map_values(|t: Seq<char>| Some(t));
    if texts.len() > 0 {
        lemma_present_of_all(texts.drop_last());
        assert(items.drop_last() =~= texts.drop_last().map_values(|t: Seq<char>| Some(t)));
    }
}

/// Clean input comes through whole: where every item carries a well-formed
/// identifier, all of them are accepted and none is rejected; and where no
/// identifier occurs twice, a duplicate-free arrangement of what was accepted
/// has as many entries and holds the same identifiers.
pub proof fn lemma_clean_input_is_kept(texts: Seq<Seq<char>>, order: Seq<Seq<char>>)
    requires
        forall|i: int| 0 <= i < texts.len() ==> is_track_uri(#[trigger] texts[i]),
        order.no_duplicates(),
        order.to_set() == valid_only(present(texts.map_values(|t: Seq<char>| Some(t)))).to_set(),
    ensures
        valid_only(present(texts.map_values(|t: Seq<char>| Some(t)))) == texts,
        order.to_set() == texts.to_set(),
        texts.no_duplicates() ==> order.len() == texts.len(),
{
    lemma_present_of_all(texts);
    lemma_valid_only_of_valid(texts);
    if texts.no_duplicates() {
        texts.unique_seq_to_set();
        order.unique_seq_to_set();
    }
}

} // verus!
