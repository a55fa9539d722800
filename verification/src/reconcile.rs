//! Choosing the playlist that a run writes to.

use vstd::prelude::*;

verus! {

/// A playlist as the search reports it.
#[derive(Debug, PartialEq, Eq)]
pub struct Candidate {
    pub id: String,
    pub name: String,
    pub owner: String,
}

/// The texts of a [`Candidate`].
pub struct CandidateView {
    pub id: Seq<char>,
    pub name: Seq<char>,
    pub owner: Seq<char>,
}

impl DeepView for Candidate {
    type V = CandidateView;

    open spec fn deep_view(&self) -> CandidateView {
        CandidateView { id: self.id@, name: self.name@, owner: self.owner@ }
    }
}

impl View for Candidate {
    type V = CandidateView;

    open spec fn view(&self) -> CandidateView {
        self.deep_view()
    }
}

/// The playlist that a run writes to: its id, and its public link if the
/// service gave one.
#[derive(Debug, PartialEq, Eq)]
pub struct Collection {
    pub id: String,
    pub link: Option<String>,
}

/// The texts of a [`Collection`].
pub struct CollectionView {
    pub id: Seq<char>,
    pub link: Option<Seq<char>>,
}

impl DeepView for Collection {
    type V = CollectionView;

    open spec fn deep_view(&self) -> CollectionView {
        CollectionView { id: self.id@, link: self.link.deep_view() }
    }
}

impl View for Collection {
    type V = CollectionView;

    open spec fn view(&self) -> CollectionView {
        self.deep_view()
    }
}

/// A candidate may be reused when its name is the wanted name, character for
/// character, and its owner is the user.
pub open spec fn is_owned_match(candidate: CandidateView, name: Seq<char>, user: Seq<char>) -> bool {
    candidate.name == name && candidate.owner == user
}

/// Position of the first candidate that may be reused, or the number of
/// candidates when none may.
pub open spec fn owned_match_position(
    candidates: Seq<CandidateView>,
    name: Seq<char>,
    user: Seq<char>,
) -> nat
    decreases candidates.len(),
{
    if candidates.len() == 0 || is_owned_match(candidates[0], name, user) {
        0
    } else {
        1 + owned_match_position(candidates.drop_first(), name, user)
    }
}

/// The position found is that of a candidate that may be reused, and no
/// candidate before it may.
pub proof fn lemma_owned_match_position(
    candidates: Seq<CandidateView>,
    name: Seq<char>,
    user: Seq<char>,
)
    ensures
        owned_match_position(candidates, name, user) <= candidates.len(),
        owned_match_position(candidates, name, user) < candidates.len() ==> is_owned_match(
            candidates[owned_match_position(candidates, name, user) as int],
            name,
            user,
        ),
        forall|j: int|
            0 <= j < owned_match_position(candidates, name, user) ==> !is_owned_match(
                #[trigger] candidates[j],
                name,
                user,
            ),
    decreases candidates.len(),
{
    if candidates.len() > 0 && !is_owned_match(candidates[0], name, user) {
        let rest = candidates.drop_first();
        lemma_owned_match_position(rest, name, user);
        let k = owned_match_position(rest, name, user);
        assert forall|j: int| 0 <= j < k + 1 implies !is_owned_match(
            #[trigger] candidates[j],
            name,
            user,
        ) by {
            if j > 0 {
                assert(rest[j - 1] == candidates[j]);
            }
        }
    }
}

/// Finds the playlist to reuse: the first candidate, in the order of the
/// search, whose name is exactly `name` and whose owner is `user`.
pub fn find_owned_match(candidates: &Vec<Candidate>, name: &String, user: &String) -> (found:
    Option<usize>)
    ensures
        match found {
            Some(at) => {
                &&& at < candidates.len()
                &&& at == owned_match_position(candidates.deep_view(), name@, user@)
                &&& is_owned_match(candidates.deep_view()[at as int], name@, user@)
                &&& forall|j: int|
                    0 <= j < at ==> !is_owned_match(
                        #[trigger] candidates.deep_view()[j],
                        name@,
                        user@,
                    )
            },
            None => {
                &&& owned_match_position(candidates.deep_view(), name@, user@)
                    == candidates.len()
                &&& forall|j: int|
                    0 <= j < candidates.len() ==> !is_owned_match(
                        #[trigger] candidates.deep_view()[j],
                        name@,
                        user@,
                    )
            },
        },
{
    let ghost all = candidates.deep_view();
    assert(all.skip(0) =~= all);
    proof {
        lemma_owned_match_position(all, name@, user@);
    }
    let mut at: usize = 0;
    while at < candidates.len()
        invariant
            all == candidates.deep_view(),
            at <= candidates.len(),
            owned_match_position(all, name@, user@) == at + owned_match_position(
                all.skip(at as int),
                name@,
                user@,
            ),
            forall|j: int|
                0 <= j < owned_match_position(all, name@, user@) ==> !is_owned_match(
                    #[trigger] all[j],
                    name@,
                    user@,
                ),
        decreases candidates.len() - at,
    {
        if candidates[at].name == *name && candidates[at].owner == *user {
            return Some(at);
        }
        assert(all.skip(at as int).drop_first() =~= all.skip(at + 1));
        at += 1;
    }
    None
}

} // verus!
