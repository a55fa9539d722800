//! The state machine of a run, as a function on texts and numbers, and what
//! holds of every run.

use crate::aggregate::present;
use crate::batch::{batch_at, batch_end, batches, lemma_batches_by_position, MAX_BATCH};
use crate::ids::is_plain_id;
use crate::protocol::{
    missing_link, target_description, ActionView, CountsView, EventView, Phase, ReportView,
    RunError, SEARCH_LIMIT,
};
use crate::reconcile::{
    is_owned_match, lemma_owned_match_position, owned_match_position, CandidateView,
    CollectionView,
};
use crate::tracks::{is_track_uri, lemma_valid_only_is_valid, valid_only};
use crate::vet::{first_refusal, strict_findings};
use vstd::prelude::*;

verus! {

/// Whether `order` is an arrangement of the distinct texts of `collected`: it
/// holds each of them once and nothing else.
pub open spec fn is_prepared(collected: Seq<Seq<char>>, order: Seq<Seq<char>>) -> bool {
    order.no_duplicates() && order.to_set() == collected.to_set()
}

/// `count + more`, held at the largest number that a counter can show.
pub open spec fn capped_add(count: nat, more: nat) -> nat {
    if count + more > usize::MAX {
        usize::MAX as nat
    } else {
        count + more
    }
}

/// The state of a run, as texts and numbers.
pub struct RunView {
    pub phase: Phase,
    /// The source playlists, in the order in which they are read.
    pub playlists: Seq<Seq<char>>,
    pub include_saved: bool,
    pub target_name: Seq<char>,
    /// How many source playlists have been read.
    pub fetched: nat,
    /// While collecting: the identifiers accepted so far. From the search on:
    /// the shuffled sequence that is written to the target.
    pub tracks: Seq<Seq<char>>,
    /// What the search found.
    pub candidates: Seq<CandidateView>,
    pub target: Option<CollectionView>,
    /// What the reused target held when the run found it.
    pub stale: Seq<Seq<char>>,
    pub counts: CountsView,
}

impl RunView {
    /// The state before anything was read.
    pub open spec fn fresh(
        playlists: Seq<Seq<char>>,
        include_saved: bool,
        target_name: Seq<char>,
    ) -> RunView {
        RunView {
            phase: Phase::Collecting,
            playlists,
            include_saved,
            target_name,
            fetched: 0,
            tracks: Seq::empty(),
            candidates: Seq::empty(),
            target: None,
            stale: Seq::empty(),
            counts: CountsView {
                retrieved: 0,
                rejected_from_playlists: 0,
                rejected_from_saved: 0,
                unique: 0,
                cleared: 0,
                written: 0,
            },
        }
    }

    /// Gives the run up.
    pub open spec fn abort(self, error: RunError) -> (RunView, ActionView) {
        (RunView { phase: Phase::Aborted, ..self }, ActionView::Abort(error))
    }

    /// The identifiers accepted once the items of `event` are added.
    pub open spec fn gathered(self, event: EventView) -> Seq<Seq<char>> {
        match event {
            EventView::Items(items) => self.tracks + valid_only(present(items)),
            _ => self.tracks,
        }
    }

    /// Whether `event` brings the last listing of the sources.
    pub open spec fn completes_collection(self, event: EventView) -> bool {
        event is Items && (self.phase == Phase::CollectingSaved || (self.phase
            == Phase::Collecting && self.fetched + 1 >= self.playlists.len()
            && !self.include_saved))
    }

    /// Turns to the next source, or to the target once all sources are read.
    pub open spec fn next_source(self, order: Seq<Seq<char>>) -> (RunView, ActionView) {
        if self.fetched < self.playlists.len() {
            let playlist = self.playlists[self.fetched as int];
            if is_plain_id(playlist) {
                (
                    RunView { phase: Phase::Collecting, ..self },
                    ActionView::ListPlaylist { playlist },
                )
            } else {
                self.abort(RunError::InvalidSource { index: self.fetched as usize })
            }
        } else if self.include_saved {
            (RunView { phase: Phase::CollectingSaved, ..self }, ActionView::ListSaved)
        } else {
            self.prepare(order)
        }
    }

    /// Replaces what was collected by `order`, the shuffled sequence of its
    /// distinct identifiers. With nothing to write the run ends here, before
    /// any playlist is looked for.
    pub open spec fn prepare(self, order: Seq<Seq<char>>) -> (RunView, ActionView) {
        let counts = CountsView { unique: order.len(), ..self.counts };
        let ready = RunView { tracks: order, counts, ..self };
        if order.len() == 0 {
            (
                RunView { phase: Phase::Finished, ..ready },
                ActionView::Finish(ReportView { counts, link: None }),
            )
        } else {
            (
                RunView { phase: Phase::Searching, ..ready },
                ActionView::Search { name: self.target_name, limit: SEARCH_LIMIT, offset: 0 },
            )
        }
    }

    /// Removes the next batch of what the target held; once nothing of it is
    /// left, turns to writing.
    pub open spec fn clear_or_write(self) -> (RunView, ActionView) {
        if self.counts.cleared < self.stale.len() {
            (
                RunView { phase: Phase::Clearing, ..self },
                ActionView::Remove {
                    id: self.target->0.id,
                    items: batch_at(self.stale, self.counts.cleared as int, MAX_BATCH as int),
                },
            )
        } else {
            self.write_or_finish()
        }
    }

    /// Adds the next batch of the shuffled sequence, unless the strict check
    /// refuses one of its identifiers; once all are written, ends the run.
    pub open spec fn write_or_finish(self) -> (RunView, ActionView) {
        if self.counts.written < self.tracks.len() {
            let items = batch_at(self.tracks, self.counts.written as int, MAX_BATCH as int);
            match first_refusal(strict_findings(items)) {
                Some((at, fault)) => self.abort(
                    RunError::InvalidTrack { index: (self.counts.written + at) as usize, fault },
                ),
                None => (
                    RunView { phase: Phase::Writing, ..self },
                    ActionView::Append { id: self.target->0.id, items },
                ),
            }
        } else {
            let link = match self.target->0.link {
                Some(link) => link,
                None => missing_link(),
            };
            (
                RunView { phase: Phase::Finished, ..self },
                ActionView::Finish(ReportView { counts: self.counts, link: Some(link) }),
            )
        }
    }

    /// The state after `event`, and the action that answers it. `order` is the
    /// shuffled sequence; it is looked at only where the event completes the
    /// collection.
    pub open spec fn next(self, event: EventView, order: Seq<Seq<char>>) -> (RunView, ActionView) {
        match event {
            EventView::Failed => self.abort(RunError::Remote),
            EventView::Items(items) => {
                let rejected = (present(items).len() - valid_only(present(items)).len()) as nat;
                let tracks = self.gathered(event);
                match self.phase {
                    Phase::Collecting => RunView {
                        tracks,
                        fetched: self.fetched + 1,
                        counts: CountsView {
                            retrieved: tracks.len(),
                            rejected_from_playlists: capped_add(
                                self.counts.rejected_from_playlists,
                                rejected,
                            ),
                            ..self.counts
                        },
                        ..self
                    }.next_source(order),
                    Phase::CollectingSaved => RunView {
                        tracks,
                        counts: CountsView {
                            retrieved: tracks.len(),
                            rejected_from_saved: capped_add(
                                self.counts.rejected_from_saved,
                                rejected,
                            ),
                            ..self.counts
                        },
                        ..self
                    }.prepare(order),
                    Phase::Listing => RunView { stale: present(items), ..self }.clear_or_write(),
                    _ => self.abort(RunError::Unexpected),
                }
            },
            EventView::Candidates(found) => {
                if self.phase == Phase::Searching {
                    let candidates = match found {
                        Some(candidates) => candidates,
                        None => Seq::empty(),
                    };
                    (
                        RunView { phase: Phase::Identifying, candidates, ..self },
                        ActionView::CurrentUser,
                    )
                } else {
                    self.abort(RunError::Unexpected)
                }
            },
            EventView::User(user) => {
                if self.phase == Phase::Identifying {
                    let at = owned_match_position(self.candidates, self.target_name, user);
                    if at < self.candidates.len() {
                        (
                            RunView { phase: Phase::Resolving, ..self },
                            ActionView::Resolve { id: self.candidates[at as int].id },
                        )
                    } else {
                        (
                            RunView { phase: Phase::Creating, ..self },
                            ActionView::Create {
                                owner: user,
                                name: self.target_name,
                                public: Some(false),
                                collaborative: None,
                                description: target_description(),
                            },
                        )
                    }
                } else {
                    self.abort(RunError::Unexpected)
                }
            },
            EventView::Target(target) => match self.phase {
                Phase::Resolving => (
                    RunView { phase: Phase::Listing, target: Some(target), ..self },
                    ActionView::ListTarget { id: target.id },
                ),
                Phase::Creating => RunView { target: Some(target), ..self }.write_or_finish(),
                _ => self.abort(RunError::Unexpected),
            },
            EventView::Done => match self.phase {
                Phase::Clearing => RunView {
                    counts: CountsView {
                        cleared: batch_end(
                            self.stale.len() as int,
                            self.counts.cleared as int,
                            MAX_BATCH as int,
                        ) as nat,
                        ..self.counts
                    },
                    ..self
                }.clear_or_write(),
                Phase::Writing => RunView {
                    counts: CountsView {
                        written: batch_end(
                            self.tracks.len() as int,
                            self.counts.written as int,
                            MAX_BATCH as int,
                        ) as nat,
                        ..self.counts
                    },
                    ..self
                }.write_or_finish(),
                _ => self.abort(RunError::Unexpected),
            },
        }
    }

    /// Whether nothing of the target has been touched yet.
    pub open spec fn untouched(self) -> bool {
        self.stale.len() == 0 && self.counts.cleared == 0 && self.counts.written == 0
    }

    /// Whether `tracks` is the shuffled sequence: not empty, no identifier
    /// twice.
    pub open spec fn shuffled(self) -> bool {
        self.tracks.len() > 0 && self.tracks.no_duplicates() && self.counts.unique
            == self.tracks.len()
    }

    /// What holds of every state that a run can reach.
    pub open spec fn well_formed(self) -> bool {
        &&& self.fetched <= self.playlists.len()
        &&& self.counts.cleared <= self.stale.len()
        &&& self.counts.written <= self.tracks.len()
        &&& self.counts.cleared % (MAX_BATCH as nat) == 0 || self.counts.cleared
            == self.stale.len()
        &&& self.counts.written % (MAX_BATCH as nat) == 0 || self.counts.written
            == self.tracks.len()
        &&& forall|i: int| 0 <= i < self.tracks.len() ==> is_track_uri(#[trigger] self.tracks[i])
        &&& match self.phase {
            Phase::Collecting => self.fetched < self.playlists.len() && self.untouched(),
            Phase::CollectingSaved => self.untouched(),
            Phase::Searching | Phase::Identifying | Phase::Resolving | Phase::Creating => {
                self.shuffled() && self.untouched()
            },
            Phase::Listing => self.shuffled() && self.untouched() && self.target is Some,
            Phase::Clearing => self.shuffled() && self.target is Some && self.counts.cleared
                < self.stale.len() && self.counts.written == 0,
            Phase::Writing => self.shuffled() && self.target is Some && self.counts.cleared
                == self.stale.len() && self.counts.written < self.tracks.len(),
            Phase::Finished | Phase::Aborted => true,
        }
    }
}

/// A run stays well formed: from a well-formed state, every event leads to a
/// well-formed state, provided that the shuffled sequence handed in at the end
/// of the collection is an arrangement of the distinct identifiers collected.
pub proof fn lemma_next_preserves_well_formed(
    pre: RunView,
    event: EventView,
    order: Seq<Seq<char>>,
)
    requires
        pre.well_formed(),
        pre.completes_collection(event) ==> is_prepared(pre.gathered(event), order),
    ensures
        pre.next(event, order).0.well_formed(),
{
    match event {
        EventView::Items(items) => {
            lemma_valid_only_is_valid(present(items));
            if pre.completes_collection(event) {
                assert forall|i: int| 0 <= i < order.len() implies is_track_uri(
                    #[trigger] order[i],
                ) by {
                    assert(order.to_set().contains(order[i]));
                }
            }
        },
        _ => {},
    }
}

/// No removal and no addition carries more than [`MAX_BATCH`] items, and none
/// is empty. Each carries the batch that is next in line: the removals walk
/// through the batches of what the target held, the additions through the
/// batches of the shuffled sequence, both in order.
pub proof fn lemma_actions_follow_the_batches(
    pre: RunView,
    event: EventView,
    order: Seq<Seq<char>>,
)
    requires
        pre.well_formed(),
        pre.completes_collection(event) ==> is_prepared(pre.gathered(event), order),
    ensures
        match pre.next(event, order).1 {
            ActionView::Remove { items, .. } => {
                let post = pre.next(event, order).0;
                &&& 0 < items.len() <= MAX_BATCH
                &&& post.counts.cleared % (MAX_BATCH as nat) == 0
                &&& items == batches(post.stale, MAX_BATCH as nat)[post.counts.cleared as int
                    / MAX_BATCH as int]
            },
            ActionView::Append { items, .. } => {
                let post = pre.next(event, order).0;
                &&& 0 < items.len() <= MAX_BATCH
                &&& post.counts.written % (MAX_BATCH as nat) == 0
                &&& items == batches(post.tracks, MAX_BATCH as nat)[post.counts.written as int
                    / MAX_BATCH as int]
            },
            _ => true,
        },
{
    let (post, action) = pre.next(event, order);
    lemma_next_preserves_well_formed(pre, event, order);
    match action {
        ActionView::Remove { items, .. } => {
            let k = (post.counts.cleared / (MAX_BATCH as nat)) as nat;
            lemma_batches_by_position(post.stale, MAX_BATCH as nat, k);
        },
        ActionView::Append { items, .. } => {
            let k = (post.counts.written / (MAX_BATCH as nat)) as nat;
            lemma_batches_by_position(post.tracks, MAX_BATCH as nat, k);
        },
        _ => {},
    }
}

/// Nothing is added before the target is empty: when an addition is handed
/// out, the removal of every item that the target held has been acknowledged;
/// as long as removals are handed out, nothing has been written; and once the
/// run waits for an addition, it hands out no removal any more.
pub proof fn lemma_clearing_precedes_writing(
    pre: RunView,
    event: EventView,
    order: Seq<Seq<char>>,
)
    requires
        pre.well_formed(),
        pre.completes_collection(event) ==> is_prepared(pre.gathered(event), order),
    ensures
        pre.next(event, order).1 is Append ==> {
            &&& pre.next(event, order).0.phase == Phase::Writing
            &&& pre.next(event, order).0.counts.cleared == pre.next(event, order).0.stale.len()
        },
        pre.next(event, order).1 is Remove ==> {
            &&& pre.next(event, order).0.phase == Phase::Clearing
            &&& pre.next(event, order).0.counts.written == 0
        },
        pre.phase == Phase::Writing ==> !(pre.next(event, order).1 is Remove),
{
    lemma_next_preserves_well_formed(pre, event, order);
}

/// A playlist is reused only if it is the first candidate that bears the
/// wanted name and belongs to the user just reported. A candidate of the same
/// name that belongs to someone else is never chosen; without an owned match a
/// new playlist is asked for, private and not collaborative.
pub proof fn lemma_reused_target_is_owned(pre: RunView, user: Seq<char>, order: Seq<Seq<char>>)
    requires
        pre.phase == Phase::Identifying,
    ensures
        match pre.next(EventView::User(user), order).1 {
            ActionView::Resolve { id } => exists|at: int|
                {
                    &&& 0 <= at < pre.candidates.len()
                    &&& id == (#[trigger] pre.candidates[at]).id
                    &&& is_owned_match(pre.candidates[at], pre.target_name, user)
                    &&& forall|j: int|
                        0 <= j < at ==> !is_owned_match(
                            #[trigger] pre.candidates[j],
                            pre.target_name,
                            user,
                        )
                },
            ActionView::Create { owner, name, public, collaborative, .. } => {
                &&& owner == user
                &&& name == pre.target_name
                &&& public == Some(false)
                &&& collaborative is None
                &&& forall|j: int|
                    0 <= j < pre.candidates.len() ==> !is_owned_match(
                        #[trigger] pre.candidates[j],
                        pre.target_name,
                        user,
                    )
            },
            _ => false,
        },
{
    lemma_owned_match_position(pre.candidates, pre.target_name, user);
}

/// A failed call ends the run at once: the run is given up with what was
/// acknowledged until then, and whatever is reported afterwards, nothing but
/// `Abort` is handed out any more.
pub proof fn lemma_failure_is_final(pre: RunView, later: EventView, order: Seq<Seq<char>>)
    ensures
        pre.next(EventView::Failed, order) == (
            RunView { phase: Phase::Aborted, ..pre },
            ActionView::Abort(RunError::Remote),
        ),
        pre.phase == Phase::Aborted || pre.phase == Phase::Finished ==> pre.next(later, order).0
            == (RunView { phase: Phase::Aborted, ..pre }) && pre.next(later, order).1 is Abort,
{
}

} // verus!
