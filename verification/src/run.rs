//! One run, step by step.
//!
//! A run never talks to the catalog itself. [`Run::start`] and [`Run::step`]
//! hand out one [`Action`] at a time; the caller performs it and reports the
//! outcome as an [`Event`]. Every decision of a run is taken here.

use crate::aggregate::{collect_valid, present, present_items, SourceSet};
use crate::batch::{end_of_batch, take_batch, MAX_BATCH};
use crate::ids::accepts_playlist_id;
use crate::model::{
    is_prepared, lemma_actions_follow_the_batches, lemma_next_preserves_well_formed, RunView,
};
use crate::protocol::{
    Action, ActionView, ConfigError, Counts, Event, Phase, Report, RunError, MISSING_LINK,
    SEARCH_LIMIT, TARGET_DESCRIPTION,
};
use crate::reconcile::{find_owned_match, Candidate, Collection};
use crate::shuffle::{lemma_reordering_keeps, shuffle_tracks};
use crate::tracks::{
    is_blank, is_track_uri, is_whitespace, is_whitespace_char, lemma_trimmed_empty_iff_blank,
    lemma_valid_only_is_valid, lemma_valid_only_of_valid, trimmed, validate_and_deduplicate_tracks,
};
use crate::vet::vet_batch;
use vstd::prelude::*;

verus! {

/// The fields of a run, without the promise that they fit together.
struct State {
    phase: Phase,
    playlists: Vec<String>,
    include_saved: bool,
    target_name: String,
    fetched: usize,
    tracks: Vec<String>,
    candidates: Vec<Candidate>,
    target: Option<Collection>,
    stale: Vec<String>,
    counts: Counts,
}

impl View for State {
    type V = RunView;

    closed spec fn view(&self) -> RunView {
        RunView {
            phase: self.phase,
            playlists: self.playlists.deep_view(),
            include_saved: self.include_saved,
            target_name: self.target_name@,
            fetched: self.fetched as nat,
            tracks: self.tracks.deep_view(),
            candidates: self.candidates.deep_view(),
            target: self.target.deep_view(),
            stale: self.stale.deep_view(),
            counts: self.counts@,
        }
    }
}

/// A run in progress.
///
/// A value of this type is always well formed in the sense of
/// [`RunView::well_formed`].
pub struct Run {
    state: State,
}

impl View for Run {
    type V = RunView;

    closed spec fn view(&self) -> RunView {
        self.state@
    }
}

/// Whether leading and trailing whitespace is all that `text` holds.
fn is_blank_text(text: &str) -> (blank: bool)
    ensures
        blank == (trimmed(text@).len() == 0),
{
    proof {
        lemma_trimmed_empty_iff_blank(text@);
    }
    for c in it: text.chars()
        invariant
            it.seq() == text@,
            trimmed(text@).len() == 0 <==> is_blank(text@),
            forall|i: int| 0 <= i < it.index() ==> is_whitespace_char(
                #[trigger] text@[i],
            ),
    {
        if !is_whitespace(c) {
            return false;
        }
    }
    true
}

fn abort(state: State, error: RunError) -> (out: (State, Action))
    ensures
        (out.0@, out.1@) == state@.abort(error),
{
    let mut state = state;
    state.phase = Phase::Aborted;
    (state, Action::Abort(error))
}

fn prepare(state: State) -> (out: (State, Action))
    requires
        forall|i: int| 0 <= i < state@.tracks.len() ==> is_track_uri(#[trigger] state@.tracks[i]),
    ensures
        (out.0@, out.1@) == state@.prepare(out.0@.tracks),
        is_prepared(state@.tracks, out.0@.tracks),
{
    let mut state = state;
    let ghost collected = state@.tracks;
    let mut taken: Vec<String> = Vec::new();
    std::mem::swap(&mut state.tracks, &mut taken);
    let unique = validate_and_deduplicate_tracks(taken);
    proof {
        lemma_valid_only_of_valid(collected);
    }
    let order = shuffle_tracks(unique);
    proof {
        lemma_reordering_keeps(order.deep_view(), unique.deep_view());
    }
    state.counts.unique = order.len();
    state.tracks = order;
    if state.tracks.len() == 0 {
        state.phase = Phase::Finished;
        let report = Report { counts: state.counts, link: None };
        (state, Action::Finish(report))
    } else {
        state.phase = Phase::Searching;
        let name = state.target_name.clone();
        (state, Action::Search { name, limit: SEARCH_LIMIT, offset: 0 })
    }
}

fn next_source(state: State) -> (out: (State, Action))
    requires
        state@.fetched <= state@.playlists.len(),
        forall|i: int| 0 <= i < state@.tracks.len() ==> is_track_uri(#[trigger] state@.tracks[i]),
    ensures
        (out.0@, out.1@) == state@.next_source(out.0@.tracks),
        state@.fetched >= state@.playlists.len() && !state@.include_saved ==> is_prepared(
            state@.tracks,
            out.0@.tracks,
        ),
{
    let mut state = state;
    if state.fetched < state.playlists.len() {
        if accepts_playlist_id(state.playlists[state.fetched].as_str()) {
            state.phase = Phase::Collecting;
            let playlist = state.playlists[state.fetched].clone();
            (state, Action::ListPlaylist { playlist })
        } else {
            let index = state.fetched;
            abort(state, RunError::InvalidSource { index })
        }
    } else if state.include_saved {
        state.phase = Phase::CollectingSaved;
        (state, Action::ListSaved)
    } else {
        prepare(state)
    }
}

fn write_or_finish(state: State) -> (out: (State, Action))
    requires
        state@.target is Some,
        state@.counts.written <= state@.tracks.len(),
    ensures
        (out.0@, out.1@) == state@.write_or_finish(),
{
    let mut state = state;
    let target = state.target.as_ref().unwrap();
    if state.counts.written < state.tracks.len() {
        let items = take_batch(&state.tracks, state.counts.written, MAX_BATCH);
        match vet_batch(&items) {
            Some(refusal) => {
                let index = state.counts.written + refusal.index;
                abort(state, RunError::InvalidTrack { index, fault: refusal.fault })
            },
            None => {
                let id = target.id.clone();
                state.phase = Phase::Writing;
                (state, Action::Append { id, items })
            },
        }
    } else {
        let link = match &target.link {
            Some(link) => link.clone(),
            None => MISSING_LINK.to_owned(),
        };
        let report = Report { counts: state.counts, link: Some(link) };
        state.phase = Phase::Finished;
        (state, Action::Finish(report))
    }
}

fn clear_or_write(state: State) -> (out: (State, Action))
    requires
        state@.target is Some,
        state@.counts.cleared <= state@.stale.len(),
        state@.counts.written <= state@.tracks.len(),
    ensures
        (out.0@, out.1@) == state@.clear_or_write(),
{
    let mut state = state;
    if state.counts.cleared < state.stale.len() {
        let id = state.target.as_ref().unwrap().id.clone();
        let items = take_batch(&state.stale, state.counts.cleared, MAX_BATCH);
        state.phase = Phase::Clearing;
        (state, Action::Remove { id, items })
    } else {
        write_or_finish(state)
    }
}

fn advance(state: State, event: Event) -> (out: (State, Action))
    requires
        state@.well_formed(),
    ensures
        (out.0@, out.1@) == state@.next(event@, out.0@.tracks),
        state@.completes_collection(event@) ==> is_prepared(
            state@.gathered(event@),
            out.0@.tracks,
        ),
{
    let mut state = state;
    let ghost pre = state@;
    assert(state.phase == Phase::Collecting ==> state.fetched < state.playlists.len());
    match event {
        Event::Failed => abort(state, RunError::Remote),
        Event::Items(items) => match state.phase {
            Phase::Collecting => {
                let mut found = collect_valid(&items);
                proof {
                    lemma_valid_only_is_valid(present(items.deep_view()));
                }
                state.tracks.append(&mut found.tracks);
                assert(state.tracks.deep_view() =~= pre.gathered(event@));
                state.fetched = state.fetched + 1;
                state.counts.retrieved = state.tracks.len();
                state.counts.rejected_from_playlists =
                    state.counts.rejected_from_playlists.saturating_add(found.rejected);
                next_source(state)
            },
            Phase::CollectingSaved => {
                let mut found = collect_valid(&items);
                proof {
                    lemma_valid_only_is_valid(present(items.deep_view()));
                }
                state.tracks.append(&mut found.tracks);
                assert(state.tracks.deep_view() =~= pre.gathered(event@));
                state.counts.retrieved = state.tracks.len();
                state.counts.rejected_from_saved = state.counts.rejected_from_saved.saturating_add(
                    found.rejected,
                );
                prepare(state)
            },
            Phase::Listing => {
                state.stale = present_items(&items);
                clear_or_write(state)
            },
            _ => abort(state, RunError::Unexpected),
        },
        Event::Candidates(found) => match state.phase {
            Phase::Searching => {
                state.candidates = match found {
                    Some(candidates) => candidates,
                    None => Vec::new(),
                };
                assert(found is None ==> state.candidates.deep_view() =~= Seq::empty());
                state.phase = Phase::Identifying;
                (state, Action::CurrentUser)
            },
            _ => abort(state, RunError::Unexpected),
        },
        Event::User(user) => match state.phase {
            Phase::Identifying => {
                match find_owned_match(&state.candidates, &state.target_name, &user) {
                    Some(at) => {
                        let id = state.candidates[at].id.clone();
                        state.phase = Phase::Resolving;
                        (state, Action::Resolve { id })
                    },
                    None => {
                        let name = state.target_name.clone();
                        state.phase = Phase::Creating;
                        (
                            state,
                            Action::Create {
                                owner: user,
                                name,
                                public: Some(false),
                                collaborative: None,
                                description: TARGET_DESCRIPTION.to_owned(),
                            },
                        )
                    },
                }
            },
            _ => abort(state, RunError::Unexpected),
        },
        Event::Target(target) => match state.phase {
            Phase::Resolving => {
                let id = target.id.clone();
                state.target = Some(target);
                state.phase = Phase::Listing;
                (state, Action::ListTarget { id })
            },
            Phase::Creating => {
                state.target = Some(target);
                write_or_finish(state)
            },
            _ => abort(state, RunError::Unexpected),
        },
        Event::Done => match state.phase {
            Phase::Clearing => {
                state.counts.cleared = end_of_batch(
                    state.stale.len(),
                    state.counts.cleared,
                    MAX_BATCH,
                );
                clear_or_write(state)
            },
            Phase::Writing => {
                state.counts.written = end_of_batch(
                    state.tracks.len(),
                    state.counts.written,
                    MAX_BATCH,
                );
                write_or_finish(state)
            },
            _ => abort(state, RunError::Unexpected),
        },
    }
}

impl Run {
    #[verifier::type_invariant]
    spec fn fits_together(self) -> bool {
        self.state@.well_formed()
    }

    /// Opens a run.
    ///
    /// A run without any source is refused, and so is one whose target name
    /// is empty or blank; the first takes precedence. Otherwise the first
    /// action is handed out: the listing of the first playlist, the listing
    /// of the saved tracks where no playlist is named, or the end of the run
    /// where the first playlist is not named by a catalog id.
    pub fn start(sources: SourceSet, target_name: String) -> (out: Result<(Run, Action), ConfigError>)
        ensures
            match out {
                Ok((run, action)) => {
                    &&& !sources.spec_is_empty()
                    &&& trimmed(target_name@).len() > 0
                    &&& (run@, action@) == RunView::fresh(
                        sources.playlists.deep_view(),
                        sources.include_saved,
                        target_name@,
                    ).next_source(run@.tracks)
                    &&& run@.well_formed()
                },
                Err(ConfigError::NoSources) => sources.spec_is_empty(),
                Err(ConfigError::EmptyTargetName) => !sources.spec_is_empty() && trimmed(
                    target_name@,
                ).len() == 0,
            },
    {
        if sources.is_empty() {
            return Err(ConfigError::NoSources);
        }
        if is_blank_text(target_name.as_str()) {
            return Err(ConfigError::EmptyTargetName);
        }
        let state = State {
            phase: Phase::Collecting,
            playlists: sources.playlists,
            include_saved: sources.include_saved,
            target_name,
            fetched: 0,
            tracks: Vec::new(),
            candidates: Vec::new(),
            target: None,
            stale: Vec::new(),
            counts: Counts {
                retrieved: 0,
                rejected_from_playlists: 0,
                rejected_from_saved: 0,
                unique: 0,
                cleared: 0,
                written: 0,
            },
        };
        proof {
            let fresh = RunView::fresh(
                sources.playlists.deep_view(),
                sources.include_saved,
                target_name@,
            );
            assert(state@.candidates =~= fresh.candidates);
            assert(state@.stale =~= fresh.stale);
        }
        let (state, action) = next_source(state);
        Ok((Run { state }, action))
    }

    /// Takes in the outcome of the action handed out last and hands out the
    /// next one.
    ///
    /// The answer is the one that [`RunView::next`] gives. Where the event
    /// completes the collection, the tracks are freed of duplicates and
    /// shuffled; the order that comes out is not determined, only that it
    /// holds each distinct identifier collected exactly once. No removal and
    /// no addition that is handed out is empty or carries more than
    /// [`MAX_BATCH`] items.
    pub fn step(self, event: Event) -> (out: (Run, Action))
        ensures
            (out.0@, out.1@) == self@.next(event@, out.0@.tracks),
            self@.completes_collection(event@) ==> is_prepared(
                self@.gathered(event@),
                out.0@.tracks,
            ),
            self@.well_formed(),
            out.0@.well_formed(),
            match out.1@ {
                ActionView::Remove { items, .. } => 0 < items.len() <= MAX_BATCH,
                ActionView::Append { items, .. } => 0 < items.len() <= MAX_BATCH,
                _ => true,
            },
    {
        proof {
            use_type_invariant(&self);
        }
        let ghost pre = self@;
        let (state, action) = advance(self.state, event);
        proof {
            lemma_next_preserves_well_formed(pre, event@, state@.tracks);
            lemma_actions_follow_the_batches(pre, event@, state@.tracks);
        }
        (Run { state }, action)
    }

    /// Where the run stands.
    pub fn phase(&self) -> (phase: Phase)
        ensures
            phase == self@.phase,
    {
        self.state.phase
    }

    /// The counts so far.
    pub fn counts(&self) -> (counts: Counts)
        ensures
            counts@ == self@.counts,
    {
        self.state.counts
    }

    /// While collecting, the identifiers accepted so far; afterwards, the
    /// shuffled sequence.
    pub fn tracks(&self) -> (tracks: &Vec<String>)
        ensures
            tracks.deep_view() == self@.tracks,
    {
        &self.state.tracks
    }
}

} // verus!
