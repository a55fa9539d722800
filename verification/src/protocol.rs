//! What a run and its caller say to each other: the actions that a run hands
//! out, the events that answer them, and the counts and errors that it reports.

use crate::ids::IdFault;
use crate::reconcile::{Candidate, CandidateView, Collection, CollectionView};
use vstd::prelude::*;

verus! {

/// How many candidates the search for the target asks for.
pub const SEARCH_LIMIT: u32 = 50;

/// Where a run stands: which answer it is waiting for.
#[derive(Clone, Copy, Debug, PartialEq, Eq, Structural)]
pub enum Phase {
    /// Waiting for the items of the next source playlist.
    Collecting,
    /// Waiting for the saved tracks.
    CollectingSaved,
    /// Waiting for the candidates that the search found.
    Searching,
    /// Waiting for the identity of the current user.
    Identifying,
    /// Waiting for the details of the playlist that will be reused.
    Resolving,
    /// Waiting for the items that the reused playlist holds.
    Listing,
    /// Waiting for a removal to be acknowledged.
    Clearing,
    /// Waiting for the new playlist.
    Creating,
    /// Waiting for an addition to be acknowledged.
    Writing,
    /// The run ended well.
    Finished,
    /// The run was given up.
    Aborted,
}

/// Why a run cannot even start.
#[derive(Clone, Copy, Debug, PartialEq, Eq, Structural)]
pub enum ConfigError {
    /// No playlist is named and the saved tracks are not asked for.
    NoSources,
    /// The name of the target is empty or blank.
    EmptyTargetName,
}

/// Why a run was given up.
#[derive(Clone, Copy, Debug, PartialEq, Eq, Structural)]
pub enum RunError {
    /// A call to the catalog failed.
    Remote,
    /// The source playlist at `index` is not named by a catalog id.
    InvalidSource { index: usize },
    /// The track at `index` of the shuffled sequence did not pass the strict
    /// check that precedes every addition.
    InvalidTrack { index: usize, fault: IdFault },
    /// The event does not answer the action that was handed out.
    Unexpected,
}

/// The counts that a run keeps. The two counters of rejected identifiers stop
/// at `usize::MAX`; the others cannot reach it.
#[derive(Clone, Copy, Debug, PartialEq, Eq, Structural)]
pub struct Counts {
    /// Identifiers accepted from all sources, repeats included.
    pub retrieved: usize,
    /// Identifiers of playlist items that were rejected.
    pub rejected_from_playlists: usize,
    /// Identifiers of saved tracks that were rejected.
    pub rejected_from_saved: usize,
    /// Distinct identifiers among those retrieved.
    pub unique: usize,
    /// Items of the reused playlist whose removal was acknowledged.
    pub cleared: usize,
    /// Tracks whose addition was acknowledged.
    pub written: usize,
}

/// The numbers of a [`Counts`].
pub struct CountsView {
    pub retrieved: nat,
    pub rejected_from_playlists: nat,
    pub rejected_from_saved: nat,
    pub unique: nat,
    pub cleared: nat,
    pub written: nat,
}

impl View for Counts {
    type V = CountsView;

    open spec fn view(&self) -> CountsView {
        CountsView {
            retrieved: self.retrieved as nat,
            rejected_from_playlists: self.rejected_from_playlists as nat,
            rejected_from_saved: self.rejected_from_saved as nat,
            unique: self.unique as nat,
            cleared: self.cleared as nat,
            written: self.written as nat,
        }
    }
}

/// The closing summary of a run that ended well.
#[derive(Debug, PartialEq, Eq)]
pub struct Report {
    pub counts: Counts,
    /// `None` when no track was left to write and no playlist was touched.
    /// Otherwise the public link of the target, or `N/A` where it has none.
    pub link: Option<String>,
}

/// The texts of a [`Report`].
pub struct ReportView {
    pub counts: CountsView,
    pub link: Option<Seq<char>>,
}

impl View for Report {
    type V = ReportView;

    open spec fn view(&self) -> ReportView {
        ReportView { counts: self.counts@, link: self.link.deep_view() }
    }
}

/// What the caller reports back.
#[derive(Debug, PartialEq, Eq)]
pub enum Event {
    /// The complete listing that was asked for. An entry is `None` where the
    /// item has no track behind it.
    Items(Vec<Option<String>>),
    /// The playlists that the search found, in its order; `None` where the
    /// search answered with anything but playlists.
    Candidates(Option<Vec<Candidate>>),
    /// The id of the current user.
    User(String),
    /// The playlist that was resolved or created.
    Target(Collection),
    /// The removal or addition was carried out.
    Done,
    /// The call failed.
    Failed,
}

/// The texts of an [`Event`].
pub enum EventView {
    Items(Seq<Option<Seq<char>>>),
    Candidates(Option<Seq<CandidateView>>),
    User(Seq<char>),
    Target(CollectionView),
    Done,
    Failed,
}

impl View for Event {
    type V = EventView;

    open spec fn view(&self) -> EventView {
        match self {
            Event::Items(items) => EventView::Items(items.deep_view()),
            Event::Candidates(found) => EventView::Candidates(found.deep_view()),
            Event::User(id) => EventView::User(id@),
            Event::Target(target) => EventView::Target(target@),
            Event::Done => EventView::Done,
            Event::Failed => EventView::Failed,
        }
    }
}

/// What the caller is asked to do next.
#[derive(Debug, PartialEq, Eq)]
pub enum Action {
    /// Resolve the source playlist and list all its items.
    ListPlaylist { playlist: String },
    /// List all saved tracks of the current user.
    ListSaved,
    /// Search playlists by name.
    Search { name: String, limit: u32, offset: u32 },
    /// Ask who the current user is.
    CurrentUser,
    /// Fetch the details of the playlist `id`.
    Resolve { id: String },
    /// List all items of the target.
    ListTarget { id: String },
    /// Remove every occurrence of `items` from the target.
    Remove { id: String, items: Vec<String> },
    /// Create the target.
    Create {
        owner: String,
        name: String,
        public: Option<bool>,
        collaborative: Option<bool>,
        description: String,
    },
    /// Add `items` at the end of the target.
    Append { id: String, items: Vec<String> },
    /// Nothing is left to do.
    Finish(Report),
    /// Stop: the run failed.
    Abort(RunError),
}

/// The texts of an [`Action`].
pub enum ActionView {
    ListPlaylist { playlist: Seq<char> },
    ListSaved,
    Search { name: Seq<char>, limit: u32, offset: u32 },
    CurrentUser,
    Resolve { id: Seq<char> },
    ListTarget { id: Seq<char> },
    Remove { id: Seq<char>, items: Seq<Seq<char>> },
    Create {
        owner: Seq<char>,
        name: Seq<char>,
        public: Option<bool>,
        collaborative: Option<bool>,
        description: Seq<char>,
    },
    Append { id: Seq<char>, items: Seq<Seq<char>> },
    Finish(ReportView),
    Abort(RunError),
}

impl View for Action {
    type V = ActionView;

    open spec fn view(&self) -> ActionView {
        match self {
            Action::ListPlaylist { playlist } => ActionView::ListPlaylist { playlist: playlist@ },
            Action::ListSaved => ActionView::ListSaved,
            Action::Search { name, limit, offset } => ActionView::Search {
                name: name@,
                limit: *limit,
                offset: *offset,
            },
            Action::CurrentUser => ActionView::CurrentUser,
            Action::Resolve { id } => ActionView::Resolve { id: id@ },
            Action::ListTarget { id } => ActionView::ListTarget { id: id@ },
            Action::Remove { id, items } => ActionView::Remove {
                id: id@,
                items: items.deep_view(),
            },
            Action::Create { owner, name, public, collaborative, description } => {
                ActionView::Create {
                    owner: owner@,
                    name: name@,
                    public: *public,
                    collaborative: *collaborative,
                    description: description@,
                }
            },
            Action::Append { id, items } => ActionView::Append {
                id: id@,
                items: items.deep_view(),
            },
            Action::Finish(report) => ActionView::Finish(report@),
            Action::Abort(error) => ActionView::Abort(*error),
        }
    }
}

/// The note that a new target carries.
pub const TARGET_DESCRIPTION: &'static str = "Automatically generated shuffled playlist";

/// What the summary shows for a target without a public link.
pub const MISSING_LINK: &'static str = "N/A";

/// The text of [`TARGET_DESCRIPTION`].
pub open spec fn target_description() -> Seq<char> {
    TARGET_DESCRIPTION@
}

/// The text of [`MISSING_LINK`].
pub open spec fn missing_link() -> Seq<char> {
    MISSING_LINK@
}

} // verus!
