//! Rebuilds one playlist as a shuffled, duplicate-free merge of other playlists
//! and the user's saved tracks.
//!
//! The library holds every decision of a run: which identifiers are accepted,
//! how duplicates are dropped, which existing playlist is reused, and how the
//! removals and additions are cut into bounded batches. Remote calls are left to
//! the caller, which performs each requested action and reports what came back.

pub mod aggregate;
pub mod batch;
pub mod ids;
pub mod model;
pub mod protocol;
pub mod reconcile;
pub mod run;
pub mod shuffle;
pub mod tracks;
pub mod vet;
