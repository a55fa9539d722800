//! The catalog's strict, typed form of identifiers.
//!
//! The checks in this module are made by the `rspotify` crate. Nothing is proved
//! about them: their contracts are taken on trust from that crate's source.

use rspotify::model::{IdError, PlaylistId, TrackId};
use vstd::prelude::*;

verus! {

/// Why a text is not accepted as an identifier of the wanted kind.
#[derive(Clone, Copy, Debug, PartialEq, Eq, Structural)]
pub enum IdFault {
    /// The text does not begin with `spotify:` or `spotify/`.
    InvalidPrefix,
    /// The text cannot be cut into a kind and an id.
    InvalidFormat,
    /// The kind is unknown, or is not the wanted one.
    InvalidType,
    /// The id holds a character that is not allowed.
    InvalidId,
}

/// Whether `c` is an ASCII letter or an ASCII digit.
pub open spec fn is_ascii_alphanumeric_char(c: char) -> bool {
    ||| 'a' <= c <= 'z'
    ||| 'A' <= c <= 'Z'
    ||| '0' <= c <= '9'
}

/// Whether `id` is made of ASCII letters and digits only. The empty text is.
pub open spec fn is_plain_id(id: Seq<char>) -> bool {
    forall|i: int| 0 <= i < id.len() ==> is_ascii_alphanumeric_char(#[trigger] id[i])
}

/// What `rspotify::model::TrackId::from_uri` finds wrong with `uri`, or `None`
/// where it accepts the text.
pub uninterp spec fn track_uri_fault(uri: Seq<char>) -> Option<IdFault>;

/// Calls `rspotify::model::TrackId::from_uri` and reports the error it gives, if
/// any. Trusted: the parsed identifier is dropped, the four error variants are
/// passed on one for one, and the contract only says that the answer depends on
/// nothing but the text.
#[verifier::external_body]
pub(crate) fn check_track_uri(uri: &str) -> (fault: Option<IdFault>)
    ensures
        fault == track_uri_fault(uri@),
{
    match TrackId::from_uri(uri) {
        Ok(_) => None,
        Err(IdError::InvalidPrefix) => Some(IdFault::InvalidPrefix),
        Err(IdError::InvalidFormat) => Some(IdFault::InvalidFormat),
        Err(IdError::InvalidType) => Some(IdFault::InvalidType),
        Err(IdError::InvalidId) => Some(IdFault::InvalidId),
    }
}

/// Calls `rspotify::model::PlaylistId::from_id` and tells whether it accepts
/// `id`. Trusted: that function tests every character with
/// `char::is_ascii_alphanumeric` and accepts the text when all pass, which the
/// empty text does.
#[verifier::external_body]
pub(crate) fn accepts_playlist_id(id: &str) -> (accepted: bool)
    ensures
        accepted == is_plain_id(id@),
{
    PlaylistId::from_id(id).is_ok()
}

} // verus!
