//! Typed-identifier validation.
//!
//! Identifiers are carried as plain strings; whether a stored string is a
//! well-formed Matrix identifier is decided by ruma's parsers, whose verdicts
//! are named here.  Bulk loads skip rows whose identifiers fail these checks,
//! as recoverable per-row faults.

use vstd::prelude::*;

verus! {

/// Whether ruma accepts the string as a user identifier.
pub uninterp spec fn user_id_ok(s: Seq<char>) -> bool;

/// Whether ruma accepts the string as a room identifier.
pub uninterp spec fn room_id_ok(s: Seq<char>) -> bool;

/// Relies on ruma's UserId::parse, re-exported through matrix_sdk_common: it
/// checks the user-identifier grammar of the string and nothing else.
#[verifier::external_body]
pub fn user_id_valid(s: &str) -> (r: bool)
    ensures
        r == user_id_ok(s@),
{
    matrix_sdk_common::ruma::UserId::parse(s).is_ok()
}

/// Relies on ruma's RoomId::parse, re-exported through matrix_sdk_common: it
/// checks the room-identifier grammar of the string and nothing else.
#[verifier::external_body]
pub fn room_id_valid(s: &str) -> (r: bool)
    ensures
        r == room_id_ok(s@),
{
    matrix_sdk_common::ruma::RoomId::parse(s).is_ok()
}

} // verus!
