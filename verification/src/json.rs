//! Serialized structured fields: the timestamps beside a session row and the
//! usage list of a cross-signing key are stored as JSON text.
//!
//! The encoding itself is done by serde_json; its results are named here and
//! the store's contracts speak of those names.

use vstd::prelude::*;
use crate::records::svs;

verus! {

/// The JSON text serde_json produces for a duration of `secs` seconds and
/// `nanos` subsecond nanoseconds.
pub uninterp spec fn duration_json(secs: u64, nanos: u32) -> Seq<char>;

/// What serde_json's duration decoder yields on text outside the encoder's
/// image: still a function of the text alone.
pub uninterp spec fn duration_parse_extra(s: Seq<char>) -> Option<(u64, u32)>;

/// What serde_json's duration decoder yields on any text: on the encoder's
/// image, the pair that was encoded; elsewhere, its named verdict.
#[verifier::opaque]
pub open spec fn duration_decoded(s: Seq<char>) -> Option<(u64, u32)> {
    if exists|a: u64, b: u32| b < 1_000_000_000 && s == duration_json(a, b) {
        Some(choose|a: u64, b: u32| b < 1_000_000_000 && s == duration_json(a, b))
    } else {
        duration_parse_extra(s)
    }
}

/// The JSON text serde_json produces for a list of strings.
pub uninterp spec fn string_list_json(l: Seq<Seq<char>>) -> Seq<char>;

/// Relies on serde_json::to_string of std's Duration: a deterministic
/// encoding of the (seconds, nanoseconds) pair, which cannot fail.
#[verifier::external_body]
pub fn duration_to_json(secs: u64, nanos: u32) -> (r: String)
    requires
        nanos < 1_000_000_000,
    ensures
        r@ == duration_json(secs, nanos),
{
    let dur = std::time::Duration::new(secs, nanos);
    serde_json::to_string(&dur).expect("serializing a duration does not fail")
}

/// Relies on serde_json::from_str of std's Duration: a deterministic verdict
/// on the text alone, it decodes exactly the text that serde_json's encoder
/// produces for a duration and never panics (overflow is reported as an
/// error).
#[verifier::external_body]
pub fn duration_from_json(s: &str) -> (r: Option<(u64, u32)>)
    ensures
        r == duration_decoded(s@),
        forall|a: u64, b: u32| b < 1_000_000_000 && s@ == duration_json(a, b) ==> r == Some((a, b)),
        (!exists|a: u64, b: u32| b < 1_000_000_000 && s@ == duration_json(a, b)) ==> r
            == duration_parse_extra(s@),
        r matches Some(d) ==> d.1 < 1_000_000_000,
{
    match serde_json::from_str::<std::time::Duration>(s) {
        Ok(dur) => Some((dur.as_secs(), dur.subsec_nanos())),
        Err(_) => None,
    }
}

/// Relies on serde_json::to_string of a vector of strings: a deterministic
/// encoding of the list, which cannot fail.
#[verifier::external_body]
pub fn string_list_to_json(v: &Vec<String>) -> (r: String)
    ensures
        r@ == string_list_json(svs(v@)),
{
    serde_json::to_string(v).expect("serializing a list of strings does not fail")
}

/// Relies on serde_json::from_str of a vector of strings: it decodes exactly
/// the text that serde_json's encoder produces for such a list.
#[verifier::external_body]
pub fn string_list_from_json(s: &str) -> (r: Option<Vec<String>>)
    ensures
        r is Some <== exists|l: Seq<Seq<char>>| s@ == string_list_json(l),
        r matches Some(v) ==> forall|l: Seq<Seq<char>>| s@ == string_list_json(l) ==> svs(v@) == l,
{
    serde_json::from_str::<Vec<String>>(s).ok()
}

} // verus!
