//! Status codes of responses.

use vstd::prelude::*;

verus! {

pub const OK: u16 = 200;

pub const BAD_REQUEST: u16 = 400;

pub const FORBIDDEN: u16 = 403;

pub const NOT_FOUND: u16 = 404;

pub const CONFLICT: u16 = 409;

/// The standard phrase of a status code, where it has one.
pub uninterp spec fn canonical_reason_of(code: u16) -> Option<Seq<char>>;

/// The standard phrase of a status code, where it has one. That of a bad request is spelled out.
pub open spec fn phrase_of(code: u16) -> Option<Seq<char>> {
    if code == BAD_REQUEST {
        Some("Bad Request"@)
    } else {
        canonical_reason_of(code)
    }
}

/// `http::StatusCode::canonical_reason` of the status code with this number: a phrase from a fixed
/// table, or nothing where the number is no status code or has no standard phrase. The phrase of
/// 400 is `Bad Request`.
#[verifier::external_body]
pub(crate) fn canonical_reason(code: u16) -> (r: Option<&'static str>)
    ensures
        match r {
            Some(phrase) => canonical_reason_of(code) == Some(phrase@) && (code == BAD_REQUEST
                ==> phrase@ == "Bad Request"@),
            None => canonical_reason_of(code) is None && code != BAD_REQUEST,
        },
{
    http::StatusCode::from_u16(code).ok().and_then(|status| status.canonical_reason())
}

} // verus!
