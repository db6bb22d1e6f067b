//! Who a client is.
//!
//! A client identifies with `IDENTIFY ` and then either a payload that holds an auth token, or the
//! name of a user as it is. Payloads and tokens are read by functions that the caller hands in.

use crate::text::after_prefix;
use crate::{ClaimsView, TokenClaims};
use vstd::prelude::*;

verus! {

/// What a client sends to identify with a token.
#[derive(Debug)]
pub struct IdentifyPayload {
    pub client_version: String,
    pub token: String,
}

/// What a client sends to identify with a token.
pub struct PayloadView {
    pub client_version: Seq<char>,
    pub token: Seq<char>,
}

impl View for IdentifyPayload {
    type V = PayloadView;

    open spec fn view(&self) -> PayloadView {
        PayloadView { client_version: self.client_version@, token: self.token@ }
    }
}

/// Why a token is not accepted.
#[derive(Debug, PartialEq, Eq, Structural)]
pub enum TokenError {
    /// It is not signed with the key of the server, or says too little.
    Invalid,
    /// It was good once.
    Expired,
}

/// Who someone is, by name and version.
#[derive(Debug)]
pub struct Identity {
    pub user_id: String,
    pub version: String,
}

/// Who someone is, by name and version.
pub struct IdentityView {
    pub user_id: Seq<char>,
    pub version: Seq<char>,
}

impl View for Identity {
    type V = IdentityView;

    open spec fn view(&self) -> IdentityView {
        IdentityView { user_id: self.user_id@, version: self.version@ }
    }
}

/// What an optional payload holds.
pub open spec fn opt_payload_view(payload: Option<IdentifyPayload>) -> Option<PayloadView> {
    match payload {
        Some(payload) => Some(payload@),
        None => None,
    }
}

/// What optional claims say.
pub open spec fn opt_claims_view(claims: Option<TokenClaims>) -> Option<ClaimsView> {
    match claims {
        Some(claims) => Some(claims@),
        None => None,
    }
}

/// What came of a token.
pub open spec fn result_view(r: Result<TokenClaims, TokenError>) -> Result<ClaimsView, TokenError> {
    match r {
        Ok(claims) => Ok(claims@),
        Err(e) => Err(e),
    }
}

/// Whether the claims that were read from a token are accepted at a second: not after the one they
/// are good until.
pub open spec fn accepted_claims(claims: Option<ClaimsView>, now: u64) -> Result<
    ClaimsView,
    TokenError,
> {
    match claims {
        Some(claims) => if claims.exp < now {
            Err(TokenError::Expired)
        } else {
            Ok(claims)
        },
        None => Err(TokenError::Invalid),
    }
}

/// What follows `IDENTIFY ` in a message that starts with it.
pub open spec fn ident_of(msg: Seq<char>) -> Option<Seq<char>> {
    if "IDENTIFY "@.is_prefix_of(msg) {
        Some(msg.skip("IDENTIFY "@.len() as int))
    } else {
        None
    }
}

/// Who is meant by what follows `IDENTIFY `. With a payload, it is the user of an accepted token.
/// Without one, it is the user of that name, with an old client.
pub open spec fn identity_of(
    ident: Seq<char>,
    payload: Option<PayloadView>,
    claims: Result<ClaimsView, TokenError>,
) -> Option<IdentityView> {
    match payload {
        Some(payload) => match claims {
            Ok(claims) => Some(
                IdentityView { user_id: claims.username, version: payload.client_version },
            ),
            Err(_) => None,
        },
        None => Some(IdentityView { user_id: ident, version: "0.2.0"@ }),
    }
}

/// Whether a reader of payloads can make this of a text.
pub open spec fn reads_payload<P: Fn(&str) -> Option<IdentifyPayload>>(
    read_payload: P,
    text: Seq<char>,
    payload: Option<PayloadView>,
) -> bool {
    exists|s: &str, p: Option<IdentifyPayload>| #[trigger]
        read_payload.ensures((s,), p) && s@ == text && payload == opt_payload_view(p)
}

/// Whether a reader of tokens can make this of a token and a key.
pub open spec fn reads_claims<C: Fn(&str, &str) -> Option<TokenClaims>>(
    read_claims: C,
    token: Seq<char>,
    key: Seq<char>,
    claims: Option<ClaimsView>,
) -> bool {
    exists|s: &str, k: &str, c: Option<TokenClaims>| #[trigger]
        read_claims.ensures((s, k), c) && s@ == token && k@ == key && claims == opt_claims_view(c)
}

/// Whether a message identifies its sender so: what follows `IDENTIFY ` was read as a payload, the
/// token of the payload, if there is one, was read with the key, and this is who is meant by what
/// came of it. A message that does not start with `IDENTIFY ` identifies nobody.
pub open spec fn identifies<
    P: Fn(&str) -> Option<IdentifyPayload>,
    C: Fn(&str, &str) -> Option<TokenClaims>,
>(
    msg: Seq<char>,
    key: Seq<char>,
    now: u64,
    read_payload: P,
    read_claims: C,
    identity: Option<IdentityView>,
) -> bool {
    match ident_of(msg) {
        Some(ident) => {
            ||| reads_payload(read_payload, ident, None) && identity == identity_of(
                ident,
                None,
                Err(TokenError::Invalid),
            )
            ||| exists|payload: PayloadView, claims: Option<ClaimsView>| #[trigger]
                reads_claims(read_claims, payload.token, key, claims) && reads_payload(
                    read_payload,
                    ident,
                    Some(payload),
                ) && identity == identity_of(ident, Some(payload), accepted_claims(claims, now))
        },
        None => identity is None,
    }
}

/// Accepts claims that are still good at this second.
pub fn accept_claims(claims: Option<TokenClaims>, now: u64) -> (r: Result<TokenClaims, TokenError>)
    ensures
        result_view(r) == accepted_claims(opt_claims_view(claims), now),
{
    match claims {
        Some(claims) => if claims.exp < now {
            Err(TokenError::Expired)
        } else {
            Ok(claims)
        },
        None => Err(TokenError::Invalid),
    }
}

/// Reads a token with a key, and accepts it if it is still good at this second.
pub fn parse_token<C: Fn(&str, &str) -> Option<TokenClaims>>(
    token: &str,
    key: &str,
    now: u64,
    read_claims: C,
) -> (r: Result<TokenClaims, TokenError>)
    requires
        forall|s: &str, k: &str| #[trigger] read_claims.requires((s, k)),
    ensures
        exists|claims: Option<ClaimsView>| #[trigger]
            reads_claims(read_claims, token@, key@, claims) && result_view(r) == accepted_claims(
                claims,
                now,
            ),
{
    let claims: Option<TokenClaims> = read_claims(token, key);
    assert(reads_claims(read_claims, token@, key@, opt_claims_view(claims)));
    accept_claims(claims, now)
}

/// Says who is meant by what follows `IDENTIFY `, given the payload in it, if there is one, and
/// what came of the token in the payload.
pub fn identity_from(
    ident: &str,
    payload: Option<IdentifyPayload>,
    claims: Result<TokenClaims, TokenError>,
) -> (r: Option<Identity>)
    ensures
        opt_identity_view(r) == identity_of(
            ident@,
            opt_payload_view(payload),
            result_view(claims),
        ),
{
    match payload {
        Some(payload) => match claims {
            Ok(claims) => Some(
                Identity { user_id: claims.username, version: payload.client_version },
            ),
            Err(_) => None,
        },
        None => Some(Identity { user_id: ident.to_owned(), version: "0.2.0".to_owned() }),
    }
}

/// Who an optional identity is.
pub open spec fn opt_identity_view(identity: Option<Identity>) -> Option<IdentityView> {
    match identity {
        Some(identity) => Some(identity@),
        None => None,
    }
}

/// Says who a message identifies its sender as, if anyone.
pub fn identify<
    P: Fn(&str) -> Option<IdentifyPayload>,
    C: Fn(&str, &str) -> Option<TokenClaims>,
>(msg: &str, key: &str, now: u64, read_payload: P, read_claims: C) -> (r: Option<Identity>)
    requires
        forall|s: &str| #[trigger] read_payload.requires((s,)),
        forall|s: &str, k: &str| #[trigger] read_claims.requires((s, k)),
    ensures
        identifies(msg@, key@, now, read_payload, read_claims, opt_identity_view(r)),
{
    let ident: &str = match after_prefix(msg, "IDENTIFY ") {
        Some(ident) => ident,
        None => {
            return None;
        },
    };
    let payload: Option<IdentifyPayload> = read_payload(ident);
    assert(reads_payload(read_payload, ident@, opt_payload_view(payload)));
    let claims: Result<TokenClaims, TokenError> = match &payload {
        Some(payload) => parse_token(payload.token.as_str(), key, now, read_claims),
        None => Err(TokenError::Invalid),
    };
    proof {
        if payload is Some {
            let read = choose|read: Option<ClaimsView>| #[trigger]
                reads_claims(read_claims, payload->0.token@, key@, read) && result_view(claims)
                    == accepted_claims(read, now);
            assert(reads_claims(read_claims, payload->0@.token, key@, read));
        }
    }
    identity_from(ident, payload, claims)
}

} // verus!
