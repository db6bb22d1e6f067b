//! A signalling server for calls in rooms.
//!
//! Clients connect over a websocket, identify themselves, and then send batches of requests. The
//! library holds the state of the server and decides what every message does to it, what is
//! answered, and what other clients are told.

use vstd::prelude::*;

pub mod config;
pub mod ids;
pub mod json;
pub mod lists;
pub mod server;
pub mod text;

use crate::json::{Json, JsonView, find_str, json_of_text, lookup, lookup_str, opt_json_view, parse};

verus! {

/// What an auth token says of its bearer.
#[derive(Debug)]
pub struct TokenClaims {
    pub username: String,
    pub email: String,
    /// The second since 1970 after which the token is no longer good.
    pub exp: u64,
}

/// What an auth token says of its bearer.
pub struct ClaimsView {
    pub username: Seq<char>,
    pub email: Seq<char>,
    pub exp: u64,
}

impl View for TokenClaims {
    type V = ClaimsView;

    open spec fn view(&self) -> ClaimsView {
        ClaimsView { username: self.username@, email: self.email@, exp: self.exp }
    }
}

/// Seconds in a year of 365 days.
pub const YEAR: u64 = 31_536_000;

impl TokenClaims {
    /// What the token of the echo client says when it is made at this second: it is good for a
    /// year.
    pub fn echo_client(now: u64) -> (r: TokenClaims)
        requires
            now + YEAR <= u64::MAX,
        ensures
            r@ == (ClaimsView {
                username: "echo-client"@,
                email: "info@gigroom.com"@,
                exp: (now + YEAR) as u64,
            }),
    {
        TokenClaims {
            username: "echo-client".to_owned(),
            email: "info@gigroom.com".to_owned(),
            exp: now + YEAR,
        }
    }
}

/// Why the secrets are of no use.
#[derive(Debug, PartialEq, Eq, Structural)]
pub enum SecretsError {
    /// They are not a JSON object.
    Malformed,
    /// They hold no string under `jwt_key`.
    KeyMissing,
}

/// The key that the secrets hold for the tokens.
pub open spec fn jwt_key_of(json: Option<JsonView>) -> Result<Seq<char>, SecretsError> {
    match json {
        Some(JsonView::Object(fields)) => match lookup_str(fields, "jwt_key"@) {
            Some(key) => Ok(key),
            None => Err(SecretsError::KeyMissing),
        },
        _ => Err(SecretsError::Malformed),
    }
}

/// Takes the key for the tokens out of what the secrets were read as.
pub fn jwt_key_from(json: Option<Json>) -> (r: Result<String, SecretsError>)
    ensures
        match r {
            Ok(key) => jwt_key_of(opt_json_view(json)) == Ok::<_, SecretsError>(key@),
            Err(e) => jwt_key_of(opt_json_view(json)) == Err::<Seq<char>, _>(e),
        },
{
    match json {
        Some(json) => match json.into_object() {
            Some(fields) => match find_str(&fields, "jwt_key") {
                Some(key) => Ok(key),
                None => Err(SecretsError::KeyMissing),
            },
            None => Err(SecretsError::Malformed),
        },
        None => Err(SecretsError::Malformed),
    }
}

/// Reads the key for the tokens from the text of the secrets, a JSON object with a string under
/// `jwt_key`.
pub fn parse_secrets(secrets: &str) -> (r: Result<String, SecretsError>)
    ensures
        match r {
            Ok(key) => jwt_key_of(json_of_text(secrets@)) == Ok::<_, SecretsError>(key@),
            Err(e) => jwt_key_of(json_of_text(secrets@)) == Err::<Seq<char>, _>(e),
        },
{
    jwt_key_from(parse(secrets))
}

/// The key of the secrets is the string under `jwt_key` in a JSON object. Without such a string it
/// is missing, and what is no JSON object is no secrets.
pub proof fn law_jwt_key(json: JsonView, fields: Seq<(Seq<char>, JsonView)>, key: Seq<char>)
    ensures
        jwt_key_of(Some(JsonView::Object(fields))) == Ok::<_, SecretsError>(key) <==> lookup(
            fields,
            "jwt_key"@,
        ) == Some(JsonView::Str(key)),
        jwt_key_of(Some(JsonView::Object(fields))) != Err::<Seq<char>, _>(SecretsError::Malformed),
        !(json is Object) ==> jwt_key_of(Some(json)) == Err::<Seq<char>, _>(
            SecretsError::Malformed,
        ),
        jwt_key_of(None) == Err::<Seq<char>, _>(SecretsError::Malformed),
{
}

} // verus!
