use gigroom_signalling::server::identity::{
    accept_claims, identify, identity_from, parse_token, IdentifyPayload, TokenError,
};
use gigroom_signalling::server::{
    Client, ConnectionAction, ConnectionEvent, Message, Server, ServerError, WsMessage,
};
use gigroom_signalling::{jwt_key_from, parse_secrets, SecretsError, TokenClaims, YEAR};
use jsonwebtoken::{decode, encode, Algorithm, DecodingKey, EncodingKey, Header, Validation};

fn signed(claims: &str, key: &str) -> String {
    let value: serde_json::Value = serde_json::from_str(claims).unwrap();
    encode(&Header::default(), &value, &EncodingKey::from_secret(key.as_bytes())).unwrap()
}

/// A reader of payloads.
fn read_payload(text: &str) -> Option<IdentifyPayload> {
    let value: serde_json::Value = serde_json::from_str(text).ok()?;
    Some(IdentifyPayload {
        client_version: value.get("client_version")?.as_str()?.to_string(),
        token: value.get("token")?.as_str()?.to_string(),
    })
}

/// A reader of tokens that leaves the expiry to the library.
fn read_claims(token: &str, key: &str) -> Option<TokenClaims> {
    let mut validation = Validation::new(Algorithm::HS256);
    validation.validate_exp = false;
    let secret = DecodingKey::from_secret(key.as_bytes());
    let claims = decode::<serde_json::Value>(token, &secret, &validation).ok()?.claims;
    Some(TokenClaims {
        username: claims.get("username")?.as_str()?.to_string(),
        email: claims.get("email")?.as_str()?.to_string(),
        exp: claims.get("exp")?.as_u64()?,
    })
}

const CLAIMS: &str = r#"{"username":"thay tan","email":"t@example.com","exp":1000}"#;

#[test]
fn tokens_are_accepted_until_they_expire() {
    let token = signed(CLAIMS, "key");
    for now in [0, 999, 1000] {
        let claims = parse_token(&token, "key", now, read_claims).unwrap();
        assert_eq!(claims.username, "thay tan");
        assert_eq!(claims.email, "t@example.com");
        assert_eq!(claims.exp, 1000);
    }
    let late = parse_token(&token, "key", 1001, read_claims);
    assert_eq!(late.unwrap_err(), TokenError::Expired);
}

#[test]
fn tokens_of_others_are_refused() {
    let token = signed(CLAIMS, "key");
    for (token, key) in [(token.as_str(), "another key"), ("", "key"), ("a.b.c", "key")] {
        let refused = parse_token(token, key, 0, read_claims);
        assert_eq!(refused.unwrap_err(), TokenError::Invalid);
    }
}

#[test]
fn readers_are_handed_what_is_to_be_read() {
    let mut s = Server::new("the key".to_string());
    s.connect(1, Client { tx: 5 });
    let welcome = s.identify_client(
        "IDENTIFY a payload",
        1,
        7,
        |text: &str| {
            assert_eq!(text, "a payload");
            Some(IdentifyPayload { client_version: "9".to_string(), token: "t".to_string() })
        },
        |token: &str, key: &str| {
            assert_eq!((token, key), ("t", "the key"));
            Some(TokenClaims { username: "u".to_string(), email: "e".to_string(), exp: 7 })
        },
    );
    assert_eq!(welcome.unwrap().user_id, "u");
    assert_eq!(s.state.clients.user_clients.get("u").unwrap().get(&1).unwrap().version, "9");
}

#[test]
fn the_echo_client_is_good_for_a_year() {
    let claims = TokenClaims::echo_client(1_700_000_000);
    assert_eq!(claims.username, "echo-client");
    assert_eq!(claims.email, "info@gigroom.com");
    assert_eq!(claims.exp, 1_731_536_000);
    assert_eq!(YEAR, 365 * 24 * 3600);
    let good = accept_claims(Some(TokenClaims::echo_client(5)), 5 + YEAR);
    assert_eq!(good.unwrap().username, "echo-client");
    let late = accept_claims(Some(TokenClaims::echo_client(5)), 6 + YEAR);
    assert_eq!(late.unwrap_err(), TokenError::Expired);
    assert_eq!(accept_claims(None, 0).unwrap_err(), TokenError::Invalid);
}

#[test]
fn plain_names_of_any_characters() {
    for name in ["tlowry", "Scott Pilgrim", "", " ", "J\u{fc}rgen", "a-b", "{\"token\":\"x\"}", "42"] {
        let msg = format!("IDENTIFY {}", name);
        let identity = identify(&msg, "key", 0, read_payload, read_claims).unwrap();
        assert_eq!(identity.user_id, name);
        assert_eq!(identity.version, "0.2.0");
    }
    for msg in ["", "IDENTIFY", "identify tlowry", " IDENTIFY tlowry", "IDENTIFY\ttlowry", "tlowry"] {
        assert!(identify(msg, "key", 0, read_payload, read_claims).is_none());
    }
}

#[test]
fn names_from_tokens() {
    let token = signed(CLAIMS, "key");
    let msg = format!(r#"IDENTIFY {{"client_version":"0.3.1","token":"{}"}}"#, token);
    let identity = identify(&msg, "key", 1000, read_payload, read_claims).unwrap();
    assert_eq!(identity.user_id, "thay tan");
    assert_eq!(identity.version, "0.3.1");
    assert!(identify(&msg, "key", 1001, read_payload, read_claims).is_none());
    assert!(identify(&msg, "another key", 1000, read_payload, read_claims).is_none());
}

#[test]
fn identifying_moves_a_client() {
    let mut s = Server::new("key".to_string());
    let client = 0x2e73ab52_b490_4cf0_a93a_6729645f13c4;
    s.connect(client, Client { tx: 5 });
    assert!(s.state.clients.connected.contains_key(&client));
    let welcome = s.identify_client("IDENTIFY MahimaV", client, 0, read_payload, read_claims).unwrap();
    assert_eq!(welcome.user_id, "MahimaV");
    assert_eq!(welcome.reply, "IDENTIFIED 2e73ab52-b490-4cf0-a93a-6729645f13c4");
    assert!(s.state.clients.connected.is_empty());
    assert_eq!(s.state.clients.identified.get(&client).unwrap().0, "MahimaV");
    let infos = s.state.clients.user_clients.get("MahimaV").unwrap();
    assert_eq!(infos.get(&client).unwrap().version, "0.2.0");
    assert!(s.identify_client("IDENTIFY MahimaV", client, 0, read_payload, read_claims).is_none());
    assert_eq!(s.state.clients.identified.len(), 1);
}

#[test]
fn a_client_that_fails_to_identify_is_forgotten() {
    let mut s = Server::new("key".to_string());
    s.connect(1, Client { tx: 5 });
    s.connect(2, Client { tx: 6 });
    assert!(s.identify_client("hello", 1, 0, read_payload, read_claims).is_none());
    assert!(s.identify_client("IDENTIFY x", 3, 0, read_payload, read_claims).is_none());
    assert!(!s.state.clients.connected.contains_key(&1));
    assert!(s.state.clients.connected.contains_key(&2));
    assert!(s.state.clients.identified.is_empty());
    assert!(s.state.clients.user_clients.is_empty());
}

#[test]
fn removing_a_client_leaves_the_others() {
    let mut s = Server::new("key".to_string());
    for (id, user) in [(1, "a"), (2, "a"), (3, "b")] {
        s.connect(id, Client { tx: 5 });
        s.identify_client(&format!("IDENTIFY {}", user), id, 0, read_payload, read_claims).unwrap();
    }
    s.connect(4, Client { tx: 6 });
    s.remove_client(1);
    assert_eq!(s.state.clients.user_clients.get("a").unwrap().len(), 1);
    assert_eq!(s.state.clients.identified.len(), 2);
    s.remove_client(2);
    assert!(!s.state.clients.user_clients.contains_key("a"));
    assert!(s.state.clients.user_clients.contains_key("b"));
    s.remove_client(4);
    assert!(s.state.clients.connected.is_empty());
    s.remove_client(4);
    assert_eq!(s.state.clients.identified.len(), 1);
}

fn incoming(message: Message) -> ConnectionEvent {
    ConnectionEvent::Message(WsMessage::Incoming(message))
}

#[test]
fn before_a_client_has_identified() {
    let first = Server::accept_async(false, incoming(Message::Text("IDENTIFY a".to_string())));
    assert!(matches!(first, ConnectionAction::Identify(text) if text == "IDENTIFY a"));
    for event in [
        incoming(Message::Ping(vec![1])),
        incoming(Message::Pong(vec![1])),
        incoming(Message::Close),
        incoming(Message::Other),
        ConnectionEvent::Message(WsMessage::Outgoing("x".to_string())),
        ConnectionEvent::Failed,
        ConnectionEvent::Ended,
    ] {
        assert!(matches!(Server::accept_async(false, event), ConnectionAction::Disconnect));
    }
}

#[test]
fn after_a_client_has_identified() {
    let text = Server::accept_async(true, incoming(Message::Text("[]".to_string())));
    assert!(matches!(text, ConnectionAction::Forward(text) if text == "[]"));
    let out = Server::accept_async(
        true,
        ConnectionEvent::Message(WsMessage::Outgoing("x".to_string())),
    );
    assert!(matches!(out, ConnectionAction::SendText(text) if text == "x"));
    let ping = Server::accept_async(true, incoming(Message::Ping(vec![1, 2])));
    assert!(matches!(ping, ConnectionAction::SendPong(payload) if payload == vec![1, 2]));
    for message in [Message::Pong(vec![]), Message::Other] {
        let action = Server::accept_async(true, incoming(message));
        assert!(matches!(action, ConnectionAction::Ignore));
    }
    for event in [incoming(Message::Close), ConnectionEvent::Failed, ConnectionEvent::Ended] {
        assert!(matches!(Server::accept_async(true, event), ConnectionAction::Disconnect));
    }
}

#[test]
fn secrets() {
    assert_eq!(parse_secrets(r#"{"jwt_key":"sA","more":1}"#), Ok("sA".to_string()));
    assert_eq!(parse_secrets(r#"{"jwt_key":5}"#), Err(SecretsError::KeyMissing));
    assert_eq!(parse_secrets("{}"), Err(SecretsError::KeyMissing));
    assert_eq!(parse_secrets("[]"), Err(SecretsError::Malformed));
    assert_eq!(parse_secrets("jwt_key"), Err(SecretsError::Malformed));
    assert_eq!(jwt_key_from(None), Err(SecretsError::Malformed));
}

#[test]
fn errors_in_words() {
    let errors = [
        (ServerError::TLSHandshake("x".to_string()), "error during TLS handshake x"),
        (ServerError::TLSHandshakeTimeout("y".to_string()), "timeout during TLS handshake y"),
        (ServerError::WSHandshake("z".to_string()), "error during WS handshake z"),
    ];
    for (error, words) in errors.iter() {
        assert_eq!(error.describe(), *words);
    }
}

#[test]
fn identities_from_payload_and_claims() {
    let payload = || {
        Some(IdentifyPayload { client_version: "0.3.1".to_string(), token: "t".to_string() })
    };
    let identity = identity_from("x", payload(), Ok(TokenClaims::echo_client(0))).unwrap();
    assert_eq!((identity.user_id.as_str(), identity.version.as_str()), ("echo-client", "0.3.1"));
    assert!(identity_from("x", payload(), Err(TokenError::Expired)).is_none());
    assert!(identity_from("x", payload(), Err(TokenError::Invalid)).is_none());
    let plain = identity_from("x", None, Err(TokenError::Invalid)).unwrap();
    assert_eq!((plain.user_id.as_str(), plain.version.as_str()), ("x", "0.2.0"));
}
