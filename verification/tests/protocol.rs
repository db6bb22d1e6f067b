use gigroom_signalling::server::handler::Handler;
use gigroom_signalling::server::identity::IdentifyPayload;
use gigroom_signalling::server::{Client, Server};
use gigroom_signalling::TokenClaims;

const ROOM: &str = "dca2c32c-caa6-4ed6-8b86-1c0cd7339a4c";
const OTHER_ROOM: &str = "5bc7eb2a-3d66-4634-ba3c-4e4b145aa2ca";

fn no_payload(_: &str) -> Option<IdentifyPayload> {
    None
}

fn no_claims(_: &str, _: &str) -> Option<TokenClaims> {
    None
}

/// A server with one client for each of these users. The clients are numbered from 1, and the
/// channel of a client is ten times its number.
fn server_with(users: &[&str]) -> Server {
    let mut server = Server::new("key".to_string());
    for (i, user) in users.iter().enumerate() {
        let id = i as u128 + 1;
        server.connect(id, Client { tx: 10 * (i as u64 + 1) });
        let welcome = server.identify_client(&format!("IDENTIFY {}", user), id, 0, no_payload, no_claims).unwrap();
        assert_eq!(welcome.user_id, *user);
    }
    server
}

fn id(n: u128) -> String {
    format!("00000000-0000-0000-0000-{:012x}", n)
}

fn ask(server: &mut Server, client: u128, user: &str, text: &str) -> (String, Vec<(String, u64)>) {
    let (reply, requests) = Handler::cmd_loop(Some(text), client, user, &mut server.state);
    (reply.unwrap(), requests)
}

fn request(room: Option<&str>, args: &str) -> String {
    match room {
        Some(room) => format!(
            r#"[{{"type":"request","request_id":"7","room_id":"{}","args":{}}}]"#,
            room, args
        ),
        None => format!(r#"[{{"type":"request","request_id":"7","args":{}}}]"#, args),
    }
}

fn room(
    server: &mut Server,
    client: u128,
    user: &str,
    room: &str,
    args: &str,
) -> (String, Vec<(String, u64)>) {
    ask(server, client, user, &request(Some(room), args))
}

fn answer(code: u16, args: &str) -> String {
    format!(
        r#"[{{"args":{},"request_id":"7","status_code":{},"type":"response"}}]"#,
        args, code
    )
}

fn event(room: &str, args: &str) -> String {
    format!(
        r#"[{{"args":{},"request_id":"","room_id":"{}","type":"request"}}]"#,
        args, room
    )
}

#[test]
fn create_join_and_leave() {
    let mut s = server_with(&["tlowry", "Lao88"]);

    let (reply, sent) = room(&mut s, 1, "tlowry", ROOM, r#"["room","create","Violin Ensemble"]"#);
    assert_eq!(reply, answer(200, "[]"));
    let created = event(
        ROOM,
        &format!(
            r#"["room","created",{{"active":false,"creator":"tlowry","room_id":"{}","room_name":"Violin Ensemble"}}]"#,
            ROOM
        ),
    );
    assert_eq!(sent, vec![(created.clone(), 10)]);

    let (reply, sent) = room(
        &mut s,
        1,
        "tlowry",
        ROOM,
        r#"["room","set","allowed-users","Lao88","Lao88",5]"#,
    );
    assert_eq!(reply, answer(200, "[]"));
    assert_eq!(sent, vec![(created, 20)]);

    let (reply, sent) = room(&mut s, 1, "tlowry", ROOM, r#"["room","get","allowed-users"]"#);
    assert_eq!(reply, answer(200, r#"["Lao88","tlowry"]"#));
    assert_eq!(sent, vec![]);

    let (reply, sent) = room(&mut s, 1, "tlowry", ROOM, r#"["room","join"]"#);
    assert_eq!(reply, answer(200, "[]"));
    let active = event(ROOM, r#"["room","active"]"#);
    assert_eq!(sent, vec![(active.clone(), 20), (active, 10)]);

    let (reply, sent) = room(&mut s, 2, "Lao88", ROOM, r#"["room","join"]"#);
    assert_eq!(
        reply,
        answer(200, &format!(r#"[{{"client_id":"{}","user_id":"tlowry"}}]"#, id(1)))
    );
    let joined = event(ROOM, &format!(r#"["room","joined","{}","Lao88"]"#, id(2)));
    assert_eq!(sent, vec![(joined, 10)]);

    let (reply, sent) = room(&mut s, 2, "Lao88", ROOM, r#"["room","leave"]"#);
    assert_eq!(reply, answer(200, "[]"));
    let left = event(ROOM, &format!(r#"["room","left","{}","Lao88"]"#, id(2)));
    assert_eq!(sent, vec![(left, 10)]);

    let (reply, sent) = room(&mut s, 1, "tlowry", ROOM, r#"["room","leave"]"#);
    assert_eq!(reply, answer(200, "[]"));
    let destroyed = event(ROOM, r#"["room","destroyed"]"#);
    assert_eq!(sent, vec![(destroyed.clone(), 20), (destroyed, 10)]);
    assert!(s.state.rooms.is_empty());
}

#[test]
fn batch_with_conflicts() {
    let mut s = server_with(&["tlowry"]);
    let text = format!(
        "[{},{},{}]",
        one("9dcab9bd", ROOM, r#"["room","create","Violin Ensemble"]"#),
        one("b4fd1dcz", OTHER_ROOM, r#"["room","create","Violin Ensemble"]"#),
        one("83fd015c", ROOM, r#"["room","create","Violin Ensemble 2"]"#),
    );
    let (reply, sent) = ask(&mut s, 1, "tlowry", &text);
    assert_eq!(
        reply,
        format!(
            "[{},{},{}]",
            response("9dcab9bd", 200, "[]"),
            response("b4fd1dcz", 409, r#"["Room already exists"]"#),
            response("83fd015c", 409, r#"["Room ID already in use"]"#),
        )
    );
    assert_eq!(sent.len(), 1);
    assert_eq!(s.state.rooms.len(), 1);
}

fn one(request_id: &str, room: &str, args: &str) -> String {
    format!(
        r#"{{"type":"request","request_id":"{}","room_id":"{}","args":{}}}"#,
        request_id, room, args
    )
}

fn response(request_id: &str, code: u16, args: &str) -> String {
    format!(
        r#"{{"args":{},"request_id":"{}","status_code":{},"type":"response"}}"#,
        args, request_id, code
    )
}

#[test]
fn batch_with_several_rooms() {
    let mut s = server_with(&["tlowry", "DambisaM"]);
    let flute = "eb302e64-c76e-4fc3-b4c1-34f3effdb841";
    let text = format!(
        "[{},{},{},{}]",
        one("9dcab9bd", ROOM, r#"["room","create","Violin Ensemble"]"#),
        one("488a8184", ROOM, r#"["room","set","allowed-users","Lao88","DambisaM"]"#),
        one("117805b5", flute, r#"["room","create","Flute Practice"]"#),
        one("d2790710", flute, r#"["room","join"]"#),
    );
    let (reply, sent) = ask(&mut s, 1, "tlowry", &text);
    assert_eq!(
        reply,
        format!(
            "[{},{},{},{}]",
            response("9dcab9bd", 200, "[]"),
            response("488a8184", 200, "[]"),
            response("117805b5", 200, "[]"),
            response("d2790710", 200, "[]"),
        )
    );
    let channels: Vec<u64> = sent.iter().map(|m| m.1).collect();
    assert_eq!(channels, vec![10, 20, 10, 10]);
}

#[test]
fn splitting_a_batch_changes_nothing() {
    let requests = [
        one("1", ROOM, r#"["room","create","a"]"#),
        one("2", ROOM, r#"["room","set","allowed-users","Lao88"]"#),
        one("3", ROOM, r#"["room","join"]"#),
    ];
    let mut whole = server_with(&["tlowry", "Lao88"]);
    let (reply, sent) = ask(&mut whole, 1, "tlowry", &format!("[{}]", requests.join(",")));
    let mut split = server_with(&["tlowry", "Lao88"]);
    let mut replies = Vec::new();
    let mut all = Vec::new();
    for request in requests.iter() {
        let (reply, sent) = ask(&mut split, 1, "tlowry", &format!("[{}]", request));
        replies.push(reply[1..reply.len() - 1].to_string());
        all.extend(sent);
    }
    assert_eq!(reply, format!("[{}]", replies.join(",")));
    assert_eq!(sent, all);
}

#[test]
fn an_empty_batch_has_no_responses() {
    let mut s = server_with(&["tlowry"]);
    assert_eq!(ask(&mut s, 1, "tlowry", "[]"), ("[]".to_string(), vec![]));
}

#[test]
fn what_is_no_batch_is_a_bad_request() {
    let mut s = server_with(&["tlowry"]);
    let bad = format!("[{}]", response("", 400, r#"["Bad Request"]"#));
    for text in ["", "nonsense", "{}", "[1]", "[{},null]", "[{}", "\"room\""] {
        assert_eq!(ask(&mut s, 1, "tlowry", text), (bad.clone(), vec![]));
    }
}

#[test]
fn malformed_requests() {
    let mut s = server_with(&["tlowry"]);
    let cases = [
        (r#"{}"#, response("", 400, r#"["Bad Request"]"#)),
        (
            r#"{"request_id":"a","args":["room"]}"#,
            response("a", 400, r#"["Bad Request"]"#),
        ),
        (
            r#"{"type":"response","request_id":"b","args":["room"]}"#,
            response("b", 400, r#"["Bad Request"]"#),
        ),
        (
            r#"{"type":"request","request_id":"c","args":"room"}"#,
            response("c", 400, r#"["Bad Request"]"#),
        ),
        (
            r#"{"type":"request","request_id":4,"args":["room","list"]}"#,
            response("", 400, r#"["Bad Request"]"#),
        ),
        (
            r#"{"type":"request","request_id":"d","args":[]}"#,
            response("d", 400, r#"["Empty args"]"#),
        ),
        (
            r#"{"type":"request","request_id":"e","args":["rooms"]}"#,
            response("e", 400, r#"["Incorrect args"]"#),
        ),
        (
            r#"{"type":"request","request_id":"f","args":[7]}"#,
            response("f", 400, r#"["Incorrect args"]"#),
        ),
        (
            r#"{"type":"request","request_id":"g","args":["room"]}"#,
            response("g", 400, r#"["room_id not specified"]"#),
        ),
        (
            r#"{"type":"request","request_id":"h","args":["room",1]}"#,
            response("h", 400, r#"["room_id not specified"]"#),
        ),
        (
            r#"{"type":"request","request_id":"i","args":["room","join"]}"#,
            response("i", 400, r#"["room_id not specified"]"#),
        ),
        (
            r#"{"type":"request","request_id":"j","room_id":"j","args":["room","join"]}"#,
            response("j", 400, r#"["Bad room_id, must be UUID4"]"#),
        ),
        (
            r#"{"type":"request","request_id":"k","room_id":9,"args":["room","list"]}"#,
            response("k", 200, "[]"),
        ),
    ];
    for (text, expected) in cases.iter() {
        let (reply, sent) = ask(&mut s, 1, "tlowry", &format!("[{}]", text));
        assert_eq!(reply, format!("[{}]", expected));
        assert_eq!(sent, vec![]);
    }
}

#[test]
fn the_last_of_several_fields_counts() {
    let mut s = server_with(&["tlowry"]);
    let text = r#"[{"type":"x","request_id":"1","args":["room","list"],"type":"request"}]"#;
    assert_eq!(
        ask(&mut s, 1, "tlowry", text),
        (format!("[{}]", response("1", 200, "[]")), vec![])
    );
}

#[test]
fn room_ids_in_every_form() {
    let forms = [
        "dca2c32ccaa64ed68b861c0cd7339a4c",
        "DCA2C32C-CAA6-4ED6-8B86-1C0CD7339A4C",
        "{dca2c32c-caa6-4ed6-8b86-1c0cd7339a4c}",
        "urn:uuid:dca2c32c-caa6-4ed6-8b86-1c0cd7339a4c",
        "URN:UUID:dca2c32c-caa6-4ed6-8b86-1c0cd7339a4c",
    ];
    for form in forms.iter() {
        let mut s = server_with(&["tlowry"]);
        let (reply, _) = room(&mut s, 1, "tlowry", form, r#"["room","create","a"]"#);
        assert_eq!(reply, answer(200, "[]"));
        let (reply, _) = ask(&mut s, 1, "tlowry", &request(None, r#"["room","list"]"#));
        let details = format!(
            r#"[{{"active":false,"creator":"tlowry","room_id":"{}","room_name":"a"}}]"#,
            ROOM
        );
        assert_eq!(reply, answer(200, &details));
    }
    let not_ids = [
        "",
        "dca2c32ccaa64ed68b861c0cd7339a4",
        "dca2c32ccaa64ed68b861c0cd7339a4g",
        "dca2c32c-caa6-4ed6-8b86-1c0cd7339a4",
        "dca2c32c_caa6_4ed6_8b86_1c0cd7339a4c",
        "{dca2c32ccaa64ed68b861c0cd7339a4c}",
        "[dca2c32c-caa6-4ed6-8b86-1c0cd7339a4c]",
        "urn:guid:dca2c32c-caa6-4ed6-8b86-1c0cd7339a4c",
    ];
    for form in not_ids.iter() {
        let mut s = server_with(&["tlowry"]);
        let (reply, _) = room(&mut s, 1, "tlowry", form, r#"["room","create","a"]"#);
        assert_eq!(reply, answer(400, r#"["Bad room_id, must be UUID4"]"#));
    }
}

#[test]
fn refusals() {
    let mut s = server_with(&["tlowry", "Lao88"]);
    room(&mut s, 1, "tlowry", OTHER_ROOM, r#"["room","create","a"]"#);
    let cases = [
        (1, "tlowry", ROOM, r#"["room","create"]"#, 400, "Room name missing"),
        (1, "tlowry", ROOM, r#"["room","create",5]"#, 400, "Room name missing"),
        (1, "tlowry", ROOM, r#"["room","create","a"]"#, 409, "Room already exists"),
        (2, "Lao88", OTHER_ROOM, r#"["room","create","a"]"#, 409, "Room ID already in use"),
        (1, "tlowry", ROOM, r#"["room","destroy"]"#, 404, "No such room"),
        (2, "Lao88", OTHER_ROOM, r#"["room","destroy"]"#, 403, "Forbidden"),
        (1, "tlowry", ROOM, r#"["room","get","allowed-users"]"#, 404, "No such room"),
        (2, "Lao88", OTHER_ROOM, r#"["room","get","allowed-users"]"#, 403, "room get not allowed"),
        (1, "tlowry", OTHER_ROOM, r#"["room","get","x"]"#, 400, "Unknown room get argument"),
        (1, "tlowry", OTHER_ROOM, r#"["room","get"]"#, 400, "Missing room get argument"),
        (1, "tlowry", ROOM, r#"["room","set","allowed-users"]"#, 404, "No such room"),
        (2, "Lao88", OTHER_ROOM, r#"["room","set","allowed-users"]"#, 403, "room set not allowed"),
        (1, "tlowry", OTHER_ROOM, r#"["room","set","x"]"#, 400, "Unknown room set argument"),
        (1, "tlowry", OTHER_ROOM, r#"["room","set"]"#, 400, "Missing room set argument"),
        (1, "tlowry", ROOM, r#"["room","join"]"#, 404, "No such room"),
        (2, "Lao88", OTHER_ROOM, r#"["room","join"]"#, 403, "Forbidden"),
        (1, "tlowry", ROOM, r#"["room","leave"]"#, 404, "No such room"),
        (1, "tlowry", OTHER_ROOM, r#"["room","leave"]"#, 400, "Not a member of room"),
        (1, "tlowry", ROOM, r#"["room","message",1,[]]"#, 404, "No such room"),
        (1, "tlowry", OTHER_ROOM, r#"["room","message",1,[]]"#, 400, "Not a room member"),
        (1, "tlowry", OTHER_ROOM, r#"["room","message",1]"#, 400, "Bad request"),
        (1, "tlowry", OTHER_ROOM, r#"["room","message",1,"x"]"#, 400, "Bad request"),
        (1, "tlowry", OTHER_ROOM, r#"["room","message"]"#, 400, "Bad request"),
        (1, "tlowry", OTHER_ROOM, r#"["room","list"]"#, 400, "Invalid room argument"),
        (1, "tlowry", OTHER_ROOM, r#"["room"]"#, 400, "Invalid room argument"),
    ];
    for (client, user, id, args, code, reason) in cases.iter() {
        let (reply, sent) = room(&mut s, *client, user, id, args);
        assert_eq!(reply, answer(*code, &format!("[\"{}\"]", reason)));
        assert_eq!(sent, vec![]);
        assert_eq!(s.state.rooms.len(), 1);
    }
    room(&mut s, 1, "tlowry", OTHER_ROOM, r#"["room","join"]"#);
    let (reply, sent) = room(&mut s, 1, "tlowry", OTHER_ROOM, r#"["room","join"]"#);
    assert_eq!(reply, answer(409, r#"["Already in the room"]"#));
    assert_eq!(sent, vec![]);
}

#[test]
fn destroy_tells_everyone_allowed() {
    let mut s = server_with(&["tlowry", "Lao88", "Taiki97"]);
    room(&mut s, 1, "tlowry", ROOM, r#"["room","create","a"]"#);
    room(&mut s, 1, "tlowry", ROOM, r#"["room","set","allowed-users","Lao88"]"#);
    room(&mut s, 2, "Lao88", ROOM, r#"["room","join"]"#);
    let (reply, sent) = room(&mut s, 1, "tlowry", ROOM, r#"["room","destroy"]"#);
    assert_eq!(reply, answer(200, "[]"));
    let destroyed = event(ROOM, r#"["room","destroyed"]"#);
    assert_eq!(sent, vec![(destroyed.clone(), 20), (destroyed, 10)]);
    assert!(s.state.rooms.is_empty());
}

#[test]
fn list_shows_the_rooms_a_user_may_join() {
    let mut s = server_with(&["tlowry", "Lao88"]);
    room(&mut s, 1, "tlowry", ROOM, r#"["room","create","a"]"#);
    room(&mut s, 1, "tlowry", OTHER_ROOM, r#"["room","create","b"]"#);
    room(&mut s, 1, "tlowry", ROOM, r#"["room","set","allowed-users","Lao88"]"#);
    room(&mut s, 1, "tlowry", ROOM, r#"["room","join"]"#);
    let list = request(None, r#"["room","list"]"#);
    let a = format!(
        r#"{{"active":true,"creator":"tlowry","room_id":"{}","room_name":"a"}}"#,
        ROOM
    );
    let b = format!(
        r#"{{"active":false,"creator":"tlowry","room_id":"{}","room_name":"b"}}"#,
        OTHER_ROOM
    );
    assert_eq!(ask(&mut s, 2, "Lao88", &list).0, answer(200, &format!("[{}]", a)));
    assert_eq!(ask(&mut s, 1, "tlowry", &list).0, answer(200, &format!("[{},{}]", b, a)));
    assert_eq!(ask(&mut s, 9, "nobody", &list).0, answer(200, "[]"));
}

#[test]
fn message_reaches_the_members_it_names() {
    let mut s = server_with(&["tlowry", "Lao88", "Taiki97", "DambisaM"]);
    room(&mut s, 1, "tlowry", ROOM, r#"["room","create","a"]"#);
    room(
        &mut s,
        1,
        "tlowry",
        ROOM,
        r#"["room","set","allowed-users","Lao88","Taiki97","DambisaM"]"#,
    );
    room(&mut s, 1, "tlowry", ROOM, r#"["room","join"]"#);
    room(&mut s, 2, "Lao88", ROOM, r#"["room","join"]"#);
    room(&mut s, 3, "Taiki97", ROOM, r#"["room","join"]"#);
    let args = format!(
        r#"["room","message",{{"sdp":{{"type":"offer","n":[1,-2.5,1e3,null,true]}}}},["{}","{}","{}","{}",5]]"#,
        id(3),
        id(2),
        id(2),
        id(4)
    );
    let (reply, sent) = room(&mut s, 1, "tlowry", ROOM, &args);
    assert_eq!(reply, answer(200, "[]"));
    let message = event(
        ROOM,
        &format!(
            r#"["room","message",{{"sdp":{{"n":[1,-2.5,1000.0,null,true],"type":"offer"}}}},"{}"]"#,
            id(1)
        ),
    );
    assert_eq!(sent, vec![(message.clone(), 20), (message, 30)]);
}

#[test]
fn disallowed_users_are_put_out() {
    let mut s = server_with(&["tlowry", "Lao88", "Taiki97"]);
    s.connect(4, Client { tx: 40 });
    assert_eq!(s.identify_client("IDENTIFY Lao88", 4, 0, no_payload, no_claims).unwrap().user_id, "Lao88");
    room(&mut s, 1, "tlowry", ROOM, r#"["room","create","a"]"#);
    room(&mut s, 1, "tlowry", ROOM, r#"["room","set","allowed-users","Lao88"]"#);
    room(&mut s, 1, "tlowry", ROOM, r#"["room","join"]"#);
    room(&mut s, 2, "Lao88", ROOM, r#"["room","join"]"#);
    room(&mut s, 4, "Lao88", ROOM, r#"["room","join"]"#);
    let (reply, sent) = room(
        &mut s,
        1,
        "tlowry",
        ROOM,
        r#"["room","set","allowed-users","Taiki97","tlowry"]"#,
    );
    assert_eq!(reply, answer(200, "[]"));
    let created = event(
        ROOM,
        &format!(
            r#"["room","created",{{"active":true,"creator":"tlowry","room_id":"{}","room_name":"a"}}]"#,
            ROOM
        ),
    );
    let left = |n: u128| event(ROOM, &format!(r#"["room","left","{}","Lao88"]"#, id(n)));
    let destroyed = event(ROOM, r#"["room","destroyed"]"#);
    assert_eq!(
        sent,
        vec![
            (created, 30),
            (left(2), 10),
            (left(4), 10),
            (destroyed.clone(), 20),
            (destroyed, 40),
        ]
    );
    let (reply, _) = room(&mut s, 1, "tlowry", ROOM, r#"["room","get","allowed-users"]"#);
    assert_eq!(reply, answer(200, r#"["Taiki97","tlowry"]"#));
    let (reply, _) = room(&mut s, 2, "Lao88", ROOM, r#"["room","join"]"#);
    assert_eq!(reply, answer(403, r#"["Forbidden"]"#));
}

#[test]
fn a_room_that_is_emptied_by_its_list_ends() {
    let mut s = server_with(&["tlowry", "Lao88"]);
    room(&mut s, 1, "tlowry", ROOM, r#"["room","create","a"]"#);
    room(&mut s, 1, "tlowry", ROOM, r#"["room","set","allowed-users","Lao88"]"#);
    room(&mut s, 2, "Lao88", ROOM, r#"["room","join"]"#);
    let (reply, sent) = room(&mut s, 1, "tlowry", ROOM, r#"["room","set","allowed-users"]"#);
    assert_eq!(reply, answer(200, "[]"));
    let destroyed = event(ROOM, r#"["room","destroyed"]"#);
    assert_eq!(sent, vec![(destroyed.clone(), 20), (destroyed, 10)]);
    assert!(s.state.rooms.is_empty());
}

#[test]
fn a_room_that_nobody_was_in_outlives_its_list() {
    let mut s = server_with(&["tlowry", "Lao88"]);
    room(&mut s, 1, "tlowry", ROOM, r#"["room","create","a"]"#);
    room(&mut s, 1, "tlowry", ROOM, r#"["room","set","allowed-users","Lao88"]"#);
    let (_, sent) = room(&mut s, 1, "tlowry", ROOM, r#"["room","set","allowed-users"]"#);
    assert_eq!(sent, vec![(event(ROOM, r#"["room","destroyed"]"#), 20)]);
    assert_eq!(s.state.rooms.len(), 1);
}

#[test]
fn a_client_that_goes_leaves_all_rooms() {
    let mut s = server_with(&["tlowry", "Lao88"]);
    room(&mut s, 1, "tlowry", ROOM, r#"["room","create","a"]"#);
    room(&mut s, 1, "tlowry", ROOM, r#"["room","set","allowed-users","Lao88"]"#);
    room(&mut s, 1, "tlowry", ROOM, r#"["room","join"]"#);
    room(&mut s, 2, "Lao88", ROOM, r#"["room","join"]"#);
    room(&mut s, 1, "tlowry", OTHER_ROOM, r#"["room","create","b"]"#);
    room(&mut s, 1, "tlowry", OTHER_ROOM, r#"["room","set","allowed-users","Lao88"]"#);
    room(&mut s, 1, "tlowry", OTHER_ROOM, r#"["room","join"]"#);
    s.remove_client(1);
    let (reply, sent) = Handler::cmd_loop(None, 1, "tlowry", &mut s.state);
    assert_eq!(reply, None);
    let left = event(ROOM, &format!(r#"["room","left","{}","tlowry"]"#, id(1)));
    let destroyed = event(OTHER_ROOM, r#"["room","destroyed"]"#);
    assert_eq!(sent, vec![(left, 20), (destroyed, 20)]);
    assert_eq!(s.state.rooms.len(), 1);
    let list = request(None, r#"["room","list"]"#);
    assert_eq!(
        ask(&mut s, 2, "Lao88", &list).0,
        answer(
            200,
            &format!(
                r#"[{{"active":true,"creator":"tlowry","room_id":"{}","room_name":"a"}}]"#,
                ROOM
            )
        )
    );
}

#[test]
fn leaving_and_joining_again() {
    let mut s = server_with(&["tlowry", "Lao88"]);
    room(&mut s, 1, "tlowry", ROOM, r#"["room","create","a"]"#);
    room(&mut s, 1, "tlowry", ROOM, r#"["room","set","allowed-users","Lao88"]"#);
    room(&mut s, 1, "tlowry", ROOM, r#"["room","join"]"#);
    for _ in 0..2 {
        let (reply, _) = room(&mut s, 2, "Lao88", ROOM, r#"["room","join"]"#);
        assert_eq!(
            reply,
            answer(200, &format!(r#"[{{"client_id":"{}","user_id":"tlowry"}}]"#, id(1)))
        );
        let (reply, _) = room(&mut s, 2, "Lao88", ROOM, r#"["room","leave"]"#);
        assert_eq!(reply, answer(200, "[]"));
    }
}

#[test]
fn members_that_are_forgotten_are_not_told() {
    let mut s = server_with(&["tlowry", "Lao88"]);
    room(&mut s, 1, "tlowry", ROOM, r#"["room","create","a"]"#);
    room(&mut s, 1, "tlowry", ROOM, r#"["room","set","allowed-users","Lao88"]"#);
    room(&mut s, 1, "tlowry", ROOM, r#"["room","join"]"#);
    s.remove_client(1);
    let (reply, sent) = room(&mut s, 2, "Lao88", ROOM, r#"["room","join"]"#);
    assert_eq!(reply, answer(200, "[]"));
    assert_eq!(sent, vec![]);
}

#[test]
fn other_rooms_are_left_alone() {
    let mut s = server_with(&["tlowry", "Lao88"]);
    room(&mut s, 1, "tlowry", ROOM, r#"["room","create","a"]"#);
    room(&mut s, 2, "Lao88", OTHER_ROOM, r#"["room","create","a"]"#);
    room(&mut s, 1, "tlowry", ROOM, r#"["room","destroy"]"#);
    let list = request(None, r#"["room","list"]"#);
    assert_eq!(ask(&mut s, 1, "tlowry", &list).0, answer(200, "[]"));
    assert_eq!(
        ask(&mut s, 2, "Lao88", &list).0,
        answer(
            200,
            &format!(
                r#"[{{"active":false,"creator":"Lao88","room_id":"{}","room_name":"a"}}]"#,
                OTHER_ROOM
            )
        )
    );
}

#[test]
fn error_responses() {
    let cases: [(Option<&str>, Option<u16>, Option<&str>, String); 6] = [
        (Some("1"), Some(403), Some("no"), response("1", 403, r#"["no"]"#)),
        (Some("1"), None, Some("no"), response("1", 400, r#"["no"]"#)),
        (None, Some(404), None, response("", 404, r#"["Not Found"]"#)),
        (None, Some(409), None, response("", 409, r#"["Conflict"]"#)),
        (Some("2"), Some(599), None, response("2", 599, r#"["Bad request"]"#)),
        (None, None, None, response("", 400, r#"["Bad Request"]"#)),
    ];
    for (request_id, code, text, expected) in cases.iter() {
        assert_eq!(
            Handler::error_response(*request_id, *code, *text).to_text(),
            *expected
        );
    }
}

#[test]
fn requests_without_a_room() {
    assert_eq!(
        Handler::make_request(None, vec![]).to_text(),
        r#"[{"args":[],"request_id":"","type":"request"}]"#
    );
    assert_eq!(
        Handler::make_request(Some(u128::MAX), vec![]).to_text(),
        event("ffffffff-ffff-ffff-ffff-ffffffffffff", "[]")
    );
    assert_eq!(
        Handler::make_response(200, None, None).to_text(),
        response("", 200, "[]")
    );
}

#[test]
fn a_client_that_is_gone_can_come_back() {
    let mut s = server_with(&["tlowry", "Lao88"]);
    room(&mut s, 1, "tlowry", ROOM, r#"["room","create","a"]"#);
    room(&mut s, 1, "tlowry", ROOM, r#"["room","set","allowed-users","Lao88"]"#);
    room(&mut s, 1, "tlowry", ROOM, r#"["room","join"]"#);
    room(&mut s, 2, "Lao88", ROOM, r#"["room","join"]"#);
    s.remove_client(2);
    Handler::cmd_loop(None, 2, "Lao88", &mut s.state);
    s.connect(2, Client { tx: 20 });
    assert_eq!(s.identify_client("IDENTIFY Lao88", 2, 0, no_payload, no_claims).unwrap().user_id, "Lao88");
    let (reply, sent) = room(&mut s, 2, "Lao88", ROOM, r#"["room","join"]"#);
    assert_eq!(
        reply,
        answer(200, &format!(r#"[{{"client_id":"{}","user_id":"tlowry"}}]"#, id(1)))
    );
    let joined = event(ROOM, &format!(r#"["room","joined","{}","Lao88"]"#, id(2)));
    assert_eq!(sent, vec![(joined, 10)]);
}

#[test]
fn a_room_keeps_its_creator() {
    let mut s = server_with(&["tlowry", "Lao88"]);
    room(&mut s, 1, "tlowry", ROOM, r#"["room","create","a"]"#);
    room(&mut s, 1, "tlowry", ROOM, r#"["room","set","allowed-users","Lao88"]"#);
    room(&mut s, 2, "Lao88", ROOM, r#"["room","join"]"#);
    room(&mut s, 2, "Lao88", ROOM, r#"["room","set","allowed-users","Lao88"]"#);
    let (reply, _) = room(&mut s, 1, "tlowry", ROOM, r#"["room","get","allowed-users"]"#);
    assert_eq!(reply, answer(200, r#"["Lao88","tlowry"]"#));
    let found = s.state.rooms.values().next().unwrap();
    assert_eq!((found.creator.as_str(), found.name.as_str()), ("tlowry", "a"));
}

#[test]
fn a_run_of_messages_gets_a_reply_each() {
    let mut s = server_with(&["tlowry"]);
    let messages = [
        request(Some(ROOM), r#"["room","create","a"]"#),
        "nonsense".to_string(),
        "[]".to_string(),
        request(Some(ROOM), r#"["room","join"]"#),
        "[7]".to_string(),
        request(None, r#"["room","list"]"#),
    ];
    let replies: Vec<String> =
        messages.iter().map(|text| ask(&mut s, 1, "tlowry", text).0).collect();
    let bad = format!("[{}]", response("", 400, r#"["Bad Request"]"#));
    let details = format!(
        r#"[{{"active":true,"creator":"tlowry","room_id":"{}","room_name":"a"}}]"#,
        ROOM
    );
    assert_eq!(
        replies,
        vec![
            answer(200, "[]"),
            bad.clone(),
            "[]".to_string(),
            answer(200, "[]"),
            bad,
            answer(200, &details),
        ]
    );
    assert_eq!(Handler::cmd_loop(None, 1, "tlowry", &mut s.state).0, None);
    assert!(s.state.rooms.is_empty());
}

#[test]
fn users_are_put_out_one_after_the_other() {
    let mut s = server_with(&["tlowry", "Lao88", "Taiki97"]);
    room(&mut s, 1, "tlowry", ROOM, r#"["room","create","a"]"#);
    room(&mut s, 1, "tlowry", ROOM, r#"["room","set","allowed-users","Taiki97","Lao88"]"#);
    room(&mut s, 1, "tlowry", ROOM, r#"["room","join"]"#);
    room(&mut s, 2, "Lao88", ROOM, r#"["room","join"]"#);
    room(&mut s, 3, "Taiki97", ROOM, r#"["room","join"]"#);
    let (_, sent) = room(&mut s, 1, "tlowry", ROOM, r#"["room","set","allowed-users"]"#);
    let left = |n: u128, user: &str| {
        event(ROOM, &format!(r#"["room","left","{}","{}"]"#, id(n), user))
    };
    let destroyed = event(ROOM, r#"["room","destroyed"]"#);
    assert_eq!(
        sent,
        vec![
            (left(3, "Taiki97"), 10),
            (left(3, "Taiki97"), 20),
            (left(2, "Lao88"), 10),
            (destroyed.clone(), 30),
            (destroyed, 20),
        ]
    );
}

#[test]
fn errors_with_a_given_phrase() {
    let cases = [
        (Some("why"), Some("phrase"), response("1", 404, r#"["why"]"#)),
        (None, Some("phrase"), response("1", 404, r#"["phrase"]"#)),
        (None, None, response("1", 404, r#"["Bad request"]"#)),
    ];
    for (reason, phrase, expected) in cases.iter() {
        let error = Handler::error_response_with(Some("1"), Some(404), *reason, *phrase);
        assert_eq!(error.to_text(), *expected);
    }
}
