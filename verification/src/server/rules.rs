//! What the messages say, and what each request does to the rooms.

use crate::ids::{ascending, id_text, id_of_text};
use crate::json::{JsonView, json_of_text, lookup, lookup_str, text_of_json};
use crate::server::status::{BAD_REQUEST, CONFLICT, FORBIDDEN, NOT_FOUND, OK, phrase_of};
use crate::server::{ClientsView, RoomView, StateView};
use vstd::prelude::*;

verus! {

/// Messages on their way, each with the channel it leaves by.
pub type Sent = Seq<(Seq<char>, u64)>;

/// A string of JSON.
pub open spec fn word(s: Seq<char>) -> JsonView {
    JsonView::Str(s)
}

/// A message from the server that tells clients of an event.
pub open spec fn request_json(room_id: Option<u128>, args: Seq<JsonView>) -> JsonView {
    match room_id {
        Some(room_id) => JsonView::Array(
            seq![
                JsonView::Object(
                    seq![
                        ("type"@, word("request"@)),
                        ("room_id"@, word(id_text(room_id))),
                        ("args"@, JsonView::Array(args)),
                        ("request_id"@, word(""@)),
                    ],
                ),
            ],
        ),
        None => JsonView::Array(
            seq![
                JsonView::Object(
                    seq![
                        ("type"@, word("request"@)),
                        ("args"@, JsonView::Array(args)),
                        ("request_id"@, word(""@)),
                    ],
                ),
            ],
        ),
    }
}

/// The response to one request.
pub open spec fn response_json(
    code: u16,
    args: Seq<JsonView>,
    request_id: Seq<char>,
) -> JsonView {
    JsonView::Object(
        seq![
            ("type"@, word("response"@)),
            ("status_code"@, JsonView::Uint(code as u64)),
            ("args"@, JsonView::Array(args)),
            ("request_id"@, word(request_id)),
        ],
    )
}

/// What clients are told of a room.
pub open spec fn room_details(room_id: u128, room: RoomView) -> JsonView {
    JsonView::Object(
        seq![
            ("room_id"@, word(id_text(room_id))),
            ("room_name"@, word(room.name)),
            ("creator"@, word(room.creator)),
            ("active"@, JsonView::Bool(!room.current.is_empty())),
        ],
    )
}

/// What a client that joins is told of another member.
pub open spec fn member_details(user: Seq<char>, client_id: u128) -> JsonView {
    JsonView::Object(seq![("user_id"@, word(user)), ("client_id"@, word(id_text(client_id)))])
}

/// A room that the user may join has come into being.
pub open spec fn created_args(room_id: u128, room: RoomView) -> Seq<JsonView> {
    seq![word("room"@), word("created"@), room_details(room_id, room)]
}

/// A call has begun in a room.
pub open spec fn active_args() -> Seq<JsonView> {
    seq![word("room"@), word("active"@)]
}

/// A call has ended.
pub open spec fn destroyed_args() -> Seq<JsonView> {
    seq![word("room"@), word("destroyed"@)]
}

/// A client has joined the room.
pub open spec fn joined_args(client_id: u128, user: Seq<char>) -> Seq<JsonView> {
    seq![word("room"@), word("joined"@), word(id_text(client_id)), word(user)]
}

/// A client has left the room.
pub open spec fn left_args(client_id: u128, user: Seq<char>) -> Seq<JsonView> {
    seq![word("room"@), word("left"@), word(id_text(client_id)), word(user)]
}

/// A member of the room has something to say.
pub open spec fn message_args(message: JsonView, client_id: u128) -> Seq<JsonView> {
    seq![word("room"@), word("message"@), message, word(id_text(client_id))]
}

/// The channel of a client, if it has identified.
pub open spec fn sender_of(clients: ClientsView) -> spec_fn(u128) -> Option<u64> {
    |id: u128|
        if clients.identified.contains_key(id) {
            Some(clients.identified[id].1)
        } else {
            None
        }
}

/// The channels of those of the clients that have identified.
pub open spec fn senders(ids: Seq<u128>, clients: ClientsView) -> Seq<u64> {
    ids.filter_map(sender_of(clients))
}

/// One text down each of these channels.
pub open spec fn addressed(text: Seq<char>, channels: Seq<u64>) -> Sent {
    channels.map_values(|tx: u64| (text, tx))
}

/// An event told to each of these clients that has identified.
pub open spec fn broadcast(
    ids: Seq<u128>,
    room_id: Option<u128>,
    args: Seq<JsonView>,
    clients: ClientsView,
) -> Sent {
    addressed(text_of_json(request_json(room_id, args)), senders(ids, clients))
}

/// The clients of one user, in ascending order.
pub open spec fn clients_of(clients: ClientsView) -> spec_fn(Seq<char>) -> Seq<u128> {
    |user: Seq<char>|
        if clients.user_clients.contains_key(user) {
            ascending(clients.user_clients[user].dom())
        } else {
            Seq::empty()
        }
}

/// An event told to every client of each of these users.
pub open spec fn notify(
    users: Seq<Seq<char>>,
    room_id: u128,
    args: Seq<JsonView>,
    clients: ClientsView,
) -> Sent {
    broadcast(users.flat_map(clients_of(clients)), Some(room_id), args, clients)
}

/// The rooms without this one, and its end told to everyone who was allowed in it.
pub open spec fn remove_room(
    rooms: Map<u128, RoomView>,
    room_id: u128,
    clients: ClientsView,
) -> (Map<u128, RoomView>, Sent) {
    if rooms.contains_key(room_id) {
        (
            rooms.remove(room_id),
            notify(rooms[room_id].allowed, room_id, destroyed_args(), clients),
        )
    } else {
        (rooms, Seq::empty())
    }
}

/// The member as a newcomer is told of it, if it has identified.
pub open spec fn member_of(clients: ClientsView) -> spec_fn(u128) -> Option<JsonView> {
    |id: u128|
        if clients.identified.contains_key(id) {
            Some(member_details(clients.identified[id].0, id))
        } else {
            None
        }
}

/// The room with one more client in it.
pub open spec fn with_client(room: RoomView, client_id: u128) -> RoomView {
    RoomView { current: room.current.insert(client_id), ..room }
}

/// The room with one client less in it.
pub open spec fn without_client(room: RoomView, client_id: u128) -> RoomView {
    RoomView { current: room.current.remove(client_id), ..room }
}

/// What is sent when a client joins: the members learn of it, or, where there are none yet,
/// everyone who is allowed in the room learns that a call has begun.
pub open spec fn join_sent(
    client_id: u128,
    user: Seq<char>,
    room_id: u128,
    room: RoomView,
    clients: ClientsView,
) -> Sent {
    if room.current.is_empty() {
        notify(room.allowed, room_id, active_args(), clients)
    } else {
        broadcast(ascending(room.current), Some(room_id), joined_args(client_id, user), clients)
    }
}

/// What a client that joins is answered: the members it finds.
pub open spec fn members(room: RoomView, clients: ClientsView) -> Seq<JsonView> {
    ascending(room.current).filter_map(member_of(clients))
}

/// What is sent when a client leaves: those who stay learn of it.
pub open spec fn leave_sent(
    client_id: u128,
    user: Seq<char>,
    room_id: u128,
    room: RoomView,
    clients: ClientsView,
) -> Sent {
    let rest = room.current.remove(client_id);
    if room.current.contains(client_id) && !rest.is_empty() {
        broadcast(ascending(rest), Some(room_id), left_args(client_id, user), clients)
    } else {
        Seq::empty()
    }
}

/// Those of the clients that are in the room.
pub open spec fn present(ids: Seq<u128>, current: Set<u128>) -> Seq<u128> {
    ids.filter(|id: u128| current.contains(id))
}

/// Who is still in the room once the clients of a user are gone.
pub open spec fn without_user(
    current: Set<u128>,
    user: Seq<char>,
    clients: ClientsView,
) -> Set<u128> {
    if clients.user_clients.contains_key(user) {
        current.difference(clients.user_clients[user].dom())
    } else {
        current
    }
}

/// What one departure is announced as to those who stay.
pub open spec fn departure(
    user: Seq<char>,
    room_id: u128,
    rest: Set<u128>,
    clients: ClientsView,
) -> spec_fn(u128) -> Sent {
    |id: u128| broadcast(ascending(rest), Some(room_id), left_args(id, user), clients)
}

/// What is sent when a user is put out of the room with all clients: those who stay learn of
/// each.
pub open spec fn remove_user_sent(
    user: Seq<char>,
    room_id: u128,
    current: Set<u128>,
    clients: ClientsView,
) -> Sent {
    let rest = without_user(current, user, clients);
    if rest.is_empty() {
        Seq::empty()
    } else {
        present(clients_of(clients)(user), current).flat_map(
            departure(user, room_id, rest, clients),
        )
    }
}

/// Several users put out of the room, one after the other: who is still in it, and what was sent.
pub open spec fn remove_users(
    users: Seq<Seq<char>>,
    room_id: u128,
    current: Set<u128>,
    clients: ClientsView,
) -> (Set<u128>, Sent)
    decreases users.len(),
{
    if users.len() == 0 {
        (current, Seq::empty())
    } else {
        let (left, sent) = remove_users(users.drop_last(), room_id, current, clients);
        (
            without_user(left, users.last(), clients),
            sent + remove_user_sent(users.last(), room_id, left, clients),
        )
    }
}

/// What a request was answered with.
#[verifier::ext_equal]
pub enum AnswerView {
    Done(Seq<JsonView>),
    Refused(u16, Seq<char>),
}

/// What came of a request: the rooms afterwards, the answer, and what was sent to others.
#[verifier::ext_equal]
pub struct Outcome {
    pub rooms: Map<u128, RoomView>,
    pub answer: AnswerView,
    pub sent: Sent,
}

/// A request that is refused changes nothing and tells nobody.
pub open spec fn refused(rooms: Map<u128, RoomView>, code: u16, reason: Seq<char>) -> Outcome {
    Outcome { rooms, answer: AnswerView::Refused(code, reason), sent: Seq::empty() }
}

/// A new room of a creator, who alone may join it.
pub open spec fn new_room(creator: Seq<char>, name: Seq<char>) -> RoomView {
    RoomView { creator, name, allowed: seq![creator], current: Set::empty() }
}

/// Whether a user has created a room of this name.
pub open spec fn has_room(
    rooms: Map<u128, RoomView>,
    creator: Seq<char>,
    name: Seq<char>,
) -> bool {
    exists|id: u128| #[trigger]
        rooms.contains_key(id) && rooms[id].creator == creator && rooms[id].name == name
}

/// `create`: a room under an identifier of its own, with a name that its creator has not used.
pub open spec fn create_room(
    state: StateView,
    room_id: u128,
    user: Seq<char>,
    name: Option<Seq<char>>,
) -> Outcome {
    let rooms = state.rooms;
    if rooms.contains_key(room_id) {
        refused(rooms, CONFLICT, "Room ID already in use"@)
    } else {
        match name {
            None => refused(rooms, BAD_REQUEST, "Room name missing"@),
            Some(name) => if has_room(rooms, user, name) {
                refused(rooms, CONFLICT, "Room already exists"@)
            } else {
                let room = new_room(user, name);
                Outcome {
                    rooms: rooms.insert(room_id, room),
                    answer: AnswerView::Done(Seq::empty()),
                    sent: notify(seq![user], room_id, created_args(room_id, room), state.clients),
                }
            },
        }
    }
}

/// `destroy`: only the creator can end a room.
pub open spec fn destroy_room(state: StateView, room_id: u128, user: Seq<char>) -> Outcome {
    let rooms = state.rooms;
    if !rooms.contains_key(room_id) {
        refused(rooms, NOT_FOUND, "No such room"@)
    } else if rooms[room_id].creator != user {
        refused(rooms, FORBIDDEN, "Forbidden"@)
    } else {
        let (left, sent) = remove_room(rooms, room_id, state.clients);
        Outcome { rooms: left, answer: AnswerView::Done(Seq::empty()), sent }
    }
}

/// `get`: the creator can ask who is allowed in a room.
pub open spec fn get_from_room(
    state: StateView,
    room_id: u128,
    user: Seq<char>,
    what: Option<Seq<char>>,
) -> Outcome {
    let rooms = state.rooms;
    match what {
        None => refused(rooms, BAD_REQUEST, "Missing room get argument"@),
        Some(what) => if what != "allowed-users"@ {
            refused(rooms, BAD_REQUEST, "Unknown room get argument"@)
        } else if !rooms.contains_key(room_id) {
            refused(rooms, NOT_FOUND, "No such room"@)
        } else if rooms[room_id].creator != user {
            refused(rooms, FORBIDDEN, "room get not allowed"@)
        } else {
            Outcome {
                rooms,
                answer: AnswerView::Done(rooms[room_id].allowed.map_values(|s: Seq<char>| word(s))),
                sent: Seq::empty(),
            }
        },
    }
}

/// The strings among the arguments.
pub open spec fn strings_of(args: Seq<JsonView>) -> Seq<Seq<char>> {
    args.filter_map(|v: JsonView| v.as_str())
}

/// Who is allowed in a room once a list of users was named: each of them once, and the creator.
pub open spec fn allow_list(listed: Seq<Seq<char>>, creator: Seq<char>) -> Seq<Seq<char>> {
    listed.push(creator).remove_duplicates(Seq::empty())
}

/// Those on one list that are not on the other.
pub open spec fn absent_from(users: Seq<Seq<char>>, others: Seq<Seq<char>>) -> Seq<Seq<char>> {
    users.filter(|user: Seq<char>| !others.contains(user))
}

/// A new list of who is allowed in a room. Those who are new on it learn of the room. Those who
/// are no longer on it are put out of the room and learn of its end. A room that this leaves
/// without clients comes to its end.
pub open spec fn set_allowed(
    state: StateView,
    room_id: u128,
    listed: Seq<Seq<char>>,
) -> (Map<u128, RoomView>, Sent) {
    let clients = state.clients;
    let room = state.rooms[room_id];
    let allowed = allow_list(listed, room.creator);
    let added = absent_from(allowed, room.allowed);
    let removed = absent_from(room.allowed, allowed);
    let (current, left_sent) = remove_users(removed, room_id, room.current, clients);
    let rooms = state.rooms.insert(room_id, RoomView { allowed, current, ..room });
    let sent = notify(added, room_id, created_args(room_id, room), clients) + left_sent + notify(
        removed,
        room_id,
        destroyed_args(),
        clients,
    );
    if !room.current.is_empty() && current.is_empty() {
        let (rest, end) = remove_room(rooms, room_id, clients);
        (rest, sent + end)
    } else {
        (rooms, sent)
    }
}

/// `set`: the creator can say who is allowed in a room.
pub open spec fn set_on_room(
    state: StateView,
    room_id: u128,
    user: Seq<char>,
    what: Option<Seq<char>>,
    listed: Seq<Seq<char>>,
) -> Outcome {
    let rooms = state.rooms;
    match what {
        None => refused(rooms, BAD_REQUEST, "Missing room set argument"@),
        Some(what) => if what != "allowed-users"@ {
            refused(rooms, BAD_REQUEST, "Unknown room set argument"@)
        } else if !rooms.contains_key(room_id) {
            refused(rooms, NOT_FOUND, "No such room"@)
        } else if rooms[room_id].creator != user {
            refused(rooms, FORBIDDEN, "room set not allowed"@)
        } else {
            let (left, sent) = set_allowed(state, room_id, listed);
            Outcome { rooms: left, answer: AnswerView::Done(Seq::empty()), sent }
        },
    }
}

/// `join`: whoever is allowed in a room can join it once.
pub open spec fn join_room(
    state: StateView,
    room_id: u128,
    client_id: u128,
    user: Seq<char>,
) -> Outcome {
    let rooms = state.rooms;
    if !rooms.contains_key(room_id) {
        refused(rooms, NOT_FOUND, "No such room"@)
    } else {
        let room = rooms[room_id];
        if !room.allowed.contains(user) {
            refused(rooms, FORBIDDEN, "Forbidden"@)
        } else if room.current.contains(client_id) {
            refused(rooms, CONFLICT, "Already in the room"@)
        } else {
            Outcome {
                rooms: rooms.insert(room_id, with_client(room, client_id)),
                answer: AnswerView::Done(members(room, state.clients)),
                sent: join_sent(client_id, user, room_id, room, state.clients),
            }
        }
    }
}

/// `leave`: a member can leave a room. The last to leave ends it.
pub open spec fn leave_room(
    state: StateView,
    room_id: u128,
    client_id: u128,
    user: Seq<char>,
) -> Outcome {
    let rooms = state.rooms;
    if !rooms.contains_key(room_id) {
        refused(rooms, NOT_FOUND, "No such room"@)
    } else {
        let room = rooms[room_id];
        if !room.current.contains(client_id) {
            refused(rooms, BAD_REQUEST, "Not a member of room"@)
        } else {
            let rest = without_client(room, client_id);
            let left = rooms.insert(room_id, rest);
            let sent = leave_sent(client_id, user, room_id, room, state.clients);
            if rest.current.is_empty() {
                let (others, end) = remove_room(left, room_id, state.clients);
                Outcome {
                    rooms: others,
                    answer: AnswerView::Done(Seq::empty()),
                    sent: sent + end,
                }
            } else {
                Outcome { rooms: left, answer: AnswerView::Done(Seq::empty()), sent }
            }
        }
    }
}

/// Those of the clients whose identifier is on the list.
pub open spec fn listed_in(ids: Seq<u128>, to: Seq<JsonView>) -> Seq<u128> {
    ids.filter(|id: u128| to.contains(word(id_text(id))))
}

/// `message`: a member can send a message to other members by their identifiers.
pub open spec fn message_room(
    state: StateView,
    room_id: u128,
    client_id: u128,
    what: Option<JsonView>,
    to: Option<Seq<JsonView>>,
) -> Outcome {
    let rooms = state.rooms;
    match (what, to) {
        (Some(what), Some(to)) => if !rooms.contains_key(room_id) {
            refused(rooms, NOT_FOUND, "No such room"@)
        } else if !rooms[room_id].current.contains(client_id) {
            refused(rooms, BAD_REQUEST, "Not a room member"@)
        } else {
            Outcome {
                rooms,
                answer: AnswerView::Done(Seq::empty()),
                sent: broadcast(
                    listed_in(ascending(rooms[room_id].current), to),
                    Some(room_id),
                    message_args(what, client_id),
                    state.clients,
                ),
            }
        },
        _ => refused(rooms, BAD_REQUEST, "Bad request"@),
    }
}

/// What a user is told of a room that it may join.
pub open spec fn listing(rooms: Map<u128, RoomView>, user: Seq<char>) -> spec_fn(u128) -> Option<
    JsonView,
> {
    |id: u128|
        if rooms[id].allowed.contains(user) {
            Some(room_details(id, rooms[id]))
        } else {
            None
        }
}

/// `list`: the rooms that a user may join.
pub open spec fn list_rooms(rooms: Map<u128, RoomView>, user: Seq<char>) -> Seq<JsonView> {
    ascending(rooms.dom()).filter_map(listing(rooms, user))
}

/// The argument at an index, if there is one.
pub open spec fn arg(args: Seq<JsonView>, i: int) -> Option<JsonView> {
    if 0 <= i < args.len() {
        Some(args[i])
    } else {
        None
    }
}

/// The text of the argument at an index, if it is a string.
pub open spec fn arg_str(args: Seq<JsonView>, i: int) -> Option<Seq<char>> {
    match arg(args, i) {
        Some(v) => v.as_str(),
        None => None,
    }
}

/// The items of the argument at an index, if it is an array.
pub open spec fn arg_array(args: Seq<JsonView>, i: int) -> Option<Seq<JsonView>> {
    match arg(args, i) {
        Some(v) => v.as_array(),
        None => None,
    }
}

/// The strings among the arguments from an index on.
pub open spec fn strings_from(args: Seq<JsonView>, i: int) -> Seq<Seq<char>> {
    if 0 <= i <= args.len() {
        strings_of(args.skip(i))
    } else {
        Seq::empty()
    }
}

/// What a room command does, given the arguments after `room`.
pub open spec fn room_command(
    state: StateView,
    room_id: u128,
    args: Seq<JsonView>,
    client_id: u128,
    user: Seq<char>,
) -> Outcome {
    let command = arg_str(args, 0);
    if command == Some("create"@) {
        create_room(state, room_id, user, arg_str(args, 1))
    } else if command == Some("destroy"@) {
        destroy_room(state, room_id, user)
    } else if command == Some("get"@) {
        get_from_room(state, room_id, user, arg_str(args, 1))
    } else if command == Some("set"@) {
        set_on_room(state, room_id, user, arg_str(args, 1), strings_from(args, 2))
    } else if command == Some("join"@) {
        join_room(state, room_id, client_id, user)
    } else if command == Some("leave"@) {
        leave_room(state, room_id, client_id, user)
    } else if command == Some("message"@) {
        message_room(state, room_id, client_id, arg(args, 1), arg_array(args, 2))
    } else {
        refused(state.rooms, BAD_REQUEST, "Invalid room argument"@)
    }
}

/// The response that carries an answer.
pub open spec fn answer_json(answer: AnswerView, request_id: Seq<char>) -> JsonView {
    match answer {
        AnswerView::Done(args) => response_json(OK, args, request_id),
        AnswerView::Refused(code, reason) => response_json(code, seq![word(reason)], request_id),
    }
}

/// What a step leaves behind: the rooms afterwards, the response, and what was sent to others.
#[verifier::ext_equal]
pub struct Step {
    pub rooms: Map<u128, RoomView>,
    pub response: JsonView,
    pub sent: Sent,
}

/// A response that changes nothing and tells nobody else.
pub open spec fn respond(rooms: Map<u128, RoomView>, response: JsonView) -> Step {
    Step { rooms, response, sent: Seq::empty() }
}

/// What a `room` request does, given the arguments after `room`.
pub open spec fn handle_room(
    state: StateView,
    args: Seq<JsonView>,
    room_id: Option<Seq<char>>,
    request_id: Seq<char>,
    client_id: u128,
    user: Seq<char>,
) -> Step {
    let rooms = state.rooms;
    match room_id {
        None => match arg_str(args, 0) {
            Some(command) if command == "list"@ => respond(
                rooms,
                response_json(OK, list_rooms(rooms, user), request_id),
            ),
            _ => respond(
                rooms,
                response_json(BAD_REQUEST, seq![word("room_id not specified"@)], request_id),
            ),
        },
        Some(text) => match id_of_text(text) {
            None => respond(
                rooms,
                response_json(BAD_REQUEST, seq![word("Bad room_id, must be UUID4"@)], request_id),
            ),
            Some(room_id) => {
                let outcome = room_command(state, room_id, args, client_id, user);
                Step {
                    rooms: outcome.rooms,
                    response: answer_json(outcome.answer, request_id),
                    sent: outcome.sent,
                }
            },
        },
    }
}

/// The response to a request that could not be served, given the standard phrase of its code where
/// it has one. What it leaves open is said for it: the code is a bad request, and the text the
/// standard phrase.
pub open spec fn error_json_with(
    request_id: Option<Seq<char>>,
    code: Option<u16>,
    reason: Option<Seq<char>>,
    phrase: Option<Seq<char>>,
) -> JsonView {
    let reason = match (reason, phrase) {
        (Some(reason), _) => reason,
        (None, Some(phrase)) => phrase,
        (None, None) => "Bad request"@,
    };
    let request_id = match request_id {
        Some(request_id) => request_id,
        None => ""@,
    };
    response_json(code_or_bad_request(code), seq![word(reason)], request_id)
}

/// The code of an error: a bad request where nothing else is said.
pub open spec fn code_or_bad_request(code: Option<u16>) -> u16 {
    match code {
        Some(code) => code,
        None => BAD_REQUEST,
    }
}

/// The response to a request that could not be served.
pub open spec fn error_json(
    request_id: Option<Seq<char>>,
    code: Option<u16>,
    reason: Option<Seq<char>>,
) -> JsonView {
    error_json_with(request_id, code, reason, phrase_of(code_or_bad_request(code)))
}

/// The fields of a request.
pub type Fields = Seq<(Seq<char>, JsonView)>;

/// What one request does.
#[verifier::opaque]
pub open spec fn handle_one(
    state: StateView,
    request: Fields,
    client_id: u128,
    user: Seq<char>,
) -> Step {
    let request_id = lookup_str(request, "request_id"@);
    let args = match lookup(request, "args"@) {
        Some(v) => v.as_array(),
        None => None,
    };
    if lookup_str(request, "type"@) == Some("request"@) && request_id is Some && args is Some {
        let args = args->0;
        if args.len() == 0 {
            respond(state.rooms, error_json(request_id, Some(BAD_REQUEST), Some("Empty args"@)))
        } else if args[0].as_str() == Some("room"@) {
            handle_room(
                state,
                args.drop_first(),
                lookup_str(request, "room_id"@),
                request_id->0,
                client_id,
                user,
            )
        } else {
            respond(state.rooms, error_json(request_id, Some(BAD_REQUEST), Some("Incorrect args"@)))
        }
    } else {
        respond(state.rooms, error_json(request_id, Some(BAD_REQUEST), None))
    }
}

/// What a batch of requests leaves behind: the rooms afterwards, a response for each request, and
/// what was sent to others.
#[verifier::ext_equal]
pub struct Batch {
    pub rooms: Map<u128, RoomView>,
    pub responses: Seq<JsonView>,
    pub sent: Sent,
}

/// What a batch of requests does, one after the other.
pub open spec fn handle_all(
    state: StateView,
    requests: Seq<Fields>,
    client_id: u128,
    user: Seq<char>,
) -> Batch
    decreases requests.len(),
{
    if requests.len() == 0 {
        Batch { rooms: state.rooms, responses: Seq::empty(), sent: Seq::empty() }
    } else {
        let before = handle_all(state, requests.drop_last(), client_id, user);
        let step = handle_one(
            StateView { rooms: before.rooms, ..state },
            requests.last(),
            client_id,
            user,
        );
        Batch {
            rooms: step.rooms,
            responses: before.responses.push(step.response),
            sent: before.sent + step.sent,
        }
    }
}

/// The requests that a JSON value holds: it is an array of objects.
pub open spec fn requests_of(json: JsonView) -> Option<Seq<Fields>> {
    match json.as_array() {
        Some(items) => if forall|i: int|
            0 <= i < items.len() ==> (#[trigger] items[i].as_object()) is Some {
            Some(items.map_values(|item: JsonView| item.as_object()->0))
        } else {
            None
        },
        None => None,
    }
}

/// What a message of a client does: its requests are handled in order and answered together. What
/// is no batch of requests is answered with one error.
pub open spec fn handle_message(
    state: StateView,
    json: Option<JsonView>,
    client_id: u128,
    user: Seq<char>,
) -> Batch {
    let requests = match json {
        Some(json) => requests_of(json),
        None => None,
    };
    match requests {
        Some(requests) => handle_all(state, requests, client_id, user),
        None => Batch {
            rooms: state.rooms,
            responses: seq![error_json(None, None, None)],
            sent: Seq::empty(),
        },
    }
}

/// What a run of messages of one client leaves behind: the rooms afterwards, a reply for each
/// message, and what was sent to others.
#[verifier::ext_equal]
pub struct Run {
    pub rooms: Map<u128, RoomView>,
    pub replies: Seq<Seq<char>>,
    pub sent: Sent,
}

/// What a run of messages of one client does, one turn after the other.
pub open spec fn serve(
    state: StateView,
    messages: Seq<Seq<char>>,
    client_id: u128,
    user: Seq<char>,
) -> Run
    decreases messages.len(),
{
    if messages.len() == 0 {
        Run { rooms: state.rooms, replies: Seq::empty(), sent: Seq::empty() }
    } else {
        let before = serve(state, messages.drop_last(), client_id, user);
        let batch = handle_message(
            StateView { rooms: before.rooms, ..state },
            json_of_text(messages.last()),
            client_id,
            user,
        );
        Run {
            rooms: batch.rooms,
            replies: before.replies.push(text_of_json(JsonView::Array(batch.responses))),
            sent: before.sent + batch.sent,
        }
    }
}

/// The rooms that a client is in, in ascending order.
pub open spec fn rooms_with(rooms: Map<u128, RoomView>, client_id: u128) -> Seq<u128> {
    ascending(rooms.dom()).filter(|id: u128| rooms[id].current.contains(client_id))
}

/// The rooms that a client is in alone, in ascending order.
pub open spec fn rooms_with_only(rooms: Map<u128, RoomView>, client_id: u128) -> Seq<u128> {
    rooms_with(rooms, client_id).filter(
        |id: u128| rooms[id].current.remove(client_id).is_empty(),
    )
}

/// What the departure of a client is announced as in a room.
pub open spec fn room_departure(
    rooms: Map<u128, RoomView>,
    client_id: u128,
    user: Seq<char>,
    clients: ClientsView,
) -> spec_fn(u128) -> Sent {
    |id: u128| leave_sent(client_id, user, id, rooms[id], clients)
}

/// What the end of a room is announced as.
pub open spec fn room_end(rooms: Map<u128, RoomView>, clients: ClientsView) -> spec_fn(
    u128,
) -> Sent {
    |id: u128| notify(rooms[id].allowed, id, destroyed_args(), clients)
}

/// The rooms once a client is gone from all of them. A room that it was in alone is gone too.
pub open spec fn rooms_without(rooms: Map<u128, RoomView>, client_id: u128) -> Map<
    u128,
    RoomView,
> {
    Map::new(
        |id: u128|
            rooms.contains_key(id) && !(rooms[id].current.contains(client_id)
                && rooms[id].current.remove(client_id).is_empty()),
        |id: u128| without_client(rooms[id], client_id),
    )
}

/// What is sent when a client goes: every room that it was in learns of it, and of each room that
/// ends with it everyone who was allowed in it.
pub open spec fn disconnect_sent(state: StateView, client_id: u128, user: Seq<char>) -> Sent {
    rooms_with(state.rooms, client_id).flat_map(
        room_departure(state.rooms, client_id, user, state.clients),
    ) + rooms_with_only(state.rooms, client_id).flat_map(room_end(state.rooms, state.clients))
}

} // verus!
