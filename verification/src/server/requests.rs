//! What a client gets for each request, told from the request as it is sent.
//!
//! The laws here speak of the fields of a request, of the response down to its fields, and of the
//! clients that a message goes to.

use crate::ids::{id_of_text, id_text};
use crate::json::{JsonView, lookup, text_of_value, value_of_json};
use crate::lists::{lemma_filter, lemma_filter_map};
use crate::server::keeping::{
    law_allow_list, law_disallowed_are_out, law_remove_users, with_rooms,
};
use crate::server::laws::{
    clients_of_users, known, law_batch_responses, law_batch_split, law_create, law_destroy,
    law_join, law_join_members, law_leave, law_list, law_message, law_response_fields,
    law_unreadable, reaches_once, remaining,
};
use crate::server::rules::{
    AnswerView, Fields, Sent, Step, absent_from, allow_list, created_args, destroyed_args,
    error_json, error_json_with, handle_all, handle_message, handle_one, has_room, leave_sent,
    list_rooms, member_details, members, notify, remove_room, remove_users, request_json,
    requests_of, response_json, room_command, room_details, set_allowed, strings_from,
    without_client, word,
};
use crate::server::status::canonical_reason_of;
use crate::server::told::{
    Event, Notice, departures, lemma_departures, lemma_one_each_add, lemma_one_each_users,
    message_of, notices_to, one_each,
};
use crate::server::{ClientsView, RoomView, StateView};
use vstd::prelude::*;

verus! {

/// Whether a request has this identifier and these arguments, of which the first is `room`.
pub open spec fn is_room_request(
    request: Fields,
    request_id: Seq<char>,
    args: Seq<JsonView>,
) -> bool {
    &&& lookup(request, "type"@) == Some(JsonView::Str("request"@))
    &&& lookup(request, "request_id"@) == Some(JsonView::Str(request_id))
    &&& lookup(request, "args"@) == Some(JsonView::Array(args))
    &&& args.len() > 0
    &&& args[0] == JsonView::Str("room"@)
}

/// Whether a request names this room.
pub open spec fn names_room(request: Fields, room_id: u128) -> bool {
    match lookup(request, "room_id"@) {
        Some(JsonView::Str(text)) => id_of_text(text) == Some(room_id),
        _ => false,
    }
}

/// Whether this is what a request asks for, as its second argument.
pub open spec fn asks_for(args: Seq<JsonView>, command: Seq<char>) -> bool {
    args.len() > 1 && args[1] == JsonView::Str(command)
}

/// Whether the response to a request has this status and these arguments.
pub open spec fn says(
    step: Step,
    request_id: Seq<char>,
    status: u64,
    args: Seq<JsonView>,
) -> bool {
    step.response == JsonView::Object(
        seq![
            ("type"@, JsonView::Str("response"@)),
            ("status_code"@, JsonView::Uint(status)),
            ("args"@, JsonView::Array(args)),
            ("request_id"@, JsonView::Str(request_id)),
        ],
    )
}

/// Whether a request is turned down for this reason, with nothing changed and nobody told.
pub open spec fn turns_down(
    step: Step,
    state: StateView,
    request_id: Seq<char>,
    status: u64,
    reason: Seq<char>,
) -> bool {
    &&& says(step, request_id, status, seq![JsonView::Str(reason)])
    &&& step.rooms == state.rooms
    &&& step.sent.len() == 0
}

/// The text that an event in a room is told with.
pub open spec fn told_as(room_id: u128, args: Seq<JsonView>) -> Seq<char> {
    text_of_value(
        value_of_json(
            JsonView::Array(
                seq![
                    JsonView::Object(
                        seq![
                            ("type"@, JsonView::Str("request"@)),
                            ("room_id"@, JsonView::Str(id_text(room_id))),
                            ("args"@, JsonView::Array(args)),
                            ("request_id"@, JsonView::Str(""@)),
                        ],
                    ),
                ],
            ),
        ),
    )
}

/// What is said of a room.
pub open spec fn described(room_id: u128, room: RoomView) -> JsonView {
    JsonView::Object(
        seq![
            ("room_id"@, JsonView::Str(id_text(room_id))),
            ("room_name"@, JsonView::Str(room.name)),
            ("creator"@, JsonView::Str(room.creator)),
            ("active"@, JsonView::Bool(!(room.current =~= Set::empty()))),
        ],
    )
}

/// That there is a room for a user.
pub open spec fn told_created(room_id: u128, room: RoomView) -> Seq<char> {
    told_as(
        room_id,
        seq![
            JsonView::Str("room"@),
            JsonView::Str("created"@),
            described(room_id, room),
        ],
    )
}

/// That a call has begun.
pub open spec fn told_active(room_id: u128) -> Seq<char> {
    told_as(room_id, seq![JsonView::Str("room"@), JsonView::Str("active"@)])
}

/// That a room is no more.
pub open spec fn told_destroyed(room_id: u128) -> Seq<char> {
    told_as(room_id, seq![JsonView::Str("room"@), JsonView::Str("destroyed"@)])
}

/// That a client has joined.
pub open spec fn told_joined(room_id: u128, client_id: u128, user: Seq<char>) -> Seq<char> {
    told_as(
        room_id,
        seq![
            JsonView::Str("room"@),
            JsonView::Str("joined"@),
            JsonView::Str(id_text(client_id)),
            JsonView::Str(user),
        ],
    )
}

/// That a client has left.
pub open spec fn told_left(room_id: u128, client_id: u128, user: Seq<char>) -> Seq<char> {
    told_as(
        room_id,
        seq![
            JsonView::Str("room"@),
            JsonView::Str("left"@),
            JsonView::Str(id_text(client_id)),
            JsonView::Str(user),
        ],
    )
}

/// What a member has to say.
pub open spec fn told_message(room_id: u128, message: JsonView, client_id: u128) -> Seq<char> {
    told_as(
        room_id,
        seq![
            JsonView::Str("room"@),
            JsonView::Str("message"@),
            message,
            JsonView::Str(id_text(client_id)),
        ],
    )
}

/// The names of the commands are all different.
proof fn lemma_commands()
    ensures
        "create"@ != "destroy"@,
        "create"@ != "get"@,
        "create"@ != "set"@,
        "create"@ != "join"@,
        "create"@ != "leave"@,
        "create"@ != "message"@,
        "destroy"@ != "get"@,
        "destroy"@ != "set"@,
        "destroy"@ != "join"@,
        "destroy"@ != "leave"@,
        "destroy"@ != "message"@,
        "get"@ != "set"@,
        "get"@ != "join"@,
        "get"@ != "leave"@,
        "get"@ != "message"@,
        "set"@ != "join"@,
        "set"@ != "leave"@,
        "set"@ != "message"@,
        "join"@ != "leave"@,
        "join"@ != "message"@,
        "leave"@ != "message"@,
{
    reveal_strlit("create");
    reveal_strlit("destroy");
    reveal_strlit("get");
    reveal_strlit("set");
    reveal_strlit("join");
    reveal_strlit("leave");
    reveal_strlit("message");
    assert("create"@.len() == 6 && "destroy"@.len() == 7 && "get"@.len() == 3 && "set"@.len() == 3);
    assert("join"@.len() == 4 && "leave"@.len() == 5 && "message"@.len() == 7);
    assert("get"@[0] == 'g' && "set"@[0] == 's');
    assert("destroy"@[0] == 'd' && "message"@[0] == 'm');
}

/// What a request about a room comes to is what its command comes to.
proof fn lemma_command(
    state: StateView,
    request: Fields,
    request_id: Seq<char>,
    args: Seq<JsonView>,
    room_id: u128,
    client_id: u128,
    user: Seq<char>,
)
    requires
        is_room_request(request, request_id, args),
        names_room(request, room_id),
    ensures
        ({
            let step = handle_one(state, request, client_id, user);
            let rest = args.drop_first();
            let outcome = room_command(state, room_id, rest, client_id, user);
            &&& step.rooms == outcome.rooms
            &&& step.sent == outcome.sent
            &&& outcome.answer matches AnswerView::Done(list) ==> says(step, request_id, 200, list)
            &&& outcome.answer matches AnswerView::Refused(code, reason) ==> says(
                step,
                request_id,
                code as u64,
                seq![JsonView::Str(reason)],
            )
            &&& rest.len() == args.len() - 1
            &&& forall|i: int| 0 <= i < rest.len() ==> rest[i] == #[trigger] args[i + 1]
        }),
{
    reveal(handle_one);
}

/// A request to create a room is turned down if the identifier is in use, if no name is given, or
/// if the user has created a room of exactly that name that is still there. Otherwise the room is
/// there, its creator alone is allowed in it, nobody is in it, all other rooms are as they were,
/// and each client of the creator is told, once.
pub proof fn law_create_request(
    state: StateView,
    request: Fields,
    request_id: Seq<char>,
    args: Seq<JsonView>,
    room_id: u128,
    client_id: u128,
    user: Seq<char>,
)
    requires
        state.wf(),
        is_room_request(request, request_id, args),
        names_room(request, room_id),
        asks_for(args, "create"@),
    ensures
        ({
            let step = handle_one(state, request, client_id, user);
            let rooms = state.rooms;
            if rooms.contains_key(room_id) {
                turns_down(step, state, request_id, 409, "Room ID already in use"@)
            } else if args.len() < 3 || !(args[2] is Str) {
                turns_down(step, state, request_id, 400, "Room name missing"@)
            } else {
                let name = args[2]->Str_0;
                let room = RoomView {
                    creator: user,
                    name,
                    allowed: seq![user],
                    current: Set::empty(),
                };
                if exists|id: u128| #[trigger]
                    rooms.contains_key(id) && rooms[id].creator == user && rooms[id].name == name {
                    turns_down(step, state, request_id, 409, "Room already exists"@)
                } else {
                    &&& says(step, request_id, 200, Seq::empty())
                    &&& step.rooms == rooms.insert(room_id, room)
                    &&& reaches_once(
                        step.sent,
                        told_created(room_id, room),
                        clients_of_users(seq![user], state.clients),
                        state.clients,
                    )
                }
            }
        }),
{
    lemma_command(state, request, request_id, args, room_id, client_id, user);
    lemma_commands();
    let rest = args.drop_first();
    assert(rest[0] == args[1]);
    if args.len() >= 3 {
        assert(rest[1] == args[2]);
        if args[2] is Str && !state.rooms.contains_key(room_id) && !has_room(
            state.rooms,
            user,
            args[2]->Str_0,
        ) {
            law_create(state, room_id, user, args[2]->Str_0);
        }
    }
}

/// A request to destroy a room is turned down if there is no such room or the user has not created
/// it. Otherwise the room is gone, all other rooms are as they were, and each client of everyone
/// who was allowed in it is told, once.
pub proof fn law_destroy_request(
    state: StateView,
    request: Fields,
    request_id: Seq<char>,
    args: Seq<JsonView>,
    room_id: u128,
    client_id: u128,
    user: Seq<char>,
)
    requires
        state.wf(),
        is_room_request(request, request_id, args),
        names_room(request, room_id),
        asks_for(args, "destroy"@),
    ensures
        ({
            let step = handle_one(state, request, client_id, user);
            let rooms = state.rooms;
            if !rooms.contains_key(room_id) {
                turns_down(step, state, request_id, 404, "No such room"@)
            } else if rooms[room_id].creator != user {
                turns_down(step, state, request_id, 403, "Forbidden"@)
            } else {
                &&& says(step, request_id, 200, Seq::empty())
                &&& step.rooms == rooms.remove(room_id)
                &&& reaches_once(
                    step.sent,
                    told_destroyed(room_id),
                    clients_of_users(rooms[room_id].allowed, state.clients),
                    state.clients,
                )
            }
        }),
{
    lemma_command(state, request, request_id, args, room_id, client_id, user);
    lemma_commands();
    assert(args.drop_first()[0] == args[1]);
    if state.rooms.contains_key(room_id) {
        law_destroy(state, room_id);
    }
}

/// A request for the allowed users is turned down if it asks for nothing or for anything else, if
/// there is no such room, or if the user has not created it. Otherwise the response lists each of
/// them, and nothing is changed.
pub proof fn law_get_request(
    state: StateView,
    request: Fields,
    request_id: Seq<char>,
    args: Seq<JsonView>,
    room_id: u128,
    client_id: u128,
    user: Seq<char>,
)
    requires
        is_room_request(request, request_id, args),
        names_room(request, room_id),
        asks_for(args, "get"@),
    ensures
        ({
            let step = handle_one(state, request, client_id, user);
            let rooms = state.rooms;
            if args.len() < 3 || !(args[2] is Str) {
                turns_down(step, state, request_id, 400, "Missing room get argument"@)
            } else if args[2]->Str_0 != "allowed-users"@ {
                turns_down(step, state, request_id, 400, "Unknown room get argument"@)
            } else if !rooms.contains_key(room_id) {
                turns_down(step, state, request_id, 404, "No such room"@)
            } else if rooms[room_id].creator != user {
                turns_down(step, state, request_id, 403, "room get not allowed"@)
            } else {
                let allowed = rooms[room_id].allowed;
                &&& step.rooms == rooms
                &&& step.sent.len() == 0
                &&& says(
                    step,
                    request_id,
                    200,
                    Seq::new(allowed.len(), |i: int| JsonView::Str(allowed[i])),
                )
            }
        }),
{
    lemma_command(state, request, request_id, args, room_id, client_id, user);
    lemma_commands();
    let rest = args.drop_first();
    assert(rest[0] == args[1]);
    if args.len() >= 3 {
        assert(rest[1] == args[2]);
    }
    if state.rooms.contains_key(room_id) {
        let allowed = state.rooms[room_id].allowed;
        assert(allowed.map_values(|s: Seq<char>| word(s)) =~= Seq::new(
            allowed.len(),
            |i: int| JsonView::Str(allowed[i]),
        ));
    }
}

/// What is said of a member.
pub open spec fn as_member(user: Seq<char>, client_id: u128) -> JsonView {
    JsonView::Object(
        seq![
            ("user_id"@, JsonView::Str(user)),
            ("client_id"@, JsonView::Str(id_text(client_id))),
        ],
    )
}

/// Whether a list tells of each of these clients that has identified, once, and of nobody else.
pub open spec fn lists_members(
    list: Seq<JsonView>,
    current: Set<u128>,
    clients: ClientsView,
) -> bool {
    &&& forall|id: u128| #[trigger]
        current.contains(id) && clients.identified.contains_key(id) ==> list.contains(
            as_member(clients.identified[id].0, id),
        )
    &&& forall|entry: JsonView| #[trigger]
        list.contains(entry) ==> exists|id: u128| #[trigger]
            current.contains(id) && clients.identified.contains_key(id) && entry == as_member(
                clients.identified[id].0,
                id,
            )
    &&& list.len() == current.filter(|id: u128| clients.identified.contains_key(id)).len()
}

/// A request to join a room is turned down if there is no such room, if the user is not allowed in
/// it, or if the client is in it. Otherwise the client is in the room and everything else is as it
/// was. The response tells of each member that was there before and has identified. If there were
/// members, each of those is told of the client, once, and nobody else is. If there were none,
/// each client of everyone who is allowed in the room is told that a call has begun, once.
pub proof fn law_join_request(
    state: StateView,
    request: Fields,
    request_id: Seq<char>,
    args: Seq<JsonView>,
    room_id: u128,
    client_id: u128,
    user: Seq<char>,
)
    requires
        state.wf(),
        is_room_request(request, request_id, args),
        names_room(request, room_id),
        asks_for(args, "join"@),
    ensures
        ({
            let step = handle_one(state, request, client_id, user);
            let rooms = state.rooms;
            let room = rooms[room_id];
            if !rooms.contains_key(room_id) {
                turns_down(step, state, request_id, 404, "No such room"@)
            } else if !room.allowed.contains(user) {
                turns_down(step, state, request_id, 403, "Forbidden"@)
            } else if room.current.contains(client_id) {
                turns_down(step, state, request_id, 409, "Already in the room"@)
            } else {
                &&& step.rooms == rooms.insert(
                    room_id,
                    RoomView {
                        creator: room.creator,
                        name: room.name,
                        allowed: room.allowed,
                        current: room.current.insert(client_id),
                    },
                )
                &&& exists|list: Seq<JsonView>| #[trigger]
                    lists_members(list, room.current, state.clients) && says(
                        step,
                        request_id,
                        200,
                        list,
                    )
                &&& if room.current =~= Set::empty() {
                    reaches_once(
                        step.sent,
                        told_active(room_id),
                        clients_of_users(room.allowed, state.clients),
                        state.clients,
                    )
                } else {
                    reaches_once(
                        step.sent,
                        told_joined(room_id, client_id, user),
                        room.current,
                        state.clients,
                    )
                }
            }
        }),
{
    lemma_command(state, request, request_id, args, room_id, client_id, user);
    lemma_commands();
    assert(args.drop_first()[0] == args[1]);
    let room = state.rooms[room_id];
    if state.rooms.contains_key(room_id) && room.allowed.contains(user)
        && !room.current.contains(client_id) {
        law_join(state, room_id, client_id, user);
        law_join_members(room, state.clients);
        let list = members(room, state.clients);
        assert(lists_members(list, room.current, state.clients)) by {
            assert forall|id: u128| #[trigger]
                room.current.contains(id) && state.clients.identified.contains_key(
                    id,
                ) implies list.contains(as_member(state.clients.identified[id].0, id)) by {
                assert(known(room.current, state.clients).contains(id));
            }
            assert forall|entry: JsonView| #[trigger] list.contains(entry) implies exists|id: u128|
                #[trigger]
                room.current.contains(id) && state.clients.identified.contains_key(id) && entry
                    == as_member(state.clients.identified[id].0, id) by {
                let id = choose|id: u128| #[trigger]
                    known(room.current, state.clients).contains(id) && entry
                        == member_details(
                        state.clients.identified[id].0,
                        id,
                    );
                assert(room.current.contains(id));
            }
        }
        assert(says(handle_one(state, request, client_id, user), request_id, 200, list));
    }
}

/// A request to leave a room is turned down if there is no such room or the client is not in it.
/// Otherwise the client is out of it, and each member that stays and has identified is told, once.
/// If nobody stays, the room is gone, and each client of everyone who was allowed in it is told,
/// once. All other rooms are as they were.
pub proof fn law_leave_request(
    state: StateView,
    request: Fields,
    request_id: Seq<char>,
    args: Seq<JsonView>,
    room_id: u128,
    client_id: u128,
    user: Seq<char>,
)
    requires
        state.wf(),
        is_room_request(request, request_id, args),
        names_room(request, room_id),
        asks_for(args, "leave"@),
    ensures
        ({
            let step = handle_one(state, request, client_id, user);
            let rooms = state.rooms;
            let room = rooms[room_id];
            let rest = room.current.remove(client_id);
            if !rooms.contains_key(room_id) {
                turns_down(step, state, request_id, 404, "No such room"@)
            } else if !room.current.contains(client_id) {
                turns_down(step, state, request_id, 400, "Not a member of room"@)
            } else if rest =~= Set::empty() {
                &&& says(step, request_id, 200, Seq::empty())
                &&& step.rooms == rooms.remove(room_id)
                &&& reaches_once(
                    step.sent,
                    told_destroyed(room_id),
                    clients_of_users(room.allowed, state.clients),
                    state.clients,
                )
            } else {
                &&& says(step, request_id, 200, Seq::empty())
                &&& step.rooms == rooms.insert(
                    room_id,
                    RoomView {
                        creator: room.creator,
                        name: room.name,
                        allowed: room.allowed,
                        current: rest,
                    },
                )
                &&& reaches_once(
                    step.sent,
                    told_left(room_id, client_id, user),
                    rest,
                    state.clients,
                )
            }
        }),
{
    lemma_command(state, request, request_id, args, room_id, client_id, user);
    lemma_commands();
    assert(args.drop_first()[0] == args[1]);
    if state.rooms.contains_key(room_id) && state.rooms[room_id].current.contains(client_id) {
        law_leave(state, room_id, client_id, user);
    }
}

/// A request to send a message is turned down if there is no message or no list of recipients, if
/// there is no such room, or if the client is not in it, whoever else is. Otherwise the message
/// goes to each member whose identifier is on the list and who has identified, once, and to nobody
/// else, and no room is changed.
pub proof fn law_message_request(
    state: StateView,
    request: Fields,
    request_id: Seq<char>,
    args: Seq<JsonView>,
    room_id: u128,
    client_id: u128,
    user: Seq<char>,
)
    requires
        state.wf(),
        is_room_request(request, request_id, args),
        names_room(request, room_id),
        asks_for(args, "message"@),
    ensures
        ({
            let step = handle_one(state, request, client_id, user);
            let rooms = state.rooms;
            if args.len() < 4 || !(args[3] is Array) {
                turns_down(step, state, request_id, 400, "Bad request"@)
            } else if !rooms.contains_key(room_id) {
                turns_down(step, state, request_id, 404, "No such room"@)
            } else if !rooms[room_id].current.contains(client_id) {
                turns_down(step, state, request_id, 400, "Not a room member"@)
            } else {
                let to = args[3]->Array_0;
                let named = rooms[room_id].current.filter(
                    |id: u128| to.contains(JsonView::Str(id_text(id))),
                );
                &&& says(step, request_id, 200, Seq::empty())
                &&& step.rooms == rooms
                &&& reaches_once(
                    step.sent,
                    told_message(room_id, args[2], client_id),
                    named,
                    state.clients,
                )
            }
        }),
{
    lemma_command(state, request, request_id, args, room_id, client_id, user);
    lemma_commands();
    let rest = args.drop_first();
    assert(rest[0] == args[1]);
    if args.len() >= 4 {
        assert(rest[1] == args[2]);
        assert(rest[2] == args[3]);
        if args[3] is Array && state.rooms.contains_key(room_id)
            && state.rooms[room_id].current.contains(client_id) {
            let to = args[3]->Array_0;
            law_message(state, room_id, client_id, args[2], to);
            assert(state.rooms[room_id].current.filter(
                |id: u128| to.contains(JsonView::Str(id_text(id))),
            ) =~= state.rooms[room_id].current.filter(
                |id: u128| to.contains(word(id_text(id))),
            ));
        }
    }
}

/// A request about a room that asks for nothing, or for nothing that there is, is turned down.
pub proof fn law_unknown_request(
    state: StateView,
    request: Fields,
    request_id: Seq<char>,
    args: Seq<JsonView>,
    room_id: u128,
    client_id: u128,
    user: Seq<char>,
)
    requires
        is_room_request(request, request_id, args),
        names_room(request, room_id),
        !asks_for(args, "create"@),
        !asks_for(args, "destroy"@),
        !asks_for(args, "get"@),
        !asks_for(args, "set"@),
        !asks_for(args, "join"@),
        !asks_for(args, "leave"@),
        !asks_for(args, "message"@),
    ensures
        turns_down(
            handle_one(state, request, client_id, user),
            state,
            request_id,
            400,
            "Invalid room argument"@,
        ),
{
    lemma_command(state, request, request_id, args, room_id, client_id, user);
    if args.len() > 1 {
        assert(args.drop_first()[0] == args[1]);
    }
}

/// A request that names no room is turned down unless it asks for the list of rooms. One whose
/// room is no identifier is turned down whatever it asks for.
pub proof fn law_roomless_request(
    state: StateView,
    request: Fields,
    request_id: Seq<char>,
    args: Seq<JsonView>,
    client_id: u128,
    user: Seq<char>,
)
    requires
        is_room_request(request, request_id, args),
    ensures
        ({
            let step = handle_one(state, request, client_id, user);
            match lookup(request, "room_id"@) {
                Some(JsonView::Str(text)) => id_of_text(text) is None ==> turns_down(
                    step,
                    state,
                    request_id,
                    400,
                    "Bad room_id, must be UUID4"@,
                ),
                _ => !asks_for(args, "list"@) ==> turns_down(
                    step,
                    state,
                    request_id,
                    400,
                    "room_id not specified"@,
                ),
            }
        }),
{
    reveal(handle_one);
    if args.len() > 1 {
        assert(args.drop_first()[0] == args[1]);
    }
}

/// Whether a list tells of each room that a user is allowed in, once, and of no other.
pub open spec fn lists_rooms(
    list: Seq<JsonView>,
    rooms: Map<u128, RoomView>,
    user: Seq<char>,
) -> bool {
    &&& forall|id: u128| #[trigger]
        rooms.contains_key(id) && rooms[id].allowed.contains(user) ==> list.contains(
            described(id, rooms[id]),
        )
    &&& forall|entry: JsonView| #[trigger]
        list.contains(entry) ==> exists|id: u128| #[trigger]
            rooms.contains_key(id) && rooms[id].allowed.contains(user) && entry == described(
                id,
                rooms[id],
            )
    &&& list.len() == rooms.dom().filter(|id: u128| rooms[id].allowed.contains(user)).len()
}

/// A request for the list of rooms, which names no room, is answered with each room that the user
/// is allowed in. Nothing is changed and nobody else is told anything.
pub proof fn law_list_request(
    state: StateView,
    request: Fields,
    request_id: Seq<char>,
    args: Seq<JsonView>,
    client_id: u128,
    user: Seq<char>,
)
    requires
        is_room_request(request, request_id, args),
        !(lookup(request, "room_id"@) matches Some(JsonView::Str(_))),
        asks_for(args, "list"@),
    ensures
        ({
            let step = handle_one(state, request, client_id, user);
            &&& step.rooms == state.rooms
            &&& step.sent.len() == 0
            &&& exists|list: Seq<JsonView>| #[trigger]
                lists_rooms(list, state.rooms, user) && says(step, request_id, 200, list)
        }),
{
    reveal(handle_one);
    assert(args.drop_first()[0] == args[1]);
    let rooms = state.rooms;
    let list = list_rooms(rooms, user);
    let allowed = rooms.dom().filter(|id: u128| rooms[id].allowed.contains(user));
    law_list(rooms, user);
    assert forall|id: u128| #[trigger] rooms.contains_key(id) implies described(id, rooms[id])
        == room_details(id, rooms[id]) by {
        lemma_described(id, rooms[id]);
    }
    assert(lists_rooms(list, rooms, user)) by {
        assert forall|id: u128| #[trigger]
            rooms.contains_key(id) && rooms[id].allowed.contains(user) implies list.contains(
            described(id, rooms[id]),
        ) by {
            assert(allowed.contains(id));
        }
        assert forall|entry: JsonView| #[trigger] list.contains(entry) implies exists|id: u128|
            #[trigger]
            rooms.contains_key(id) && rooms[id].allowed.contains(user) && entry == described(
                id,
                rooms[id],
            ) by {
            let id = choose|id: u128| #[trigger]
                allowed.contains(id) && entry == room_details(id, rooms[id]);
            assert(rooms.contains_key(id));
        }
    }
    assert(says(handle_one(state, request, client_id, user), request_id, 200, list));
}

proof fn lemma_described(room_id: u128, room: RoomView)
    ensures
        described(room_id, room) == room_details(room_id, room),
{
    assert(room.current.is_empty() <==> room.current =~= Set::empty());
}

/// A request without arguments, or whose first argument is not `room`, is turned down.
pub proof fn law_wrong_args_request(
    state: StateView,
    request: Fields,
    request_id: Seq<char>,
    args: Seq<JsonView>,
    client_id: u128,
    user: Seq<char>,
)
    requires
        lookup(request, "type"@) == Some(JsonView::Str("request"@)),
        lookup(request, "request_id"@) == Some(JsonView::Str(request_id)),
        lookup(request, "args"@) == Some(JsonView::Array(args)),
        args.len() == 0 || args[0] != JsonView::Str("room"@),
    ensures
        ({
            let step = handle_one(state, request, client_id, user);
            if args.len() == 0 {
                turns_down(step, state, request_id, 400, "Empty args"@)
            } else {
                turns_down(step, state, request_id, 400, "Incorrect args"@)
            }
        }),
{
    reveal(handle_one);
}

/// What is no request, or lacks its identifier or its arguments, is turned down as a bad request,
/// under its identifier if it has one.
pub proof fn law_no_request(
    state: StateView,
    request: Fields,
    client_id: u128,
    user: Seq<char>,
)
    requires
        ({
            ||| lookup(request, "type"@) != Some(JsonView::Str("request"@))
            ||| !(lookup(request, "request_id"@) matches Some(JsonView::Str(_)))
            ||| !(lookup(request, "args"@) matches Some(JsonView::Array(_)))
        }),
    ensures
        turns_down(
            handle_one(state, request, client_id, user),
            state,
            match lookup(request, "request_id"@) {
                Some(JsonView::Str(request_id)) => request_id,
                _ => ""@,
            },
            400,
            "Bad Request"@,
        ),
{
    reveal(handle_one);
}

/// Whether a user is allowed in a room by a request: the creator is, and whoever is named in it
/// after the first three arguments.
pub open spec fn is_named(args: Seq<JsonView>, creator: Seq<char>, user: Seq<char>) -> bool {
    user == creator || exists|i: int|
        3 <= i < args.len() && #[trigger] args[i] == JsonView::Str(user)
}

/// The strings from an index on are those that stand there as strings.
pub proof fn law_strings_from(args: Seq<JsonView>, from: int, user: Seq<char>)
    requires
        0 <= from <= args.len(),
    ensures
        strings_from(args, from).contains(user) <==> exists|i: int|
            from <= i < args.len() && #[trigger] args[i] == JsonView::Str(user),
{
    let rest = args.skip(from);
    let text = |v: JsonView| v.as_str();
    lemma_filter_map(rest, text);
    if strings_from(args, from).contains(user) {
        let v = choose|v: JsonView| #[trigger] rest.contains(v) && text(v) == Some(user);
        let k = rest.index_of(v);
        assert(args[from + k] == JsonView::Str(user));
    }
    if exists|i: int| from <= i < args.len() && #[trigger] args[i] == JsonView::Str(user) {
        let i = choose|i: int|
            from <= i < args.len() && #[trigger] args[i] == JsonView::Str(user);
        assert(rest[i - from] == JsonView::Str(user));
        assert(rest.contains(JsonView::Str(user)));
        assert(text(JsonView::Str(user)) == Some(user));
    }
}

/// Those who stay in a room under a new list: whoever has identified as a user who is named, and
/// whoever is no longer known.
pub open spec fn staying(
    state: StateView,
    room_id: u128,
    args: Seq<JsonView>,
) -> Set<u128> {
    let room = state.rooms[room_id];
    let identified = state.clients.identified;
    room.current.filter(
        |id: u128|
            identified.contains_key(id) ==> is_named(args, room.creator, identified[id].0),
    )
}

/// Whether a client is put out of a room under a new list.
pub open spec fn is_put_out(
    state: StateView,
    room_id: u128,
    args: Seq<JsonView>,
    id: u128,
) -> bool {
    state.rooms[room_id].current.contains(id) && !staying(state, room_id, args).contains(id)
}

/// The notice of a departure.
pub open spec fn left_notice(state: StateView, room_id: u128, gone: u128, to: u128) -> Notice {
    Notice { room_id, event: Event::Left(gone, state.clients.identified[gone].0), to }
}

/// Whether these are the notices of those who are put out. Everyone who stays and has identified
/// is told of everyone who is put out. Of two who are put out, one is told of the other if they
/// are of different users, and neither if they are of the same. There are no others.
pub open spec fn are_departures(
    notices: Set<Notice>,
    state: StateView,
    room_id: u128,
    args: Seq<JsonView>,
) -> bool {
    let identified = state.clients.identified;
    &&& forall|n: Notice| #[trigger]
        notices.contains(n) ==> exists|gone: u128| #[trigger]
            is_put_out(state, room_id, args, gone) && n == left_notice(state, room_id, gone, n.to)
                && state.rooms[room_id].current.contains(n.to) && identified.contains_key(n.to)
                && identified[n.to].0 != identified[gone].0
    &&& forall|gone: u128, to: u128|
        #![trigger left_notice(state, room_id, gone, to)]
        is_put_out(state, room_id, args, gone) && staying(state, room_id, args).contains(to)
            && identified.contains_key(to) ==> notices.contains(
            left_notice(state, room_id, gone, to),
        )
    &&& forall|a: u128, b: u128|
        #![trigger left_notice(state, room_id, a, b)]
        is_put_out(state, room_id, args, a) && is_put_out(state, room_id, args, b)
            && identified[a].0 != identified[b].0 ==> notices.contains(
            left_notice(state, room_id, a, b),
        ) != notices.contains(left_notice(state, room_id, b, a))
}

/// The notices of one event to the clients of the users that meet a condition.
pub open spec fn notices_where(
    state: StateView,
    room_id: u128,
    event: Event,
    who: spec_fn(Seq<char>) -> bool,
) -> Set<Notice> {
    Set::new(
        |n: Notice|
            n.room_id == room_id && n.event == event && state.clients.identified.contains_key(n.to)
                && who(state.clients.identified[n.to].0),
    )
}

/// A request for a new list of allowed users is turned down if it asks for nothing or for anything
/// else, if there is no such room, or if the user has not created it. Otherwise the creator and
/// everyone who is named in the request are allowed in the room, each once, and nobody else is.
/// Whoever was in the room and may not be is out of it, and whoever may stays. If there were
/// clients in it and none may stay, the room is gone. All other rooms are as they were.
///
/// First each client of a user who is new is told of the room. Then of each client that is put
/// out those who stay are told. Then each client of a user who is no longer allowed is told that
/// the room has ended, and so is each client of everyone who is if the room is gone. Each is told
/// once, and nobody else is told anything.
pub proof fn law_set_request(
    state: StateView,
    request: Fields,
    request_id: Seq<char>,
    args: Seq<JsonView>,
    room_id: u128,
    client_id: u128,
    user: Seq<char>,
)
    requires
        state.wf(),
        is_room_request(request, request_id, args),
        names_room(request, room_id),
        asks_for(args, "set"@),
    ensures
        ({
            let step = handle_one(state, request, client_id, user);
            let rooms = state.rooms;
            let room = rooms[room_id];
            if args.len() < 3 || !(args[2] is Str) {
                turns_down(step, state, request_id, 400, "Missing room set argument"@)
            } else if args[2]->Str_0 != "allowed-users"@ {
                turns_down(step, state, request_id, 400, "Unknown room set argument"@)
            } else if !rooms.contains_key(room_id) {
                turns_down(step, state, request_id, 404, "No such room"@)
            } else if room.creator != user {
                turns_down(step, state, request_id, 403, "room set not allowed"@)
            } else {
                let ends = !(room.current =~= Set::empty()) && staying(state, room_id, args)
                    =~= Set::empty();
                &&& says(step, request_id, 200, Seq::empty())
                &&& step.rooms.remove(room_id) == rooms.remove(room_id)
                &&& step.rooms.contains_key(room_id) <==> !ends
                &&& !ends ==> {
                    let new = step.rooms[room_id];
                    &&& new.creator == room.creator
                    &&& new.name == room.name
                    &&& new.current == staying(state, room_id, args)
                    &&& new.allowed.no_duplicates()
                    &&& forall|u: Seq<char>| #[trigger]
                        new.allowed.contains(u) <==> is_named(args, room.creator, u)
                }
                &&& exists|first: Sent, second: Sent, third: Sent, departures: Set<Notice>|
                    {
                        &&& step.sent == #[trigger] (first + second + third)
                        &&& one_each(
                            first,
                            notices_where(
                                state,
                                room_id,
                                Event::Created,
                                |u: Seq<char>|
                                    is_named(args, room.creator, u) && !room.allowed.contains(u),
                            ),
                            state,
                        )
                        &&& #[trigger] one_each(second, departures, state)
                        &&& are_departures(departures, state, room_id, args)
                        &&& one_each(
                            third,
                            notices_where(
                                state,
                                room_id,
                                Event::Ended,
                                |u: Seq<char>|
                                    if is_named(args, room.creator, u) {
                                        ends
                                    } else {
                                        room.allowed.contains(u)
                                    },
                            ),
                            state,
                        )
                    }
            }
        }),
{
    lemma_command(state, request, request_id, args, room_id, client_id, user);
    lemma_commands();
    let rest = args.drop_first();
    assert(rest[0] == args[1]);
    if args.len() >= 3 {
        assert(rest[1] == args[2]);
    }
    let rooms = state.rooms;
    let room = rooms[room_id];
    if args.len() >= 3 && args[2] == JsonView::Str("allowed-users"@) && rooms.contains_key(room_id)
        && room.creator == user {
        lemma_set_request(state, args, room_id);
        let step = handle_one(state, request, client_id, user);
        assert(step.sent == set_allowed(state, room_id, strings_from(rest, 2)).1);
        assert(step.rooms == set_allowed(state, room_id, strings_from(rest, 2)).0);
    }
}

/// Who is allowed under a new list, and who stays.
proof fn lemma_named(state: StateView, args: Seq<JsonView>, room_id: u128)
    requires
        state.wf(),
        args.len() >= 3,
        state.rooms.contains_key(room_id),
    ensures
        ({
            let room = state.rooms[room_id];
            let listed = strings_from(args.drop_first(), 2);
            let allowed = allow_list(listed, room.creator);
            &&& allowed.no_duplicates()
            &&& forall|u: Seq<char>| #[trigger]
                allowed.contains(u) <==> is_named(args, room.creator, u)
            &&& remaining(state, room_id, listed) == staying(state, room_id, args)
        }),
{
    let room = state.rooms[room_id];
    let rest = args.drop_first();
    let listed = strings_from(rest, 2);
    let allowed = allow_list(listed, room.creator);
    law_allow_list(listed, room.creator);
    assert forall|u: Seq<char>| #[trigger] allowed.contains(u) <==> is_named(
        args,
        room.creator,
        u,
    ) by {
        law_strings_from(rest, 2, u);
        if listed.contains(u) {
            let i = choose|i: int| 2 <= i < rest.len() && #[trigger] rest[i] == JsonView::Str(u);
            assert(args[i + 1] == JsonView::Str(u));
        }
        if exists|i: int| 3 <= i < args.len() && #[trigger] args[i] == JsonView::Str(u) {
            let i = choose|i: int| 3 <= i < args.len() && #[trigger] args[i] == JsonView::Str(u);
            assert(rest[i - 1] == JsonView::Str(u));
        }
    }
    let removed = absent_from(room.allowed, allowed);
    law_remove_users(removed, room_id, room.current, state.clients);
    assert(remaining(state, room_id, listed) =~= staying(state, room_id, args)) by {
        assert forall|id: u128|
            remaining(state, room_id, listed).contains(id) <==> staying(
                state,
                room_id,
                args,
            ).contains(id) by {
            if state.clients.identified.contains_key(id) {
                law_disallowed_are_out(state, room_id, listed, id);
                assert(allowed.contains(state.clients.identified[id].0) <==> is_named(
                    args,
                    room.creator,
                    state.clients.identified[id].0,
                ));
            } else {
                assert forall|u: Seq<char>|
                    state.clients.user_clients.contains_key(
                        u,
                    ) implies !#[trigger] state.clients.user_clients[u].contains_key(id) by {}
            }
        }
    }
}

proof fn lemma_set_request(state: StateView, args: Seq<JsonView>, room_id: u128)
    requires
        state.wf(),
        args.len() >= 3,
        state.rooms.contains_key(room_id),
    ensures
        ({
            let room = state.rooms[room_id];
            let (after, sent) = set_allowed(
                state,
                room_id,
                strings_from(args.drop_first(), 2),
            );
            let ends = !(room.current =~= Set::empty()) && staying(state, room_id, args)
                =~= Set::empty();
            &&& after.remove(room_id) == state.rooms.remove(room_id)
            &&& after.contains_key(room_id) <==> !ends
            &&& !ends ==> {
                let new = after[room_id];
                &&& new.creator == room.creator
                &&& new.name == room.name
                &&& new.current == staying(state, room_id, args)
                &&& new.allowed.no_duplicates()
                &&& forall|u: Seq<char>| #[trigger]
                    new.allowed.contains(u) <==> is_named(args, room.creator, u)
            }
            &&& exists|first: Sent, second: Sent, third: Sent, departures: Set<Notice>|
                {
                    &&& sent == #[trigger] (first + second + third)
                    &&& one_each(
                        first,
                        notices_where(
                            state,
                            room_id,
                            Event::Created,
                            |u: Seq<char>|
                                is_named(args, room.creator, u) && !room.allowed.contains(u),
                        ),
                        state,
                    )
                    &&& #[trigger] one_each(second, departures, state)
                    &&& are_departures(departures, state, room_id, args)
                    &&& one_each(
                        third,
                        notices_where(
                            state,
                            room_id,
                            Event::Ended,
                            |u: Seq<char>|
                                if is_named(args, room.creator, u) {
                                    ends
                                } else {
                                    room.allowed.contains(u)
                                },
                        ),
                        state,
                    )
                }
        }),
{
    let room = state.rooms[room_id];
    let clients = state.clients;
    let listed = strings_from(args.drop_first(), 2);
    let allowed = allow_list(listed, room.creator);
    let added = absent_from(allowed, room.allowed);
    let removed = absent_from(room.allowed, allowed);
    let (after, sent) = set_allowed(state, room_id, listed);
    let ends = !room.current.is_empty() && remaining(state, room_id, listed).is_empty();
    lemma_named(state, args, room_id);
    lemma_filter(allowed, |user: Seq<char>| !room.allowed.contains(user));
    lemma_filter(room.allowed, |user: Seq<char>| !allowed.contains(user));
    assert forall|u: Seq<char>| #[trigger] added.contains(u) <==> is_named(args, room.creator, u)
        && !room.allowed.contains(u) by {
        assert(allowed.contains(u) <==> is_named(args, room.creator, u));
    }
    assert forall|u: Seq<char>| #[trigger] removed.contains(u) <==> room.allowed.contains(u)
        && !is_named(args, room.creator, u) by {
        assert(allowed.contains(u) <==> is_named(args, room.creator, u));
    }
    assert(after.remove(room_id) =~= state.rooms.remove(room_id));
    let first = notify(added, room_id, created_args(room_id, room), clients);
    let second = remove_users(removed, room_id, room.current, clients).1;
    let dropped = notify(removed, room_id, destroyed_args(), clients);
    let end = notify(allowed, room_id, destroyed_args(), clients);
    let created = |u: Seq<char>| is_named(args, room.creator, u) && !room.allowed.contains(u);
    let ended = |u: Seq<char>|
        if is_named(args, room.creator, u) {
            ends
        } else {
            room.allowed.contains(u)
        };
    lemma_one_each_users(added, room_id, Event::Created, state);
    assert(notices_to(room_id, Event::Created, clients_of_users(added, clients)) =~= notices_where(
        state,
        room_id,
        Event::Created,
        created,
    ));
    lemma_departures(removed, room_id, room.current, state);
    lemma_are_departures(state, args, room_id);
    lemma_one_each_users(removed, room_id, Event::Ended, state);
    lemma_one_each_users(allowed, room_id, Event::Ended, state);
    let c = notices_to(room_id, Event::Ended, clients_of_users(removed, clients));
    let d = notices_to(room_id, Event::Ended, clients_of_users(allowed, clients));
    assert(c.disjoint(d));
    lemma_one_each_add(dropped, c, end, d, state);
    let third = if ends {
        dropped + end
    } else {
        dropped
    };
    assert(sent =~= first + second + third);
    if ends {
        assert(c.union(d) =~= notices_where(state, room_id, Event::Ended, ended));
    } else {
        assert(c =~= notices_where(state, room_id, Event::Ended, ended));
    }
    assert(one_each(
        second,
        departures(removed, room_id, room.current, clients),
        state,
    ));
}

proof fn lemma_are_departures(state: StateView, args: Seq<JsonView>, room_id: u128)
    requires
        state.wf(),
        args.len() >= 3,
        state.rooms.contains_key(room_id),
    ensures
        ({
            let room = state.rooms[room_id];
            let allowed = allow_list(strings_from(args.drop_first(), 2), room.creator);
            are_departures(
                departures(
                    absent_from(room.allowed, allowed),
                    room_id,
                    room.current,
                    state.clients,
                ),
                state,
                room_id,
                args,
            )
        }),
{
    let room = state.rooms[room_id];
    let identified = state.clients.identified;
    let allowed = allow_list(strings_from(args.drop_first(), 2), room.creator);
    let removed = absent_from(room.allowed, allowed);
    let notices = departures(removed, room_id, room.current, state.clients);
    lemma_named(state, args, room_id);
    lemma_filter(room.allowed, |user: Seq<char>| !allowed.contains(user));
    assert forall|u: Seq<char>| #[trigger] removed.contains(u) <==> room.allowed.contains(u)
        && !is_named(args, room.creator, u) by {
        assert(allowed.contains(u) <==> is_named(args, room.creator, u));
    }
    assert forall|id: u128| #[trigger] is_put_out(state, room_id, args, id) <==> (
    room.current.contains(id) && identified.contains_key(id) && removed.contains(
        identified[id].0,
    )) by {
        if room.current.contains(id) && identified.contains_key(id) {
            assert(room.allowed.contains(identified[id].0));
        }
    }
    assert forall|n: Notice| #[trigger] notices.contains(n) implies exists|gone: u128| #[trigger]
        is_put_out(state, room_id, args, gone) && n == left_notice(state, room_id, gone, n.to)
            && room.current.contains(n.to) && identified.contains_key(n.to) && identified[n.to].0
            != identified[gone].0 by {
        match n.event {
            Event::Left(gone, name) => {
                assert(is_put_out(state, room_id, args, gone));
                assert(n == left_notice(state, room_id, gone, n.to));
            },
            _ => {},
        }
    }
    assert forall|gone: u128, to: u128|
        #![trigger left_notice(state, room_id, gone, to)]
        is_put_out(state, room_id, args, gone) && staying(state, room_id, args).contains(to)
            && identified.contains_key(to) implies notices.contains(
        left_notice(state, room_id, gone, to),
    ) by {
        assert(!removed.contains(identified[to].0));
    }
    assert forall|a: u128, b: u128|
        #![trigger left_notice(state, room_id, a, b)]
        is_put_out(state, room_id, args, a) && is_put_out(state, room_id, args, b)
            && identified[a].0 != identified[b].0 implies notices.contains(
        left_notice(state, room_id, a, b),
    ) != notices.contains(left_notice(state, room_id, b, a)) by {
        let x = identified[a].0;
        let y = identified[b].0;
        assert(removed[removed.index_of(x)] == x);
        assert(removed[removed.index_of(y)] == y);
        assert(notices.contains(left_notice(state, room_id, a, b)) <==> removed.index_of(x)
            < removed.index_of(y));
        assert(notices.contains(left_notice(state, room_id, b, a)) <==> removed.index_of(y)
            < removed.index_of(x));
    }
}

/// A notice is sent as the text of its event, down the channel of the client.
pub proof fn law_notice_text(state: StateView, n: Notice)
    ensures
        message_of(state)(n) == (
            match n.event {
                Event::Created => told_created(n.room_id, state.rooms[n.room_id]),
                Event::Left(gone, user) => told_left(n.room_id, gone, user),
                Event::Ended => told_destroyed(n.room_id),
            },
            state.clients.identified[n.to].1,
        ),
{
    lemma_described(n.room_id, state.rooms[n.room_id]);
}

/// Whether a message is an array of objects.
pub open spec fn is_batch(json: Option<JsonView>) -> bool {
    match json {
        Some(JsonView::Array(items)) => forall|i: int|
            0 <= i < items.len() ==> #[trigger] items[i] is Object,
        _ => false,
    }
}

/// A message that is an array of objects is as many requests as it has items, each with the fields
/// of its item. Anything else holds no requests.
pub proof fn law_requests_of(json: JsonView)
    ensures
        requests_of(json) is Some <==> is_batch(Some(json)),
        is_batch(Some(json)) ==> {
            let items = json->Array_0;
            let requests = requests_of(json)->0;
            &&& requests.len() == items.len()
            &&& forall|i: int|
                0 <= i < items.len() ==> items[i] == JsonView::Object(#[trigger] requests[i])
        },
{
    if json is Array {
        let items = json->Array_0;
        assert(json.as_array() == Some(items));
        if is_batch(Some(json)) {
            assert forall|i: int| 0 <= i < items.len() implies (
            #[trigger] items[i].as_object()) is Some by {
                assert(items[i] is Object);
            }
            let requests = requests_of(json)->0;
            assert forall|i: int| 0 <= i < items.len() implies items[i] == JsonView::Object(
                #[trigger] requests[i],
            ) by {
                assert(items[i] is Object);
            }
        }
        if requests_of(json) is Some {
            assert forall|i: int| 0 <= i < items.len() implies #[trigger] items[i] is Object by {
                assert(items[i].as_object() is Some);
            }
        }
    }
}

/// The request that a response answers.
pub open spec fn answers(response: JsonView, request_id: Seq<char>) -> bool {
    match response {
        JsonView::Object(fields) => lookup(fields, "type"@) == Some(JsonView::Str("response"@))
            && lookup(fields, "request_id"@) == Some(JsonView::Str(request_id)),
        _ => false,
    }
}

/// A message that is an array of objects is answered with a response for each item, in their
/// order, under the identifier of the item if it has one. The response to an item is what the item
/// comes to as a request in the state that the items before it leave when they come as a message
/// of their own.
pub proof fn law_batch_message(
    state: StateView,
    items: Seq<JsonView>,
    client_id: u128,
    user: Seq<char>,
)
    requires
        is_batch(Some(JsonView::Array(items))),
    ensures
        ({
            let batch = handle_message(state, Some(JsonView::Array(items)), client_id, user);
            &&& batch.responses.len() == items.len()
            &&& forall|i: int|
                0 <= i < items.len() ==> {
                    let request = items[i]->Object_0;
                    let before = handle_message(
                        state,
                        Some(JsonView::Array(items.take(i))),
                        client_id,
                        user,
                    );
                    &&& answers(
                        #[trigger] batch.responses[i],
                        match lookup(request, "request_id"@) {
                            Some(JsonView::Str(request_id)) => request_id,
                            _ => ""@,
                        },
                    )
                    &&& batch.responses[i] == handle_one(
                        StateView { rooms: before.rooms, ..state },
                        request,
                        client_id,
                        user,
                    ).response
                }
        }),
{
    let json = JsonView::Array(items);
    let batch = handle_message(state, Some(json), client_id, user);
    law_requests_of(json);
    let requests = requests_of(json)->0;
    law_batch_responses(state, requests, client_id, user);
    assert forall|i: int| 0 <= i < items.len() implies {
        let request = items[i]->Object_0;
        let before = handle_message(
            state,
            Some(JsonView::Array(items.take(i))),
            client_id,
            user,
        );
        &&& answers(
            #[trigger] batch.responses[i],
            match lookup(request, "request_id"@) {
                Some(JsonView::Str(request_id)) => request_id,
                _ => ""@,
            },
        )
        &&& batch.responses[i] == handle_one(
            StateView { rooms: before.rooms, ..state },
            request,
            client_id,
            user,
        ).response
    } by {
        let part = JsonView::Array(items.take(i));
        assert(is_batch(Some(part)));
        law_requests_of(part);
        assert(items[i] == JsonView::Object(requests[i]));
        assert(requests_of(part)->0 =~= requests.take(i)) by {
            assert forall|k: int| 0 <= k < i implies requests_of(part)->0[k] == requests[k] by {
                assert(items.take(i)[k] == JsonView::Object(requests_of(part)->0[k]));
                assert(items[k] == JsonView::Object(requests[k]));
            }
        }
        let before = with_rooms(
            state,
            handle_all(state, requests.take(i), client_id, user).rooms,
        );
        lemma_answers(before, requests[i], client_id, user);
    }
}

/// What a message does to the rooms and to others is what its items do one after the other: it
/// does not matter whether they come in one message or in two, and a message of one item does what
/// the item does. An empty message does nothing.
pub proof fn law_batch_effects(
    state: StateView,
    items: Seq<JsonView>,
    more: Seq<JsonView>,
    client_id: u128,
    user: Seq<char>,
)
    requires
        is_batch(Some(JsonView::Array(items))),
        is_batch(Some(JsonView::Array(more))),
    ensures
        ({
            let whole = handle_message(
                state,
                Some(JsonView::Array(items + more)),
                client_id,
                user,
            );
            let one = handle_message(state, Some(JsonView::Array(items)), client_id, user);
            let two = handle_message(
                StateView { rooms: one.rooms, ..state },
                Some(JsonView::Array(more)),
                client_id,
                user,
            );
            &&& whole.rooms == two.rooms
            &&& whole.responses == one.responses + two.responses
            &&& whole.sent == one.sent + two.sent
            &&& items.len() == 0 ==> one.rooms == state.rooms && one.sent.len() == 0
            &&& items.len() == 1 ==> {
                let step = handle_one(state, items[0]->Object_0, client_id, user);
                one.rooms == step.rooms && one.sent == step.sent
            }
        }),
{
    let first = JsonView::Array(items);
    let second = JsonView::Array(more);
    let all = items + more;
    assert(is_batch(Some(JsonView::Array(all)))) by {
        assert forall|i: int| 0 <= i < all.len() implies #[trigger] all[i] is Object by {
            if i < items.len() {
                assert(items[i] is Object);
            } else {
                assert(more[i - items.len()] is Object);
            }
        }
    }
    law_requests_of(first);
    law_requests_of(second);
    law_requests_of(JsonView::Array(all));
    let a = requests_of(first)->0;
    let b = requests_of(second)->0;
    let c = requests_of(JsonView::Array(all))->0;
    assert(c =~= a + b) by {
        assert forall|i: int| 0 <= i < c.len() implies c[i] == (a + b)[i] by {
            assert(all[i] == JsonView::Object(c[i]));
            if i < items.len() {
                assert(items[i] == JsonView::Object(a[i]));
            } else {
                assert(more[i - items.len()] == JsonView::Object(b[i - items.len()]));
            }
        }
    }
    law_batch_split(state, a, b, client_id, user);
    if items.len() == 1 {
        assert(items[0] == JsonView::Object(a[0]));
        let none = handle_all(state, a.drop_last(), client_id, user);
        assert(StateView { rooms: none.rooms, ..state } == state);
        let step = handle_one(state, a[0], client_id, user);
        assert(handle_all(state, a, client_id, user).sent =~= step.sent);
    }
}

/// A message that is no array of objects is answered with a single error, `Bad Request`, changes
/// no room and tells nobody.
pub proof fn law_no_batch(
    state: StateView,
    json: Option<JsonView>,
    client_id: u128,
    user: Seq<char>,
)
    requires
        !is_batch(json),
    ensures
        ({
            let batch = handle_message(state, json, client_id, user);
            &&& batch.rooms == state.rooms
            &&& batch.sent.len() == 0
            &&& batch.responses == seq![
                JsonView::Object(
                    seq![
                        ("type"@, JsonView::Str("response"@)),
                        ("status_code"@, JsonView::Uint(400)),
                        ("args"@, JsonView::Array(seq![JsonView::Str("Bad Request"@)])),
                        ("request_id"@, JsonView::Str(""@)),
                    ],
                ),
            ]
        }),
{
    if json is Some {
        law_requests_of(json->0);
    }
    law_unreadable(state, json, client_id, user);
}

proof fn lemma_answers(state: StateView, request: Fields, client_id: u128, user: Seq<char>)
    ensures
        answers(
            handle_one(state, request, client_id, user).response,
            match lookup(request, "request_id"@) {
                Some(JsonView::Str(request_id)) => request_id,
                _ => ""@,
            },
        ),
{
    reveal(handle_one);
    let response = handle_one(state, request, client_id, user).response;
    assert forall|code: u16, args: Seq<JsonView>, request_id: Seq<char>| #[trigger]
        response_json(code, args, request_id) == response implies answers(
        response,
        request_id,
    ) by {
        law_response_fields(code, args, request_id);
        let fields = response->Object_0;
        assert(lookup(fields, "type"@)->0.as_str() == Some("response"@));
        assert(lookup(fields, "request_id"@)->0.as_str() == Some(request_id));
    }
}

/// An error is a response under the identifier of the request, with the code and the text that are
/// given. Without a code it is a bad request. Without a text it says the phrase that is given, or
/// `Bad request` where there is none.
pub proof fn law_error_response(
    request_id: Option<Seq<char>>,
    code: Option<u16>,
    reason: Option<Seq<char>>,
    phrase: Option<Seq<char>>,
)
    ensures
        error_json_with(request_id, code, reason, phrase) == JsonView::Object(
            seq![
                ("type"@, JsonView::Str("response"@)),
                (
                    "status_code"@,
                    JsonView::Uint(
                        if code is Some {
                            code->0 as u64
                        } else {
                            400
                        },
                    ),
                ),
                (
                    "args"@,
                    JsonView::Array(
                        seq![
                            JsonView::Str(
                                if reason is Some {
                                    reason->0
                                } else if phrase is Some {
                                    phrase->0
                                } else {
                                    "Bad request"@
                                },
                            ),
                        ],
                    ),
                ),
                (
                    "request_id"@,
                    JsonView::Str(
                        if request_id is Some {
                            request_id->0
                        } else {
                            ""@
                        },
                    ),
                ),
            ],
        ),
        error_json(request_id, code, reason) == error_json_with(
            request_id,
            code,
            reason,
            if code is None || code == Some(400u16) {
                Some("Bad Request"@)
            } else {
                canonical_reason_of(code->0)
            },
        ),
{
}

/// A message of the server that concerns no room has no field for one.
pub proof fn law_roomless_event(args: Seq<JsonView>)
    ensures
        request_json(None, args) == JsonView::Array(
            seq![
                JsonView::Object(
                    seq![
                        ("type"@, JsonView::Str("request"@)),
                        ("args"@, JsonView::Array(args)),
                        ("request_id"@, JsonView::Str(""@)),
                    ],
                ),
            ],
        ),
{
}

/// To take a client out of a room that it is not in changes nothing and tells nobody. To end a
/// room that is not there does neither.
pub proof fn law_nothing_to_do(
    state: StateView,
    room_id: u128,
    room: RoomView,
    client_id: u128,
    user: Seq<char>,
)
    ensures
        !room.current.contains(client_id) ==> without_client(room, client_id) == room && leave_sent(
            client_id,
            user,
            room_id,
            room,
            state.clients,
        ).len() == 0,
        !state.rooms.contains_key(room_id) ==> remove_room(state.rooms, room_id, state.clients)
            == (state.rooms, Sent::empty()),
{
    if !room.current.contains(client_id) {
        assert(without_client(room, client_id) =~= room);
    }
}

} // verus!
