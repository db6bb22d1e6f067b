//! What the protocol promises.

use crate::ids::{ascending, id_of_text, id_text, lemma_ascending};
use crate::json::{JsonView, json_of_text, lemma_lookup, lookup, lookup_str, text_of_json};
use crate::lists::{lemma_filter, lemma_filter_map};
use crate::server::identity::{
    IdentifyPayload, IdentityView, PayloadView, TokenError, accepted_claims, ident_of, identifies,
    reads_claims, reads_payload,
};
use crate::server::keeping::{
    law_disconnect_keeps_wf, law_remove_keeps_wf, law_remove_users, law_requests_keep_wf,
    with_rooms,
};
use crate::server::rules::{
    AnswerView, Batch, Fields, Run, Sent, absent_from, active_args, allow_list, arg_str, broadcast,
    clients_of, create_room, created_args, destroy_room, destroyed_args, get_from_room,
    handle_all, handle_message, handle_one, has_room, join_room, joined_args, leave_room,
    left_args, list_rooms, listed_in, listing, member_details, member_of, members, message_args,
    message_room, new_room, notify, remove_users, request_json, requests_of, response_json,
    room_command, room_details, rooms_without, sender_of, senders, serve, set_allowed,
    set_on_room, strings_from, with_client, without_client, word,
};
use crate::server::status::{BAD_REQUEST, CONFLICT, OK};
use crate::server::told::{lemma_clients_of, lemma_senders};
use crate::server::{ClientsView, RoomView, StateView};
use crate::{ClaimsView, TokenClaims, YEAR};
use vstd::prelude::*;

verus! {

/// The text of an event in a room.
pub open spec fn event_text(room_id: u128, args: Seq<JsonView>) -> Seq<char> {
    text_of_json(request_json(Some(room_id), args))
}

/// Whether a text is what was sent, to each of these clients that has identified and to nobody
/// else: whoever the channel of a message leads to is one of them.
pub open spec fn reaches(
    sent: Sent,
    text: Seq<char>,
    who: Set<u128>,
    clients: ClientsView,
) -> bool {
    &&& forall|id: u128| #[trigger]
        who.contains(id) && clients.identified.contains_key(id) ==> sent.contains(
            (text, clients.identified[id].1),
        )
    &&& forall|m: (Seq<char>, u64)| #[trigger]
        sent.contains(m) ==> exists|id: u128| #[trigger]
            who.contains(id) && clients.identified.contains_key(id) && m == (
                text,
                clients.identified[id].1,
            )
    &&& forall|id: u128, m: (Seq<char>, u64)|
        #![trigger clients.channel_of(id), sent.contains(m)]
        sent.contains(m) && clients.channel_of(id) == Some(m.1) ==> known(who, clients).contains(id)
}

/// Whether a text is what was sent, once to each of these clients that has identified and to
/// nobody else.
pub open spec fn reaches_once(
    sent: Sent,
    text: Seq<char>,
    who: Set<u128>,
    clients: ClientsView,
) -> bool {
    &&& reaches(sent, text, who, clients)
    &&& sent.no_duplicates()
    &&& sent.len() == known(who, clients).len()
}

/// Those of the clients that have identified.
pub open spec fn known(who: Set<u128>, clients: ClientsView) -> Set<u128> {
    who.filter(|id: u128| clients.identified.contains_key(id))
}

/// The identified clients of these users.
pub open spec fn clients_of_users(users: Seq<Seq<char>>, clients: ClientsView) -> Set<u128> {
    Set::new(
        |id: u128|
            clients.identified.contains_key(id) && users.contains(clients.identified[id].0),
    )
}

/// An event that is told to clients reaches each of them that has identified, and no other.
pub proof fn law_broadcast(
    ids: Seq<u128>,
    room_id: u128,
    args: Seq<JsonView>,
    clients: ClientsView,
)
    requires
        clients.wf(),
    ensures
        reaches(
            broadcast(ids, Some(room_id), args, clients),
            event_text(room_id, args),
            ids.to_set(),
            clients,
        ),
{
    let sent = broadcast(ids, Some(room_id), args, clients);
    let text = event_text(room_id, args);
    let channels = senders(ids, clients);
    let sender = sender_of(clients);
    lemma_filter_map(ids, sender);
    assert forall|id: u128| #[trigger]
        ids.to_set().contains(id) && clients.identified.contains_key(id) implies sent.contains(
        (text, clients.identified[id].1),
    ) by {
        assert(ids.contains(id) && sender(id) is Some);
        let k = channels.index_of(clients.identified[id].1);
        assert(sent[k] == (text, clients.identified[id].1));
    }
    assert forall|m: (Seq<char>, u64)| #[trigger] sent.contains(m) implies exists|id: u128|
        #[trigger]
        ids.to_set().contains(id) && clients.identified.contains_key(id) && m == (
            text,
            clients.identified[id].1,
        ) by {
        let k = sent.index_of(m);
        assert(channels.contains(channels[k]));
        let id = choose|id: u128| #[trigger] ids.contains(id) && sender(id) == Some(channels[k]);
        assert(ids.to_set().contains(id) && clients.identified.contains_key(id));
    }
    assert forall|id: u128, m: (Seq<char>, u64)|
        #![trigger clients.channel_of(id), sent.contains(m)]
        sent.contains(m) && clients.channel_of(id) == Some(m.1) implies known(
        ids.to_set(),
        clients,
    ).contains(id) by {
        let other = choose|other: u128| #[trigger]
            ids.to_set().contains(other) && clients.identified.contains_key(other) && m == (
                text,
                clients.identified[other].1,
            );
        assert(clients.channel_of(other) == Some(m.1));
        assert(other == id);
    }
}

/// An event that is told to clients that are each named once reaches each of them that has
/// identified once.
pub proof fn law_broadcast_once(
    ids: Seq<u128>,
    room_id: u128,
    args: Seq<JsonView>,
    clients: ClientsView,
)
    requires
        clients.wf(),
        ids.no_duplicates(),
    ensures
        reaches_once(
            broadcast(ids, Some(room_id), args, clients),
            event_text(room_id, args),
            ids.to_set(),
            clients,
        ),
{
    let sent = broadcast(ids, Some(room_id), args, clients);
    let p = |id: u128| clients.identified.contains_key(id);
    let kept = ids.filter(p);
    law_broadcast(ids, room_id, args, clients);
    lemma_senders(ids, clients);
    lemma_filter(ids, p);
    assert(sent.no_duplicates()) by {
        assert forall|i: int, j: int|
            0 <= i < sent.len() && 0 <= j < sent.len() && i != j implies #[trigger] sent[i]
            != #[trigger] sent[j] by {
            assert(kept.contains(kept[i]) && kept.contains(kept[j]));
            assert(clients.channel_of(kept[i]) == Some(sent[i].1));
            assert(clients.channel_of(kept[j]) == Some(sent[j].1));
            assert(kept[i] != kept[j]);
        }
    }
    kept.unique_seq_to_set();
    assert(kept.to_set() =~= known(ids.to_set(), clients)) by {
        assert forall|id: u128| kept.to_set().contains(id) <==> known(
            ids.to_set(),
            clients,
        ).contains(id) by {
            assert(kept.contains(id) <==> ids.contains(id) && p(id));
        }
    }
}

/// An event that is told to a set of clients reaches each of them that has identified once.
pub proof fn law_broadcast_to_set(
    who: Set<u128>,
    room_id: u128,
    args: Seq<JsonView>,
    clients: ClientsView,
)
    requires
        clients.wf(),
    ensures
        reaches_once(
            broadcast(ascending(who), Some(room_id), args, clients),
            event_text(room_id, args),
            who,
            clients,
        ),
{
    lemma_ascending(who);
    law_broadcast_once(ascending(who), room_id, args, clients);
    assert(ascending(who).to_set() =~= who) by {
        assert forall|id: u128| ascending(who).to_set().contains(id) <==> who.contains(id) by {
            assert(ascending(who).contains(id) <==> who.contains(id));
        }
    }
}

/// As many of the ascending list meet a condition as of the set.
proof fn lemma_count(ids: Set<u128>, p: spec_fn(u128) -> bool)
    ensures
        ascending(ids).filter(p).len() == ids.filter(p).len(),
{
    let list = ascending(ids).filter(p);
    lemma_ascending(ids);
    lemma_filter(ascending(ids), p);
    list.unique_seq_to_set();
    assert(list.to_set() =~= ids.filter(p)) by {
        assert forall|id: u128| list.to_set().contains(id) <==> ids.filter(p).contains(id) by {
            assert(list.contains(id) <==> ascending(ids).contains(id) && p(id));
            assert(ascending(ids).contains(id) <==> ids.contains(id));
        }
    }
}

/// An event that is told to users that are each named once reaches each of their clients once, and
/// no other.
pub proof fn law_notify(
    users: Seq<Seq<char>>,
    room_id: u128,
    args: Seq<JsonView>,
    clients: ClientsView,
)
    requires
        clients.wf(),
        users.no_duplicates(),
    ensures
        reaches_once(
            notify(users, room_id, args, clients),
            event_text(room_id, args),
            clients_of_users(users, clients),
            clients,
        ),
{
    lemma_clients_of(users, clients);
    law_broadcast_once(users.flat_map(clients_of(clients)), room_id, args, clients);
}

/// A client that joins a room is in it afterwards, and the others who were in it stay. If there
/// were others, each of them that has identified is told, once, and nobody else is, not even the
/// client itself. If there were none, every client of everyone who is allowed in the room is told,
/// once, that a call has begun.
pub proof fn law_join(state: StateView, room_id: u128, client_id: u128, user: Seq<char>)
    requires
        state.wf(),
        state.rooms.contains_key(room_id),
        state.rooms[room_id].allowed.contains(user),
        !state.rooms[room_id].current.contains(client_id),
    ensures
        ({
            let room = state.rooms[room_id];
            let outcome = join_room(state, room_id, client_id, user);
            &&& outcome.answer is Done
            &&& outcome.rooms == state.rooms.insert(
                room_id,
                RoomView { current: room.current.insert(client_id), ..room },
            )
            &&& !room.current.is_empty() ==> reaches_once(
                outcome.sent,
                event_text(room_id, joined_args(client_id, user)),
                room.current,
                state.clients,
            )
            &&& room.current.is_empty() ==> reaches_once(
                outcome.sent,
                event_text(room_id, active_args()),
                clients_of_users(room.allowed, state.clients),
                state.clients,
            )
        }),
{
    let room = state.rooms[room_id];
    law_broadcast_to_set(room.current, room_id, joined_args(client_id, user), state.clients);
    law_notify(room.allowed, room_id, active_args(), state.clients);
}

/// A client that joins is told of each member that has identified, once, and of nobody else.
pub proof fn law_join_members(room: RoomView, clients: ClientsView)
    ensures
        forall|id: u128| #[trigger]
            known(room.current, clients).contains(id) ==> members(room, clients).contains(
                member_details(clients.identified[id].0, id),
            ),
        forall|entry: JsonView| #[trigger]
            members(room, clients).contains(entry) ==> exists|id: u128| #[trigger]
                known(room.current, clients).contains(id) && entry == member_details(
                    clients.identified[id].0,
                    id,
                ),
        members(room, clients).len() == known(room.current, clients).len(),
{
    let ids = ascending(room.current);
    let member = member_of(clients);
    let p = |id: u128| clients.identified.contains_key(id);
    lemma_ascending(room.current);
    lemma_filter_map(ids, member);
    assert((|id: u128| member(id) is Some) =~= p);
    lemma_count(room.current, p);
    assert forall|id: u128| #[trigger] known(room.current, clients).contains(id) implies members(
        room,
        clients,
    ).contains(member_details(clients.identified[id].0, id)) by {
        assert(ids.contains(id) && member(id) is Some);
    }
    assert forall|entry: JsonView| #[trigger]
        members(room, clients).contains(entry) implies exists|id: u128| #[trigger]
        known(room.current, clients).contains(id) && entry == member_details(
            clients.identified[id].0,
            id,
        ) by {
        let id = choose|id: u128| #[trigger] ids.contains(id) && member(id) == Some(entry);
        assert(known(room.current, clients).contains(id));
    }
}

/// A client that leaves is out of the room, and whoever else is in it stays. Each of those that
/// has identified is told, once. If there is nobody else, the room comes to its end, and every
/// client of everyone who was allowed in it is told, once.
pub proof fn law_leave(state: StateView, room_id: u128, client_id: u128, user: Seq<char>)
    requires
        state.wf(),
        state.rooms.contains_key(room_id),
        state.rooms[room_id].current.contains(client_id),
    ensures
        ({
            let room = state.rooms[room_id];
            let rest = room.current.remove(client_id);
            let outcome = leave_room(state, room_id, client_id, user);
            &&& outcome.answer is Done
            &&& !rest.is_empty() ==> {
                &&& outcome.rooms == state.rooms.insert(room_id, RoomView { current: rest, ..room })
                &&& reaches_once(
                    outcome.sent,
                    event_text(room_id, left_args(client_id, user)),
                    rest,
                    state.clients,
                )
            }
            &&& rest.is_empty() ==> {
                &&& outcome.rooms == state.rooms.remove(room_id)
                &&& reaches_once(
                    outcome.sent,
                    event_text(room_id, destroyed_args()),
                    clients_of_users(room.allowed, state.clients),
                    state.clients,
                )
            }
        }),
{
    let room = state.rooms[room_id];
    let rest = room.current.remove(client_id);
    let outcome = leave_room(state, room_id, client_id, user);
    law_broadcast_to_set(rest, room_id, left_args(client_id, user), state.clients);
    law_notify(room.allowed, room_id, destroyed_args(), state.clients);
    if rest.is_empty() {
        assert(outcome.rooms =~= state.rooms.remove(room_id));
        assert(outcome.sent =~= notify(room.allowed, room_id, destroyed_args(), state.clients));
    }
}

/// To join a room and leave it again changes nothing, except that a room nobody was in is gone.
pub proof fn law_join_then_leave(
    state: StateView,
    room_id: u128,
    client_id: u128,
    user: Seq<char>,
)
    requires
        join_room(state, room_id, client_id, user).answer is Done,
    ensures
        ({
            let joined = join_room(state, room_id, client_id, user);
            let left = leave_room(with_rooms(state, joined.rooms), room_id, client_id, user);
            &&& left.answer is Done
            &&& left.rooms == if state.rooms[room_id].current.is_empty() {
                state.rooms.remove(room_id)
            } else {
                state.rooms
            }
        }),
{
    let room = state.rooms[room_id];
    let joined = join_room(state, room_id, client_id, user);
    let left = leave_room(with_rooms(state, joined.rooms), room_id, client_id, user);
    assert(room.current.insert(client_id).remove(client_id) =~= room.current);
    assert(without_client(with_client(room, client_id), client_id) =~= room);
    if room.current.is_empty() {
        assert(left.rooms =~= state.rooms.remove(room_id));
    } else {
        assert(left.rooms =~= state.rooms);
    }
}

/// To leave a room and join it again changes nothing, as long as someone else is in it and the
/// user is still allowed.
pub proof fn law_leave_then_join(
    state: StateView,
    room_id: u128,
    client_id: u128,
    user: Seq<char>,
)
    requires
        state.rooms.contains_key(room_id),
        state.rooms[room_id].current.contains(client_id),
        state.rooms[room_id].allowed.contains(user),
        !state.rooms[room_id].current.remove(client_id).is_empty(),
    ensures
        ({
            let left = leave_room(state, room_id, client_id, user);
            let joined = join_room(with_rooms(state, left.rooms), room_id, client_id, user);
            &&& left.answer is Done
            &&& joined.answer is Done
            &&& joined.rooms == state.rooms
        }),
{
    let room = state.rooms[room_id];
    let left = leave_room(state, room_id, client_id, user);
    let joined = join_room(with_rooms(state, left.rooms), room_id, client_id, user);
    assert(room.current.remove(client_id).insert(client_id) =~= room.current);
    assert(with_client(without_client(room, client_id), client_id) =~= room);
    assert(joined.rooms =~= state.rooms);
}

/// A room that its creator destroys is gone. Every client of everyone who was allowed in it is
/// told, once, and so is every client that was in it and has identified.
pub proof fn law_destroy(state: StateView, room_id: u128)
    requires
        state.wf(),
        state.rooms.contains_key(room_id),
    ensures
        ({
            let room = state.rooms[room_id];
            let outcome = destroy_room(state, room_id, room.creator);
            &&& outcome.answer is Done
            &&& outcome.rooms == state.rooms.remove(room_id)
            &&& reaches_once(
                outcome.sent,
                event_text(room_id, destroyed_args()),
                clients_of_users(room.allowed, state.clients),
                state.clients,
            )
            &&& known(room.current, state.clients).subset_of(
                clients_of_users(room.allowed, state.clients),
            )
        }),
{
    law_notify(state.rooms[room_id].allowed, room_id, destroyed_args(), state.clients);
}

/// A message of a member goes, once, to each member that it names and that has identified, and to
/// nobody else. It changes no room.
pub proof fn law_message(
    state: StateView,
    room_id: u128,
    client_id: u128,
    what: JsonView,
    to: Seq<JsonView>,
)
    requires
        state.wf(),
        state.rooms.contains_key(room_id),
        state.rooms[room_id].current.contains(client_id),
    ensures
        ({
            let room = state.rooms[room_id];
            let outcome = message_room(state, room_id, client_id, Some(what), Some(to));
            let named = room.current.filter(|id: u128| to.contains(word(id_text(id))));
            &&& outcome.answer == AnswerView::Done(Seq::empty())
            &&& outcome.rooms == state.rooms
            &&& reaches_once(
                outcome.sent,
                event_text(room_id, message_args(what, client_id)),
                named,
                state.clients,
            )
        }),
{
    let room = state.rooms[room_id];
    let ids = ascending(room.current);
    let p = |id: u128| to.contains(word(id_text(id)));
    let named = room.current.filter(p);
    let list = listed_in(ids, to);
    lemma_ascending(room.current);
    lemma_filter(ids, p);
    law_broadcast_once(list, room_id, message_args(what, client_id), state.clients);
    assert(list.to_set() =~= named) by {
        assert forall|id: u128| list.to_set().contains(id) <==> named.contains(id) by {
            assert(list.contains(id) <==> ids.contains(id) && p(id));
            assert(ids.contains(id) <==> room.current.contains(id));
        }
    }
}

/// The list of rooms that a user is given holds each room that the user is allowed in, once, and
/// no other.
pub proof fn law_list(rooms: Map<u128, RoomView>, user: Seq<char>)
    ensures
        ({
            let allowed = rooms.dom().filter(|id: u128| rooms[id].allowed.contains(user));
            let list = list_rooms(rooms, user);
            &&& forall|id: u128| #[trigger]
                allowed.contains(id) ==> list.contains(room_details(id, rooms[id]))
            &&& forall|entry: JsonView| #[trigger]
                list.contains(entry) ==> exists|id: u128| #[trigger]
                    allowed.contains(id) && entry == room_details(id, rooms[id])
            &&& list.len() == allowed.len()
        }),
{
    let p = |id: u128| rooms[id].allowed.contains(user);
    let allowed = rooms.dom().filter(p);
    let ids = ascending(rooms.dom());
    let shown = listing(rooms, user);
    let list = list_rooms(rooms, user);
    lemma_ascending(rooms.dom());
    lemma_filter_map(ids, shown);
    assert((|id: u128| shown(id) is Some) =~= p);
    lemma_count(rooms.dom(), p);
    assert forall|id: u128| #[trigger] allowed.contains(id) implies list.contains(
        room_details(id, rooms[id]),
    ) by {
        assert(ids.contains(id) && shown(id) is Some);
    }
    assert forall|entry: JsonView| #[trigger] list.contains(entry) implies exists|id: u128|
        #[trigger]
        allowed.contains(id) && entry == room_details(id, rooms[id]) by {
        let id = choose|id: u128| #[trigger] ids.contains(id) && shown(id) == Some(entry);
        assert(allowed.contains(id));
    }
}

/// A room can be created under an identifier that is not in use and a name that its creator has
/// not used. It is then there, without anyone in it. The creator alone is allowed in it, and every
/// client of the creator is told, once.
pub proof fn law_create(state: StateView, room_id: u128, user: Seq<char>, name: Seq<char>)
    requires
        state.wf(),
        !state.rooms.contains_key(room_id),
        !has_room(state.rooms, user, name),
    ensures
        ({
            let outcome = create_room(state, room_id, user, Some(name));
            let room = RoomView {
                creator: user,
                name,
                allowed: seq![user],
                current: Set::empty(),
            };
            &&& outcome.answer == AnswerView::Done(Seq::empty())
            &&& outcome.rooms == state.rooms.insert(room_id, room)
            &&& reaches_once(
                outcome.sent,
                event_text(room_id, created_args(room_id, room)),
                clients_of_users(seq![user], state.clients),
                state.clients,
            )
        }),
{
    let room = new_room(user, name);
    law_notify(seq![user], room_id, created_args(room_id, room), state.clients);
}

/// Once a user has created a room, neither its name can be used again by the same user, nor its
/// identifier by anyone.
pub proof fn law_create_twice(
    state: StateView,
    room_id: u128,
    user: Seq<char>,
    name: Seq<char>,
    other_id: u128,
    other_user: Seq<char>,
    other_name: Option<Seq<char>>,
)
    requires
        create_room(state, room_id, user, Some(name)).answer is Done,
    ensures
        ({
            let after = with_rooms(state, create_room(state, room_id, user, Some(name)).rooms);
            &&& create_room(after, room_id, other_user, other_name).answer == AnswerView::Refused(
                CONFLICT,
                "Room ID already in use"@,
            )
            &&& !after.rooms.contains_key(other_id) ==> create_room(
                after,
                other_id,
                user,
                Some(name),
            ).answer == AnswerView::Refused(CONFLICT, "Room already exists"@)
        }),
{
    let after = with_rooms(state, create_room(state, room_id, user, Some(name)).rooms);
    assert(after.rooms.contains_key(room_id));
    assert(has_room(after.rooms, user, name));
}

/// A new list of allowed users is in force afterwards, with the creator on it. The room keeps its
/// creator and its name. It comes to its end if there were clients in it and none of them may
/// stay, and only then.
pub proof fn law_set(state: StateView, room_id: u128, listed: Seq<Seq<char>>)
    requires
        state.rooms.contains_key(room_id),
    ensures
        ({
            let room = state.rooms[room_id];
            let outcome = set_on_room(
                state,
                room_id,
                room.creator,
                Some("allowed-users"@),
                listed,
            );
            let current = remaining(state, room_id, listed);
            &&& outcome.answer == AnswerView::Done(Seq::empty())
            &&& outcome.rooms == if !room.current.is_empty() && current.is_empty() {
                state.rooms.remove(room_id)
            } else {
                state.rooms.insert(
                    room_id,
                    RoomView {
                        creator: room.creator,
                        name: room.name,
                        allowed: allow_list(listed, room.creator),
                        current,
                    },
                )
            }
        }),
{
    let room = state.rooms[room_id];
    let outcome = set_on_room(state, room_id, room.creator, Some("allowed-users"@), listed);
    let current = remaining(state, room_id, listed);
    if !room.current.is_empty() && current.is_empty() {
        assert(outcome.rooms =~= state.rooms.remove(room_id));
    }
}

/// Who is still in a room under a new list of allowed users.
pub open spec fn remaining(state: StateView, room_id: u128, listed: Seq<Seq<char>>) -> Set<u128> {
    let room = state.rooms[room_id];
    remove_users(
        absent_from(room.allowed, allow_list(listed, room.creator)),
        room_id,
        room.current,
        state.clients,
    ).0
}

/// What the creator sets the allowed users to is what the creator is then told they are.
pub proof fn law_get_after_set(state: StateView, room_id: u128, listed: Seq<Seq<char>>)
    requires
        state.rooms.contains_key(room_id),
        set_allowed(state, room_id, listed).0.contains_key(room_id),
    ensures
        ({
            let creator = state.rooms[room_id].creator;
            let what = Some("allowed-users"@);
            let after = with_rooms(state, set_on_room(state, room_id, creator, what, listed).rooms);
            get_from_room(after, room_id, creator, what).answer == AnswerView::Done(
                allow_list(listed, creator).map_values(|s: Seq<char>| word(s)),
            )
        }),
{
    law_set(state, room_id, listed);
}

/// A command about one room leaves every other room as it is.
pub proof fn law_other_rooms_untouched(
    state: StateView,
    room_id: u128,
    args: Seq<JsonView>,
    client_id: u128,
    user: Seq<char>,
    other: u128,
)
    requires
        other != room_id,
    ensures
        ({
            let rooms = room_command(state, room_id, args, client_id, user).rooms;
            &&& rooms.contains_key(other) <==> state.rooms.contains_key(other)
            &&& state.rooms.contains_key(other) ==> rooms[other] == state.rooms[other]
        }),
{
}

/// Only its creator can change who is allowed in a room or end it. What anyone else does leaves
/// the list as it is, and the room in place unless its last member leaves.
pub proof fn law_only_creator_decides(
    state: StateView,
    room_id: u128,
    args: Seq<JsonView>,
    client_id: u128,
    user: Seq<char>,
)
    requires
        state.rooms.contains_key(room_id),
        state.rooms[room_id].creator != user,
    ensures
        ({
            let room = state.rooms[room_id];
            let rooms = room_command(state, room_id, args, client_id, user).rooms;
            &&& rooms.contains_key(room_id) ==> rooms[room_id].allowed == room.allowed
            &&& !rooms.contains_key(room_id) ==> arg_str(args, 0) == Some("leave"@)
                && room.current == set![client_id]
        }),
{
    let room = state.rooms[room_id];
    if room.current.contains(client_id) && room.current.remove(client_id).is_empty() {
        assert(room.current =~= set![client_id]) by {
            assert forall|id: u128| room.current.contains(id) implies id == client_id by {
                if id != client_id {
                    assert(room.current.remove(client_id).contains(id));
                }
            }
        }
    }
}

/// A room keeps its creator and its name for as long as it is there.
pub proof fn law_creator_and_name_stay(
    state: StateView,
    room_id: u128,
    args: Seq<JsonView>,
    client_id: u128,
    user: Seq<char>,
)
    requires
        state.rooms.contains_key(room_id),
        room_command(state, room_id, args, client_id, user).rooms.contains_key(room_id),
    ensures
        ({
            let room = room_command(state, room_id, args, client_id, user).rooms[room_id];
            room.creator == state.rooms[room_id].creator && room.name == state.rooms[room_id].name
        }),
{
}

/// Whoever is in a room after a command and was not before is the client that sent it, for a user
/// who is allowed in the room.
pub proof fn law_only_the_allowed_join(
    state: StateView,
    room_id: u128,
    args: Seq<JsonView>,
    client_id: u128,
    user: Seq<char>,
    id: u128,
)
    requires
        state.rooms.contains_key(room_id),
        !state.rooms[room_id].current.contains(id),
        room_command(state, room_id, args, client_id, user).rooms.contains_key(room_id),
        room_command(state, room_id, args, client_id, user).rooms[room_id].current.contains(id),
    ensures
        id == client_id,
        state.rooms[room_id].allowed.contains(user),
{
    law_remove_users(
        absent_from(
            state.rooms[room_id].allowed,
            allow_list(strings_from(args, 2), state.rooms[room_id].creator),
        ),
        room_id,
        state.rooms[room_id].current,
        state.clients,
    );
}

/// A command that is refused changes no room and tells nobody.
pub proof fn law_refused_changes_nothing(
    state: StateView,
    room_id: u128,
    args: Seq<JsonView>,
    client_id: u128,
    user: Seq<char>,
)
    requires
        room_command(state, room_id, args, client_id, user).answer is Refused,
    ensures
        room_command(state, room_id, args, client_id, user).rooms == state.rooms,
        room_command(state, room_id, args, client_id, user).sent.len() == 0,
{
}

/// The fields of a response are what it was made of.
pub proof fn law_response_fields(code: u16, args: Seq<JsonView>, request_id: Seq<char>)
    ensures
        ({
            let fields = response_json(code, args, request_id).as_object();
            &&& fields is Some
            &&& lookup_str(fields->0, "type"@) == Some("response"@)
            &&& lookup(fields->0, "status_code"@) == Some(JsonView::Uint(code as u64))
            &&& lookup(fields->0, "args"@) == Some(JsonView::Array(args))
            &&& lookup_str(fields->0, "request_id"@) == Some(request_id)
        }),
{
    reveal_strlit("type");
    reveal_strlit("status_code");
    reveal_strlit("args");
    reveal_strlit("request_id");
    assert("type"@[0] == 't' && "args"@[0] == 'a');
    assert("status_code"@.len() == 11 && "args"@.len() == 4 && "request_id"@.len() == 10);
    let fields = response_json(code, args, request_id).as_object()->0;
    lemma_lookup(fields, "type"@, 0);
    lemma_lookup(fields, "status_code"@, 1);
    lemma_lookup(fields, "args"@, 2);
    lemma_lookup(fields, "request_id"@, 3);
}

/// The status code of a response.
pub open spec fn status_of(response: JsonView) -> Option<JsonView> {
    match response.as_object() {
        Some(fields) => lookup(fields, "status_code"@),
        None => None,
    }
}

/// The request that a response answers.
pub open spec fn request_id_of(response: JsonView) -> Option<Seq<char>> {
    match response.as_object() {
        Some(fields) => lookup_str(fields, "request_id"@),
        None => None,
    }
}

/// Each request is answered with a response that bears its identifier, or none where it has none.
/// If the response says anything but that all is well, no room was changed and nobody was told
/// anything.
pub proof fn law_response(state: StateView, request: Fields, client_id: u128, user: Seq<char>)
    ensures
        ({
            let step = handle_one(state, request, client_id, user);
            &&& request_id_of(step.response) == match lookup_str(request, "request_id"@) {
                Some(request_id) => Some(request_id),
                None => Some(""@),
            }
            &&& status_of(step.response) != Some(JsonView::Uint(OK as u64)) ==> step.rooms
                == state.rooms && step.sent.len() == 0
        }),
{
    reveal(handle_one);
    let step = handle_one(state, request, client_id, user);
    assert forall|code: u16, args: Seq<JsonView>, request_id: Seq<char>| #[trigger]
        response_json(code, args, request_id) == step.response implies request_id_of(step.response)
        == Some(request_id) && status_of(step.response) == Some(JsonView::Uint(code as u64)) by {
        law_response_fields(code, args, request_id);
    }
}

/// The arguments of a response.
pub open spec fn args_of(response: JsonView) -> Option<JsonView> {
    match response.as_object() {
        Some(fields) => lookup(fields, "args"@),
        None => None,
    }
}

/// Whether a response says that all is well, or else why not: in a single text that is not empty.
pub open spec fn says_why(response: JsonView) -> bool {
    status_of(response) != Some(JsonView::Uint(OK as u64)) ==> match args_of(response) {
        Some(JsonView::Array(args)) => args.len() == 1 && match args[0] {
            JsonView::Str(reason) => reason.len() > 0,
            _ => false,
        },
        _ => false,
    }
}

/// A command is refused for a reason, with a code that does not say that all is well.
pub proof fn law_refused_for_a_reason(
    state: StateView,
    room_id: u128,
    args: Seq<JsonView>,
    client_id: u128,
    user: Seq<char>,
)
    ensures
        room_command(state, room_id, args, client_id, user).answer matches AnswerView::Refused(
            code,
            reason,
        ) ==> code != OK && reason.len() > 0,
{
    reveal_strlit("Room ID already in use");
    reveal_strlit("Room name missing");
    reveal_strlit("Room already exists");
    reveal_strlit("No such room");
    reveal_strlit("Forbidden");
    reveal_strlit("Missing room get argument");
    reveal_strlit("Unknown room get argument");
    reveal_strlit("room get not allowed");
    reveal_strlit("Missing room set argument");
    reveal_strlit("Unknown room set argument");
    reveal_strlit("room set not allowed");
    reveal_strlit("Already in the room");
    reveal_strlit("Not a member of room");
    reveal_strlit("Not a room member");
    reveal_strlit("Bad request");
    reveal_strlit("Invalid room argument");
}

/// Every response to a request that says anything but that all is well says why.
pub proof fn law_error_says_why(
    state: StateView,
    request: Fields,
    client_id: u128,
    user: Seq<char>,
)
    ensures
        says_why(handle_one(state, request, client_id, user).response),
{
    reveal(handle_one);
    reveal_strlit("Bad Request");
    reveal_strlit("Empty args");
    reveal_strlit("Incorrect args");
    reveal_strlit("room_id not specified");
    reveal_strlit("Bad room_id, must be UUID4");
    let response = handle_one(state, request, client_id, user).response;
    let room_id = lookup_str(request, "room_id"@);
    let args = match lookup(request, "args"@) {
        Some(v) => v.as_array(),
        None => None,
    };
    if room_id is Some && id_of_text(room_id->0) is Some && args is Some {
        law_refused_for_a_reason(
            state,
            id_of_text(room_id->0)->0,
            args->0.drop_first(),
            client_id,
            user,
        );
    }
    assert forall|code: u16, args: Seq<JsonView>, request_id: Seq<char>| #[trigger]
        response_json(code, args, request_id) == response implies args_of(response) == Some(
        JsonView::Array(args),
    ) && status_of(response) == Some(JsonView::Uint(code as u64)) by {
        law_response_fields(code, args, request_id);
    }
}

/// Every response to a message that says anything but that all is well says why, whether the
/// message is a batch of requests or not.
pub proof fn law_errors_say_why(
    state: StateView,
    json: Option<JsonView>,
    client_id: u128,
    user: Seq<char>,
)
    ensures
        ({
            let responses = handle_message(state, json, client_id, user).responses;
            forall|i: int| 0 <= i < responses.len() ==> says_why(#[trigger] responses[i])
        }),
{
    let responses = handle_message(state, json, client_id, user).responses;
    if json is Some && requests_of(json->0) is Some {
        let requests = requests_of(json->0)->0;
        law_batch_responses(state, requests, client_id, user);
        assert forall|i: int| 0 <= i < responses.len() implies says_why(#[trigger] responses[i]) by {
            law_error_says_why(
                with_rooms(state, handle_all(state, requests.take(i), client_id, user).rooms),
                requests[i],
                client_id,
                user,
            );
        }
    } else {
        reveal_strlit("Bad Request");
        law_response_fields(BAD_REQUEST, seq![word("Bad Request"@)], ""@);
        assert(responses[0] == response_json(BAD_REQUEST, seq![word("Bad Request"@)], ""@));
    }
}

/// A request that is none, or lacks its identifier or its arguments, is answered with the words
/// `Bad Request`.
pub proof fn law_malformed(state: StateView, request: Fields, client_id: u128, user: Seq<char>)
    requires
        ({
            ||| lookup_str(request, "type"@) != Some("request"@)
            ||| lookup_str(request, "request_id"@) is None
            ||| lookup(request, "args"@) is None
            ||| lookup(request, "args"@)->0.as_array() is None
        }),
    ensures
        handle_one(state, request, client_id, user).response == response_json(
            BAD_REQUEST,
            seq![word("Bad Request"@)],
            match lookup_str(request, "request_id"@) {
                Some(request_id) => request_id,
                None => ""@,
            },
        ),
{
    reveal(handle_one);
}

/// A batch of requests is answered with one response for each request, in their order. Each is
/// what its request comes to in the state that the requests before it have left.
pub proof fn law_batch_responses(
    state: StateView,
    requests: Seq<Fields>,
    client_id: u128,
    user: Seq<char>,
)
    ensures
        ({
            let batch = handle_all(state, requests, client_id, user);
            &&& batch.responses.len() == requests.len()
            &&& forall|i: int|
                0 <= i < requests.len() ==> #[trigger] batch.responses[i] == handle_one(
                    with_rooms(state, handle_all(state, requests.take(i), client_id, user).rooms),
                    requests[i],
                    client_id,
                    user,
                ).response
        }),
    decreases requests.len(),
{
    if requests.len() > 0 {
        let rest = requests.drop_last();
        let batch = handle_all(state, requests, client_id, user);
        let before = handle_all(state, rest, client_id, user);
        law_batch_responses(state, rest, client_id, user);
        assert forall|i: int| 0 <= i < requests.len() implies #[trigger] batch.responses[i]
            == handle_one(
            with_rooms(state, handle_all(state, requests.take(i), client_id, user).rooms),
            requests[i],
            client_id,
            user,
        ).response by {
            if i < rest.len() {
                assert(rest.take(i) =~= requests.take(i));
                assert(before.responses[i] == batch.responses[i]);
            } else {
                assert(requests.take(i) =~= rest);
            }
        }
    }
}

/// It makes no difference to the rooms, to the responses or to what others are told whether
/// requests come in one batch or in two.
pub proof fn law_batch_split(
    state: StateView,
    first: Seq<Fields>,
    second: Seq<Fields>,
    client_id: u128,
    user: Seq<char>,
)
    ensures
        ({
            let whole = handle_all(state, first + second, client_id, user);
            let one = handle_all(state, first, client_id, user);
            let two = handle_all(with_rooms(state, one.rooms), second, client_id, user);
            &&& whole.rooms == two.rooms
            &&& whole.responses == one.responses + two.responses
            &&& whole.sent == one.sent + two.sent
        }),
    decreases second.len(),
{
    let one = handle_all(state, first, client_id, user);
    let middle = with_rooms(state, one.rooms);
    let two = handle_all(middle, second, client_id, user);
    let whole = handle_all(state, first + second, client_id, user);
    if second.len() == 0 {
        assert(first + second =~= first);
        assert(whole.responses =~= one.responses + two.responses);
        assert(whole.sent =~= one.sent + two.sent);
    } else {
        let rest = second.drop_last();
        law_batch_split(state, first, rest, client_id, user);
        assert((first + second).drop_last() =~= first + rest);
        assert((first + second).last() == second.last());
        let sofar = handle_all(middle, rest, client_id, user);
        assert(with_rooms(state, sofar.rooms) == with_rooms(middle, sofar.rooms));
        assert(whole.responses =~= one.responses + two.responses);
        assert(whole.sent =~= one.sent + two.sent);
    }
}

/// A client that was forgotten is nowhere, and everyone else is where they were.
pub proof fn law_remove_client(clients: ClientsView, client_id: u128)
    requires
        clients.wf(),
    ensures
        ({
            let after = clients.without_connected(client_id).without_identified(client_id);
            &&& !after.connected.contains_key(client_id)
            &&& !after.identified.contains_key(client_id)
            &&& forall|user: Seq<char>| #[trigger]
                after.user_clients.contains_key(user) ==> !after.user_clients[user].contains_key(
                    client_id,
                )
            &&& after.connected == clients.connected.remove(client_id)
            &&& after.identified == clients.identified.remove(client_id)
            &&& forall|user: Seq<char>, id: u128|
                id != client_id ==> ((after.user_clients.contains_key(user)
                    && #[trigger] after.user_clients[user].contains_key(id)) <==> (
                clients.user_clients.contains_key(user) && clients.user_clients[user].contains_key(
                    id,
                )))
        }),
{
    let after = clients.without_connected(client_id).without_identified(client_id);
    if clients.identified.contains_key(client_id) {
        let gone = clients.identified[client_id].0;
        let rest = clients.user_clients[gone].remove(client_id);
        assert forall|user: Seq<char>, id: u128| id != client_id implies ((
        after.user_clients.contains_key(user)
            && #[trigger] after.user_clients[user].contains_key(id)) <==> (
        clients.user_clients.contains_key(user) && clients.user_clients[user].contains_key(
            id,
        ))) by {
            if user == gone && clients.user_clients[user].contains_key(id) {
                assert(rest.dom().contains(id));
            }
        }
        assert forall|user: Seq<char>| #[trigger]
            after.user_clients.contains_key(user) implies !after.user_clients[user].contains_key(
            client_id,
        ) by {
            if user != gone {
                assert(!clients.user_clients[user].contains_key(client_id));
            }
        }
    } else {
        assert(after.identified =~= clients.identified.remove(client_id));
        assert forall|user: Seq<char>| #[trigger]
            after.user_clients.contains_key(user) implies !after.user_clients[user].contains_key(
            client_id,
        ) by {
            assert(!clients.user_clients[user].contains_key(client_id));
        }
    }
}

/// A client that is gone is in no room. Whoever else was in a room is still in it, also if the
/// room was created by the one who is gone. Only a room that it was in alone is gone with it.
pub proof fn law_disconnect(rooms: Map<u128, RoomView>, client_id: u128)
    ensures
        ({
            let after = rooms_without(rooms, client_id);
            &&& forall|id: u128| #[trigger]
                after.contains_key(id) ==> rooms.contains_key(id) && after[id] == (RoomView {
                    current: rooms[id].current.remove(client_id),
                    ..rooms[id]
                }) && !after[id].current.contains(client_id)
            &&& forall|id: u128| #[trigger]
                rooms.contains_key(id) ==> (after.contains_key(id) <==> rooms[id].current
                    != set![client_id])
        }),
{
    let after = rooms_without(rooms, client_id);
    assert forall|id: u128| #[trigger] rooms.contains_key(id) implies (after.contains_key(id)
        <==> rooms[id].current != set![client_id]) by {
        let current = rooms[id].current;
        if current == set![client_id] {
            assert(current.remove(client_id) =~= Set::empty());
        }
        if current.contains(client_id) && current.remove(client_id).is_empty() {
            assert forall|other: u128| current.contains(other) implies other == client_id by {
                if other != client_id {
                    assert(current.remove(client_id).contains(other));
                }
            }
            assert(current =~= set![client_id]);
        }
    }
}

/// Once a client is forgotten and gone from all rooms, it is as if it had never come: nobody
/// knows it, its channel leads to nobody, and it could connect again.
pub proof fn law_gone_without_trace(state: StateView, client_id: u128)
    requires
        state.wf(),
    ensures
        ({
            let clients = state.clients.without_connected(client_id).without_identified(client_id);
            let after = StateView { clients, rooms: rooms_without(state.rooms, client_id) };
            &&& after.wf()
            &&& after.unknown(client_id)
            &&& state.clients.channel_of(client_id) matches Some(tx) ==> after.clients.is_free(tx)
        }),
{
    let clients = state.clients.without_connected(client_id).without_identified(client_id);
    law_remove_keeps_wf(state, client_id);
    law_disconnect_keeps_wf(StateView { clients, ..state }, client_id);
    assert forall|id: u128| (#[trigger] clients.channel_of(id)) is Some implies id != client_id
        && clients.channel_of(id) == state.clients.channel_of(id) by {}
}

/// A message that is no batch of requests is answered with a single response, a bad request. It
/// changes no room and tells nobody.
pub proof fn law_unreadable(
    state: StateView,
    json: Option<JsonView>,
    client_id: u128,
    user: Seq<char>,
)
    requires
        json matches Some(json) ==> requests_of(json) is None,
    ensures
        ({
            let batch = handle_message(state, json, client_id, user);
            &&& batch.rooms == state.rooms
            &&& batch.sent.len() == 0
            &&& batch.responses.len() == 1
            &&& batch.responses[0] == response_json(
                BAD_REQUEST,
                seq![word("Bad Request"@)],
                ""@,
            )
        }),
{
}

/// Whether a reply is what a message comes to after a run of messages, and another run is that run
/// with the message in addition. The message is handled as the requests that it holds, or else as
/// a single error.
pub open spec fn is_turn(
    state: StateView,
    before: Run,
    message: Seq<char>,
    reply: Seq<char>,
    after: Run,
    client_id: u128,
    user: Seq<char>,
) -> bool {
    let found = with_rooms(state, before.rooms);
    let batch = handle_message(found, json_of_text(message), client_id, user);
    &&& reply == text_of_json(JsonView::Array(batch.responses))
    &&& after.replies == before.replies.push(reply)
    &&& after.rooms == batch.rooms
    &&& after.sent == before.sent + batch.sent
    &&& match json_of_text(message) {
        Some(json) => match requests_of(json) {
            Some(requests) => batch == handle_all(found, requests, client_id, user),
            None => is_bad_request(batch, before.rooms),
        },
        None => is_bad_request(batch, before.rooms),
    }
}

/// However many messages a client sends, each gets one reply, in their order: what it comes to in
/// the state that the messages before it have left. A message that is no batch of requests gets a
/// single error, changes no room, tells nobody, and the messages after it are served all the same.
pub proof fn law_serve(
    state: StateView,
    messages: Seq<Seq<char>>,
    client_id: u128,
    user: Seq<char>,
)
    ensures
        serve(state, messages, client_id, user).replies.len() == messages.len(),
        forall|i: int|
            0 <= i < messages.len() ==> is_turn(
                state,
                serve(state, messages.take(i), client_id, user),
                messages[i],
                #[trigger] serve(state, messages, client_id, user).replies[i],
                serve(state, messages.take(i + 1), client_id, user),
                client_id,
                user,
            ),
    decreases messages.len(),
{
    if messages.len() > 0 {
        let rest = messages.drop_last();
        let run = serve(state, messages, client_id, user);
        let earlier = serve(state, rest, client_id, user);
        let found = with_rooms(state, earlier.rooms);
        let json = json_of_text(messages.last());
        law_serve(state, rest, client_id, user);
        if json is None || requests_of(json->0) is None {
            law_unreadable(found, json, client_id, user);
        }
        assert forall|i: int| 0 <= i < messages.len() implies is_turn(
            state,
            serve(state, messages.take(i), client_id, user),
            messages[i],
            #[trigger] run.replies[i],
            serve(state, messages.take(i + 1), client_id, user),
            client_id,
            user,
        ) by {
            if i < rest.len() {
                assert(rest.take(i) =~= messages.take(i));
                assert(rest.take(i + 1) =~= messages.take(i + 1));
                assert(rest[i] == messages[i]);
                assert(earlier.replies[i] == run.replies[i]);
            } else {
                assert(messages.take(i) =~= rest);
                assert(messages.take(i + 1) =~= messages);
            }
        }
    }
}

/// Whether a batch is a single error that changes no room and tells nobody.
pub open spec fn is_bad_request(batch: Batch, rooms: Map<u128, RoomView>) -> bool {
    &&& batch.rooms == rooms
    &&& batch.sent.len() == 0
    &&& batch.responses == seq![response_json(BAD_REQUEST, seq![word("Bad Request"@)], ""@)]
}

/// Whatever messages a client sends, the server stays as it should be. When the client is gone
/// afterwards, it is in no room.
pub proof fn law_serve_keeps_wf(
    state: StateView,
    messages: Seq<Seq<char>>,
    client_id: u128,
    user: Seq<char>,
)
    requires
        state.wf(),
        state.serves(client_id, user),
    ensures
        ({
            let rooms = serve(state, messages, client_id, user).rooms;
            let left = rooms_without(rooms, client_id);
            &&& with_rooms(state, rooms).wf()
            &&& with_rooms(state, left).wf()
            &&& forall|id: u128| #[trigger]
                left.contains_key(id) ==> !left[id].current.contains(client_id)
        }),
    decreases messages.len(),
{
    let rooms = serve(state, messages, client_id, user).rooms;
    if messages.len() == 0 {
        assert(with_rooms(state, rooms) == state);
    } else {
        let before = with_rooms(
            state,
            serve(state, messages.drop_last(), client_id, user).rooms,
        );
        let json = json_of_text(messages.last());
        law_serve_keeps_wf(state, messages.drop_last(), client_id, user);
        if json is Some && requests_of(json->0) is Some {
            law_requests_keep_wf(before, requests_of(json->0)->0, client_id, user);
            assert(with_rooms(before, rooms) == with_rooms(state, rooms));
        }
    }
    law_disconnect_keeps_wf(with_rooms(state, rooms), client_id);
    law_disconnect(rooms, client_id);
}

/// A client that gives a name as it is, of whatever characters, is identified by that name, as
/// long as the name is not read as a payload.
pub proof fn law_plain_name<
    P: Fn(&str) -> Option<IdentifyPayload>,
    C: Fn(&str, &str) -> Option<TokenClaims>,
>(
    name: Seq<char>,
    key: Seq<char>,
    now: u64,
    read_payload: P,
    read_claims: C,
    identity: Option<IdentityView>,
)
    requires
        identifies("IDENTIFY "@ + name, key, now, read_payload, read_claims, identity),
        forall|s: &str, p: Option<IdentifyPayload>| #[trigger]
            read_payload.ensures((s,), p) && s@ == name ==> p is None,
    ensures
        identity == Some(IdentityView { user_id: name, version: "0.2.0"@ }),
{
    lemma_ident_of(name);
}

/// A client that gives a token is identified as the user that the token names, if the token is
/// read with the key of the server and still good. Otherwise it is not identified at all.
pub proof fn law_token<
    P: Fn(&str) -> Option<IdentifyPayload>,
    C: Fn(&str, &str) -> Option<TokenClaims>,
>(
    ident: Seq<char>,
    key: Seq<char>,
    now: u64,
    read_payload: P,
    read_claims: C,
    payload: PayloadView,
    claims: Option<ClaimsView>,
    identity: Option<IdentityView>,
)
    requires
        identifies("IDENTIFY "@ + ident, key, now, read_payload, read_claims, identity),
        forall|s: &str, p: Option<IdentifyPayload>| #[trigger]
            read_payload.ensures((s,), p) && s@ == ident ==> p is Some
                && p->0.client_version@ == payload.client_version && p->0.token@ == payload.token,
        forall|s: &str, k: &str, c: Option<TokenClaims>| #[trigger]
            read_claims.ensures((s, k), c) && s@ == payload.token && k@ == key ==> match c {
                Some(c) => claims == Some(
                    ClaimsView { username: c.username@, email: c.email@, exp: c.exp },
                ),
                None => claims is None,
            },
    ensures
        identity == match claims {
            Some(claims) => if now <= claims.exp {
                Some(IdentityView { user_id: claims.username, version: payload.client_version })
            } else {
                None
            },
            None => None,
        },
{
    lemma_ident_of(ident);
}

/// A message that does not start with `IDENTIFY ` identifies nobody, whatever the readers are.
pub proof fn law_no_identification<
    P: Fn(&str) -> Option<IdentifyPayload>,
    C: Fn(&str, &str) -> Option<TokenClaims>,
>(
    msg: Seq<char>,
    key: Seq<char>,
    now: u64,
    read_payload: P,
    read_claims: C,
    identity: Option<IdentityView>,
)
    requires
        identifies(msg, key, now, read_payload, read_claims, identity),
        !exists|rest: Seq<char>| msg == #[trigger] ("IDENTIFY "@ + rest),
    ensures
        identity is None,
{
    if ident_of(msg) is Some {
        let rest = msg.skip("IDENTIFY "@.len() as int);
        assert(msg =~= "IDENTIFY "@ + rest);
    }
}

/// What a reader can make of a text is what it can return for it.
pub proof fn law_readers<
    P: Fn(&str) -> Option<IdentifyPayload>,
    C: Fn(&str, &str) -> Option<TokenClaims>,
>(
    read_payload: P,
    read_claims: C,
    s: &str,
    k: &str,
    p: Option<IdentifyPayload>,
    c: Option<TokenClaims>,
)
    ensures
        read_payload.ensures((s,), p) ==> reads_payload(
            read_payload,
            s@,
            match p {
                Some(p) => Some(
                    PayloadView { client_version: p.client_version@, token: p.token@ },
                ),
                None => None,
            },
        ),
        read_claims.ensures((s, k), c) ==> reads_claims(
            read_claims,
            s@,
            k@,
            match c {
                Some(c) => Some(ClaimsView { username: c.username@, email: c.email@, exp: c.exp }),
                None => None,
            },
        ),
{
}

/// Claims are accepted as they are up to the second that they are good until, and are expired
/// afterwards. Where there are none, the token is invalid.
pub proof fn law_accepted_claims(claims: ClaimsView, now: u64)
    ensures
        now <= claims.exp ==> accepted_claims(Some(claims), now) == Ok::<_, TokenError>(claims),
        now > claims.exp ==> accepted_claims(Some(claims), now) == Err::<ClaimsView, _>(
            TokenError::Expired,
        ),
        accepted_claims(None, now) == Err::<ClaimsView, _>(TokenError::Invalid),
{
}

/// What follows `IDENTIFY ` is what follows it.
proof fn lemma_ident_of(ident: Seq<char>)
    ensures
        ident_of("IDENTIFY "@ + ident) == Some(ident),
{
    let msg = "IDENTIFY "@ + ident;
    assert("IDENTIFY "@.is_prefix_of(msg)) by {
        assert(msg.take("IDENTIFY "@.len() as int) =~= "IDENTIFY "@);
    }
    assert(msg.skip("IDENTIFY "@.len() as int) =~= ident);
}

/// A token of the echo client is accepted until a year after it was made, and not afterwards.
pub proof fn law_echo_client_token(made: u64, now: u64)
    requires
        made + YEAR <= u64::MAX,
    ensures
        ({
            let claims = ClaimsView {
                username: "echo-client"@,
                email: "info@gigroom.com"@,
                exp: (made + YEAR) as u64,
            };
            accepted_claims(Some(claims), now) == if now <= made + YEAR {
                Ok::<_, TokenError>(claims)
            } else {
                Err(TokenError::Expired)
            }
        }),
{
}

} // verus!
