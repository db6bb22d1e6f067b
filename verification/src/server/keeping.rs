//! What every operation of the server keeps.

use crate::ids::id_of_text;
use crate::json::{JsonView, lookup, lookup_str};
use crate::lists::{lemma_filter, lemma_push_contains};
use crate::server::identity::IdentityView;
use crate::server::rules::{
    Fields, absent_from, allow_list, arg_str, create_room, handle_all, handle_one, has_room,
    new_room, remove_users, room_command, rooms_without, set_allowed, strings_from, with_client,
    without_client, without_user,
};
use crate::server::{ClientsView, RoomView, StateView};
use vstd::prelude::*;

verus! {

/// The state with other rooms.
pub open spec fn with_rooms(state: StateView, rooms: Map<u128, RoomView>) -> StateView {
    StateView { rooms, ..state }
}

/// A new server is as it should be.
pub proof fn law_new_wf()
    ensures
        (StateView { clients: ClientsView::nobody(), rooms: Map::empty() }).wf(),
{
}

/// A server stays as it should be when a client connects that nobody knows yet, with a channel of
/// its own.
pub proof fn law_connect_keeps_wf(state: StateView, client_id: u128, tx: u64)
    requires
        state.wf(),
        state.unknown(client_id),
        state.clients.is_free(tx),
    ensures
        (StateView { clients: state.clients.with_connected(client_id, tx), ..state }).wf(),
{
    let before = state.clients;
    let after = before.with_connected(client_id, tx);
    assert forall|id: u128| #[trigger] after.channel_of(id) == if id == client_id {
        Some(tx)
    } else {
        before.channel_of(id)
    } by {}
}

/// A server stays as it should be when a client is forgotten that has not identified.
pub proof fn law_unconnect_keeps_wf(state: StateView, client_id: u128)
    requires
        state.wf(),
    ensures
        (StateView { clients: state.clients.without_connected(client_id), ..state }).wf(),
{
    let before = state.clients;
    let after = before.without_connected(client_id);
    assert forall|id: u128| (#[trigger] after.channel_of(id)) is Some implies after.channel_of(id)
        == before.channel_of(id) by {}
}

/// A server stays as it should be when a connected client identifies, and then takes requests of
/// that client for the user it identified as.
pub proof fn law_identify_keeps_wf(state: StateView, client_id: u128, identity: IdentityView)
    requires
        state.wf(),
        state.clients.connected.contains_key(client_id),
    ensures
        ({
            let clients = state.clients.without_connected(client_id).with_identified(
                client_id,
                identity,
                state.clients.connected[client_id],
            );
            let after = StateView { clients, ..state };
            &&& after.wf()
            &&& after.serves(client_id, identity.user_id)
            &&& after.clients.identified.contains_key(client_id)
        }),
{
    let before = state.clients;
    let clients = before.without_connected(client_id).with_identified(
        client_id,
        identity,
        before.connected[client_id],
    );
    assert forall|id: u128| #[trigger] clients.channel_of(id) == before.channel_of(id) by {}
    assert forall|user: Seq<char>, id: u128|
        clients.user_clients.contains_key(user)
            && #[trigger] clients.user_clients[user].contains_key(id) implies clients.identified.contains_key(
        id,
    ) && clients.identified[id].0 == user by {
        if id != client_id {
            assert(before.user_clients.contains_key(user)
                && before.user_clients[user].contains_key(id));
        } else if user != identity.user_id {
            assert(before.user_clients[user].contains_key(id));
        }
    }
    assert forall|user: Seq<char>| #[trigger]
        clients.user_clients.contains_key(user) implies !clients.user_clients[user].dom().is_empty() by {
        if user == identity.user_id {
            assert(clients.user_clients[user].dom().contains(client_id));
        }
    }
    assert forall|id: u128, other: u128|
        state.rooms.contains_key(id)
            && #[trigger] state.rooms[id].current.contains(other) implies other != client_id by {}
}

/// A server stays as it should be when a client is forgotten, whether it had identified or not.
pub proof fn law_remove_keeps_wf(state: StateView, client_id: u128)
    requires
        state.wf(),
    ensures
        (StateView {
            clients: state.clients.without_connected(client_id).without_identified(client_id),
            ..state
        }).wf(),
{
    let before = state.clients;
    let clients = before.without_connected(client_id).without_identified(client_id);
    assert forall|id: u128| (#[trigger] clients.channel_of(id)) is Some implies clients.channel_of(
        id,
    ) == before.channel_of(id) by {}
    if before.identified.contains_key(client_id) {
        let gone = before.identified[client_id].0;
        assert forall|id: u128| #[trigger]
            clients.identified.contains_key(id) implies clients.user_clients.contains_key(
            clients.identified[id].0,
        ) && clients.user_clients[clients.identified[id].0].contains_key(id) by {
            assert(before.identified.contains_key(id));
            let user = before.identified[id].0;
            assert(before.user_clients[user].contains_key(id));
            if user == gone {
                assert(before.user_clients[gone].remove(client_id).dom().contains(id));
            }
        }
        assert forall|user: Seq<char>, id: u128|
            clients.user_clients.contains_key(user)
                && #[trigger] clients.user_clients[user].contains_key(
                id,
            ) implies clients.identified.contains_key(id) && clients.identified[id].0 == user by {
            assert(before.user_clients[user].contains_key(id));
        }
    }
}

/// Ending a room leaves the others as they should be.
proof fn lemma_remove_keeps_wf(state: StateView, room_id: u128)
    requires
        state.wf(),
    ensures
        with_rooms(state, state.rooms.remove(room_id)).wf(),
{
    let rooms = state.rooms.remove(room_id);
    assert forall|id: u128| #[trigger] rooms.contains_key(id) implies state.rooms.contains_key(id)
        && rooms[id] == state.rooms[id] by {}
    assert forall|a: u128, b: u128|
        #![trigger rooms.contains_key(a), rooms.contains_key(b)]
        rooms.contains_key(a) && rooms.contains_key(b) && rooms[a].creator == rooms[b].creator
            && rooms[a].name == rooms[b].name implies a == b by {
        assert(state.rooms.contains_key(a) && state.rooms.contains_key(b));
    }
    assert forall|id: u128, client_id: u128|
        rooms.contains_key(id) && #[trigger] rooms[id].current.contains(
            client_id,
        ) implies !state.clients.connected.contains_key(client_id) && (
    state.clients.identified.contains_key(client_id) ==> rooms[id].allowed.contains(
        state.clients.identified[client_id].0,
    )) by {
        assert(state.rooms[id].current.contains(client_id));
    }
}

/// A room can be replaced by one that is as it should be.
proof fn lemma_replace_keeps_wf(state: StateView, room_id: u128, room: RoomView)
    requires
        state.wf(),
        state.rooms.contains_key(room_id),
        room.creator == state.rooms[room_id].creator,
        room.name == state.rooms[room_id].name,
        room.wf(),
        forall|id: u128| #[trigger]
            room.current.contains(id) ==> !state.clients.connected.contains_key(id) && (
            state.clients.identified.contains_key(id) ==> room.allowed.contains(
                state.clients.identified[id].0,
            )),
    ensures
        with_rooms(state, state.rooms.insert(room_id, room)).wf(),
{
    let rooms = state.rooms.insert(room_id, room);
    assert forall|a: u128, b: u128|
        #![trigger rooms.contains_key(a), rooms.contains_key(b)]
        rooms.contains_key(a) && rooms.contains_key(b) && rooms[a].creator == rooms[b].creator
            && rooms[a].name == rooms[b].name implies a == b by {
        assert(state.rooms.contains_key(a) && state.rooms.contains_key(b));
    }
    assert forall|id: u128, client_id: u128|
        rooms.contains_key(id) && #[trigger] rooms[id].current.contains(
            client_id,
        ) implies !state.clients.connected.contains_key(client_id) && (
    state.clients.identified.contains_key(client_id) ==> rooms[id].allowed.contains(
        state.clients.identified[client_id].0,
    )) by {
        if id != room_id {
            assert(state.rooms[id].current.contains(client_id));
        }
    }
}

/// A list of allowed users names the creator and whoever was listed, each once.
pub proof fn law_allow_list(listed: Seq<Seq<char>>, creator: Seq<char>)
    ensures
        allow_list(listed, creator).no_duplicates(),
        forall|user: Seq<char>| #[trigger]
            allow_list(listed, creator).contains(user) <==> listed.contains(user) || user
                == creator,
{
    let all = listed.push(creator);
    lemma_remove_duplicates(all, Seq::empty());
    all.lemma_remove_duplicates_properties(Seq::empty());
    assert(all + Seq::empty() =~= all);
    assert forall|user: Seq<char>| #[trigger]
        allow_list(listed, creator).contains(user) <==> listed.contains(user) || user
            == creator by {
        lemma_push_contains(listed, creator, user);
        assert(all.contains(user) <==> all.remove_duplicates(Seq::empty()).contains(user));
    }
}

proof fn lemma_remove_duplicates<A>(s: Seq<A>, seen: Seq<A>)
    requires
        seen.no_duplicates(),
    ensures
        s.remove_duplicates(seen).no_duplicates(),
    decreases s.len(),
{
    if s.len() > 0 {
        if seen.contains(s[0]) {
            lemma_remove_duplicates(s.skip(1), seen);
        } else {
            lemma_remove_duplicates(s.skip(1), seen + seq![s[0]]);
        }
    }
}

/// Putting users out of a room leaves in it whoever is no client of theirs.
pub proof fn law_remove_users(
    users: Seq<Seq<char>>,
    room_id: u128,
    current: Set<u128>,
    clients: ClientsView,
)
    ensures
        forall|id: u128| #[trigger]
            remove_users(users, room_id, current, clients).0.contains(id) <==> current.contains(id)
                && !(exists|user: Seq<char>| #[trigger]
                users.contains(user) && clients.user_clients.contains_key(user)
                    && clients.user_clients[user].contains_key(id)),
    decreases users.len(),
{
    if users.len() > 0 {
        let rest = users.drop_last();
        let last = users.last();
        law_remove_users(rest, room_id, current, clients);
        assert(users =~= rest.push(last));
        let left = remove_users(rest, room_id, current, clients).0;
        assert forall|id: u128| #[trigger]
            remove_users(users, room_id, current, clients).0.contains(id) <==> current.contains(id)
                && !(exists|user: Seq<char>| #[trigger]
                users.contains(user) && clients.user_clients.contains_key(user)
                    && clients.user_clients[user].contains_key(id)) by {
            assert forall|user: Seq<char>| #[trigger] users.contains(user) <==> rest.contains(user)
                || user == last by {
                lemma_push_contains(rest, last, user);
            }
            assert(users.contains(last));
            assert(left.contains(id) <==> current.contains(id) && !(exists|user: Seq<char>| #[trigger]
                rest.contains(user) && clients.user_clients.contains_key(user)
                    && clients.user_clients[user].contains_key(id)));
            assert(without_user(left, last, clients).contains(id) <==> left.contains(id) && !(
            clients.user_clients.contains_key(last)
                && clients.user_clients[last].contains_key(id)));
            if exists|user: Seq<char>| #[trigger]
                rest.contains(user) && clients.user_clients.contains_key(user)
                    && clients.user_clients[user].contains_key(id) {
                let user = choose|user: Seq<char>| #[trigger]
                    rest.contains(user) && clients.user_clients.contains_key(user)
                        && clients.user_clients[user].contains_key(id);
                assert(users.contains(user));
            }
        }
    }
}

/// Whoever is no longer allowed in a room is out of it, and nobody else is.
pub proof fn law_disallowed_are_out(
    state: StateView,
    room_id: u128,
    listed: Seq<Seq<char>>,
    client_id: u128,
)
    requires
        state.wf(),
        state.rooms.contains_key(room_id),
        state.clients.identified.contains_key(client_id),
    ensures
        ({
            let room = state.rooms[room_id];
            let allowed = allow_list(listed, room.creator);
            let removed = absent_from(room.allowed, allowed);
            let current = remove_users(removed, room_id, room.current, state.clients).0;
            current.contains(client_id) <==> room.current.contains(client_id) && allowed.contains(
                state.clients.identified[client_id].0,
            )
        }),
{
    let room = state.rooms[room_id];
    let allowed = allow_list(listed, room.creator);
    let removed = absent_from(room.allowed, allowed);
    let user = state.clients.identified[client_id].0;
    law_remove_users(removed, room_id, room.current, state.clients);
    lemma_filter(room.allowed, |user: Seq<char>| !allowed.contains(user));
    assert(state.clients.user_clients[user].contains_key(client_id));
    if room.current.contains(client_id) {
        assert(room.allowed.contains(user));
        if !allowed.contains(user) {
            assert(removed.contains(user));
        }
    }
    assert forall|other: Seq<char>|
        removed.contains(other) && state.clients.user_clients.contains_key(other)
            && #[trigger] state.clients.user_clients[other].contains_key(client_id) implies other
        == user && !allowed.contains(user) by {}
}

proof fn lemma_set_allowed_keeps_wf(state: StateView, room_id: u128, listed: Seq<Seq<char>>)
    requires
        state.wf(),
        state.rooms.contains_key(room_id),
    ensures
        with_rooms(state, set_allowed(state, room_id, listed).0).wf(),
{
    let room = state.rooms[room_id];
    let allowed = allow_list(listed, room.creator);
    let removed = absent_from(room.allowed, allowed);
    let current = remove_users(removed, room_id, room.current, state.clients).0;
    let new = RoomView { allowed, current, ..room };
    law_allow_list(listed, room.creator);
    law_remove_users(removed, room_id, room.current, state.clients);
    assert forall|id: u128| #[trigger]
        new.current.contains(id) implies !state.clients.connected.contains_key(id) && (
    state.clients.identified.contains_key(id) ==> new.allowed.contains(
        state.clients.identified[id].0,
    )) by {
        assert(room.current.contains(id));
        if state.clients.identified.contains_key(id) {
            law_disallowed_are_out(state, room_id, listed, id);
        }
    }
    lemma_replace_keeps_wf(state, room_id, new);
    let rooms = state.rooms.insert(room_id, new);
    lemma_remove_keeps_wf(with_rooms(state, rooms), room_id);
}

/// A room command leaves the server as it should be.
pub proof fn law_command_keeps_wf(
    state: StateView,
    room_id: u128,
    args: Seq<JsonView>,
    client_id: u128,
    user: Seq<char>,
)
    requires
        state.wf(),
        state.serves(client_id, user),
    ensures
        with_rooms(state, room_command(state, room_id, args, client_id, user).rooms).wf(),
{
    let rooms = state.rooms;
    assert(with_rooms(state, rooms) == state);
    let name = arg_str(args, 1);
    if name is Some && !rooms.contains_key(room_id) && create_room(
        state,
        room_id,
        user,
        name,
    ).answer is Done {
        lemma_create_keeps_wf(state, room_id, user, name->0);
    }
    lemma_remove_keeps_wf(state, room_id);
    if rooms.contains_key(room_id) {
        let room = rooms[room_id];
        lemma_set_allowed_keeps_wf(state, room_id, strings_from(args, 2));
        if room.allowed.contains(user) {
            let joined = with_client(room, client_id);
            assert forall|id: u128| #[trigger]
                joined.current.contains(id) implies !state.clients.connected.contains_key(id) && (
            state.clients.identified.contains_key(id) ==> joined.allowed.contains(
                state.clients.identified[id].0,
            )) by {
                if id != client_id {
                    assert(room.current.contains(id));
                }
            }
            lemma_replace_keeps_wf(state, room_id, joined);
        }
        let left = without_client(room, client_id);
        assert forall|id: u128| #[trigger]
            left.current.contains(id) implies !state.clients.connected.contains_key(id) && (
        state.clients.identified.contains_key(id) ==> left.allowed.contains(
            state.clients.identified[id].0,
        )) by {
            assert(room.current.contains(id));
        }
        lemma_replace_keeps_wf(state, room_id, left);
        lemma_remove_keeps_wf(with_rooms(state, rooms.insert(room_id, left)), room_id);
    }
}

proof fn lemma_create_keeps_wf(
    state: StateView,
    room_id: u128,
    user: Seq<char>,
    name: Seq<char>,
)
    requires
        state.wf(),
        !state.rooms.contains_key(room_id),
        !has_room(state.rooms, user, name),
    ensures
        with_rooms(
            state,
            state.rooms.insert(room_id, new_room(user, name)),
        ).wf(),
{
    let room = new_room(user, name);
    let rooms = state.rooms.insert(room_id, room);
    assert(room.allowed[0] == user);
    assert forall|a: u128, b: u128|
        #![trigger rooms.contains_key(a), rooms.contains_key(b)]
        rooms.contains_key(a) && rooms.contains_key(b) && rooms[a].creator == rooms[b].creator
            && rooms[a].name == rooms[b].name implies a == b by {
        if a != room_id {
            assert(state.rooms.contains_key(a));
        }
        if b != room_id {
            assert(state.rooms.contains_key(b));
        }
    }
    assert forall|id: u128, client_id: u128|
        rooms.contains_key(id) && #[trigger] rooms[id].current.contains(
            client_id,
        ) implies !state.clients.connected.contains_key(client_id) && (
    state.clients.identified.contains_key(client_id) ==> rooms[id].allowed.contains(
        state.clients.identified[client_id].0,
    )) by {
        if id != room_id {
            assert(state.rooms[id].current.contains(client_id));
        }
    }
}

/// A batch of requests leaves the server as it should be.
pub proof fn law_requests_keep_wf(
    state: StateView,
    requests: Seq<Fields>,
    client_id: u128,
    user: Seq<char>,
)
    requires
        state.wf(),
        state.serves(client_id, user),
    ensures
        with_rooms(state, handle_all(state, requests, client_id, user).rooms).wf(),
    decreases requests.len(),
{
    if requests.len() == 0 {
        assert(with_rooms(state, state.rooms) == state);
    } else {
        law_requests_keep_wf(state, requests.drop_last(), client_id, user);
        let before = with_rooms(
            state,
            handle_all(state, requests.drop_last(), client_id, user).rooms,
        );
        lemma_one_keeps_wf(before, requests.last(), client_id, user);
    }
}

proof fn lemma_one_keeps_wf(
    state: StateView,
    request: Fields,
    client_id: u128,
    user: Seq<char>,
)
    requires
        state.wf(),
        state.serves(client_id, user),
    ensures
        with_rooms(state, handle_one(state, request, client_id, user).rooms).wf(),
{
    reveal(handle_one);
    assert(with_rooms(state, state.rooms) == state);
    let room_id = lookup_str(request, "room_id"@);
    if room_id is Some && id_of_text(room_id->0) is Some && lookup(
        request,
        "args"@,
    ) is Some && lookup(request, "args"@)->0.as_array() is Some {
        law_command_keeps_wf(
            state,
            id_of_text(room_id->0)->0,
            lookup(request, "args"@)->0.as_array()->0.drop_first(),
            client_id,
            user,
        );
    }
}

/// When a client is gone from all rooms, the server is as it should be.
pub proof fn law_disconnect_keeps_wf(state: StateView, client_id: u128)
    requires
        state.wf(),
    ensures
        with_rooms(state, rooms_without(state.rooms, client_id)).wf(),
{
    let rooms = rooms_without(state.rooms, client_id);
    assert forall|a: u128, b: u128|
        #![trigger rooms.contains_key(a), rooms.contains_key(b)]
        rooms.contains_key(a) && rooms.contains_key(b) && rooms[a].creator == rooms[b].creator
            && rooms[a].name == rooms[b].name implies a == b by {
        assert(state.rooms.contains_key(a) && state.rooms.contains_key(b));
    }
    assert forall|id: u128, other: u128|
        rooms.contains_key(id) && #[trigger] rooms[id].current.contains(
            other,
        ) implies !state.clients.connected.contains_key(other) && (
    state.clients.identified.contains_key(other) ==> rooms[id].allowed.contains(
        state.clients.identified[other].0,
    )) by {
        assert(state.rooms[id].current.contains(other));
    }
}

} // verus!
