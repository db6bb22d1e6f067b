//! Who is told what when one act touches many clients.

use crate::ids::{ascending, lemma_ascending};
use crate::json::JsonView;
use crate::lists::{
    lemma_filter, lemma_flat_map, lemma_flat_map_no_duplicates, lemma_push_contains,
};
use crate::server::keeping::{law_allow_list, law_remove_users};
use crate::server::laws::{clients_of_users, event_text, known, remaining};
use crate::server::rules::{
    Sent, absent_from, allow_list, broadcast, clients_of, created_args, departure, destroyed_args,
    disconnect_sent, left_args, notify, present, remove_user_sent, remove_users,
    room_departure, room_end, rooms_with, rooms_with_only, sender_of, senders, set_allowed,
    without_user,
};
use crate::server::{ClientsView, StateView};
use vstd::prelude::*;

verus! {

/// What can happen in a room.
pub enum Event {
    /// The room has come into being for a user.
    Created,
    /// A client of a user has left.
    Left(u128, Seq<char>),
    /// The room has come to its end for a user.
    Ended,
}

/// An event in a room that a client is told of.
pub struct Notice {
    pub room_id: u128,
    pub event: Event,
    pub to: u128,
}

/// The arguments that an event is told with.
pub open spec fn event_args(state: StateView, room_id: u128, event: Event) -> Seq<JsonView> {
    match event {
        Event::Created => created_args(room_id, state.rooms[room_id]),
        Event::Left(client_id, user) => left_args(client_id, user),
        Event::Ended => destroyed_args(),
    }
}

/// The message that a notice is sent as: its text, and the channel of the client.
pub open spec fn message_of(state: StateView) -> spec_fn(Notice) -> (Seq<char>, u64) {
    |n: Notice|
        (
            event_text(n.room_id, event_args(state, n.room_id, n.event)),
            state.clients.identified[n.to].1,
        )
}

/// Whether what was sent is one message for each of these notices, and nothing else.
pub open spec fn one_each(sent: Sent, notices: Set<Notice>, state: StateView) -> bool {
    exists|list: Seq<Notice>|
        list.no_duplicates() && list.to_set() == notices && sent == #[trigger] list.map_values(
            message_of(state),
        )
}

/// Whether nothing was sent to anyone but those whom the notices are for: whoever the channel of a
/// message leads to is one of them.
pub open spec fn only_to(sent: Sent, notices: Set<Notice>, clients: ClientsView) -> bool {
    forall|id: u128, m: (Seq<char>, u64)|
        #![trigger clients.channel_of(id), sent.contains(m)]
        sent.contains(m) && clients.channel_of(id) == Some(m.1) ==> exists|n: Notice| #[trigger]
            notices.contains(n) && n.to == id
}

/// Where there is one message for each notice, nobody else is sent anything.
proof fn lemma_only_to(sent: Sent, notices: Set<Notice>, state: StateView)
    requires
        state.clients.wf(),
        one_each(sent, notices, state),
        forall|n: Notice| #[trigger]
            notices.contains(n) ==> state.clients.identified.contains_key(n.to),
    ensures
        only_to(sent, notices, state.clients),
{
    let clients = state.clients;
    let f = message_of(state);
    let list = choose|list: Seq<Notice>|
        list.no_duplicates() && list.to_set() == notices && sent == #[trigger] list.map_values(f);
    assert forall|id: u128, m: (Seq<char>, u64)|
        #![trigger clients.channel_of(id), sent.contains(m)]
        sent.contains(m) && clients.channel_of(id) == Some(m.1) implies exists|n: Notice| #[trigger]
        notices.contains(n) && n.to == id by {
        let n = list[sent.index_of(m)];
        assert(list.to_set().contains(n));
        assert(notices.contains(n));
        assert(clients.channel_of(n.to) == Some(m.1));
        assert(n.to == id);
    }
}

/// One event in one room, told to these clients.
pub open spec fn notices_to(room_id: u128, event: Event, who: Set<u128>) -> Set<Notice> {
    Set::new(|n: Notice| n.room_id == room_id && n.event == event && who.contains(n.to))
}

/// No notices make no messages.
proof fn lemma_one_each_none(state: StateView)
    ensures
        one_each(Seq::empty(), Set::empty(), state),
{
    let list = Seq::<Notice>::empty();
    assert(list.to_set() =~= Set::empty());
    assert(list.map_values(message_of(state)) =~= Seq::empty());
}

/// Notices of two kinds, one after the other.
pub proof fn lemma_one_each_add(
    a: Sent,
    first: Set<Notice>,
    b: Sent,
    second: Set<Notice>,
    state: StateView,
)
    requires
        one_each(a, first, state),
        one_each(b, second, state),
        first.disjoint(second),
    ensures
        one_each(a + b, first.union(second), state),
{
    let f = message_of(state);
    let x = choose|list: Seq<Notice>|
        list.no_duplicates() && list.to_set() == first && a == #[trigger] list.map_values(f);
    let y = choose|list: Seq<Notice>|
        list.no_duplicates() && list.to_set() == second && b == #[trigger] list.map_values(f);
    let list = x + y;
    assert(a + b =~= list.map_values(f));
    assert(list.no_duplicates()) by {
        assert forall|i: int, j: int|
            0 <= i < x.len() && 0 <= j < y.len() implies #[trigger] x[i] != #[trigger] y[j] by {
            assert(x.to_set().contains(x[i]));
            assert(y.to_set().contains(y[j]));
        }
    }
    assert(list.to_set() =~= first.union(second)) by {
        assert forall|n: Notice| list.to_set().contains(n) <==> first.union(second).contains(n) by {
            if x.contains(n) {
                assert(list[x.index_of(n)] == n);
                assert(x.to_set().contains(n));
            }
            if y.contains(n) {
                assert(list[x.len() + y.index_of(n)] == n);
                assert(y.to_set().contains(n));
            }
            if list.contains(n) {
                let k = list.index_of(n);
                if k < x.len() {
                    assert(x[k] == n);
                } else {
                    assert(y[k - x.len()] == n);
                }
            }
            assert(first.contains(n) <==> x.to_set().contains(n));
            assert(second.contains(n) <==> y.to_set().contains(n));
        }
    }
}

/// The notices of each of a list.
pub open spec fn notices_of_all<A>(list: Seq<A>, of: spec_fn(A) -> Set<Notice>) -> Set<Notice> {
    Set::new(|n: Notice| exists|a: A| #[trigger] list.contains(a) && of(a).contains(n))
}

/// Notices of many, one after the other.
proof fn lemma_one_each_flat_map<A>(
    list: Seq<A>,
    part: spec_fn(A) -> Sent,
    of: spec_fn(A) -> Set<Notice>,
    state: StateView,
)
    requires
        list.no_duplicates(),
        forall|a: A| #[trigger] list.contains(a) ==> one_each(part(a), of(a), state),
        forall|a: A, b: A, n: Notice|
            list.contains(a) && list.contains(b) && #[trigger] of(a).contains(n)
                && #[trigger] of(b).contains(n) ==> a == b,
    ensures
        one_each(list.flat_map(part), notices_of_all(list, of), state),
    decreases list.len(),
{
    if list.len() == 0 {
        lemma_one_each_none(state);
        assert(list.flat_map(part) =~= Seq::empty());
        assert(notices_of_all(list, of) =~= Set::empty());
    } else {
        let rest = list.drop_last();
        let last = list.last();
        assert(list =~= rest.push(last));
        assert forall|a: A| #[trigger] list.contains(a) <==> rest.contains(a) || a == last by {
            lemma_push_contains(rest, last, a);
        }
        assert forall|a: A| #[trigger] rest.contains(a) implies list.contains(a) by {
            lemma_push_contains(rest, last, a);
        }
        assert(!rest.contains(last));
        assert(list.contains(last));
        lemma_one_each_flat_map(rest, part, of, state);
        rest.lemma_flat_map_push(part, last);
        assert(notices_of_all(rest, of).disjoint(of(last))) by {
            assert forall|n: Notice|
                !(notices_of_all(rest, of).contains(n) && of(last).contains(n)) by {
                if notices_of_all(rest, of).contains(n) && of(last).contains(n) {
                    let a = choose|a: A| #[trigger] rest.contains(a) && of(a).contains(n);
                    assert(list.contains(a) && of(a).contains(n));
                }
            }
        }
        lemma_one_each_add(
            rest.flat_map(part),
            notices_of_all(rest, of),
            part(last),
            of(last),
            state,
        );
        assert(notices_of_all(rest, of).union(of(last)) =~= notices_of_all(list, of)) by {
            assert forall|n: Notice|
                notices_of_all(rest, of).union(of(last)).contains(n) <==> notices_of_all(
                    list,
                    of,
                ).contains(n) by {
                if notices_of_all(rest, of).contains(n) {
                    let a = choose|a: A| #[trigger] rest.contains(a) && of(a).contains(n);
                    assert(list.contains(a) && of(a).contains(n));
                }
                if of(last).contains(n) {
                    assert(list.contains(last) && of(last).contains(n));
                }
                if notices_of_all(list, of).contains(n) {
                    let a = choose|a: A| #[trigger] list.contains(a) && of(a).contains(n);
                    assert(rest.contains(a) || a == last);
                }
            }
        }
    }
}

/// The channels of those of a list that have identified.
pub proof fn lemma_senders(ids: Seq<u128>, clients: ClientsView)
    ensures
        senders(ids, clients) == ids.filter(
            |id: u128| clients.identified.contains_key(id),
        ).map_values(|id: u128| clients.identified[id].1),
    decreases ids.len(),
{
    reveal(Seq::filter);
    let p = |id: u128| clients.identified.contains_key(id);
    let tx = |id: u128| clients.identified[id].1;
    if ids.len() > 0 {
        let rest = ids.drop_last();
        let last = ids.last();
        lemma_senders(rest, clients);
        if p(last) {
            assert(sender_of(clients)(last) == Some(tx(last)));
            assert(rest.filter(p).push(last).map_values(tx) =~= rest.filter(p).map_values(tx).push(
                tx(last),
            ));
            assert(senders(ids, clients) =~= senders(rest, clients).push(tx(last)));
        }
    } else {
        assert(senders(ids, clients) =~= ids.filter(p).map_values(tx));
    }
}

/// An event told to a list that names nobody twice is one message for each on it that has
/// identified.
proof fn lemma_one_each_broadcast(
    ids: Seq<u128>,
    room_id: u128,
    event: Event,
    state: StateView,
)
    requires
        ids.no_duplicates(),
    ensures
        one_each(
            broadcast(ids, Some(room_id), event_args(state, room_id, event), state.clients),
            notices_to(room_id, event, known(ids.to_set(), state.clients)),
            state,
        ),
{
    let clients = state.clients;
    let p = |id: u128| clients.identified.contains_key(id);
    let make = |id: u128| Notice { room_id, event, to: id };
    let kept = ids.filter(p);
    let list = kept.map_values(make);
    let sent = broadcast(ids, Some(room_id), event_args(state, room_id, event), clients);
    lemma_filter(ids, p);
    lemma_senders(ids, clients);
    assert(sent =~= list.map_values(message_of(state)));
    assert(list.no_duplicates()) by {
        assert forall|i: int, j: int|
            0 <= i < list.len() && 0 <= j < list.len() && i != j implies #[trigger] list[i]
            != #[trigger] list[j] by {
            assert(kept[i] != kept[j]);
        }
    }
    assert(list.to_set() =~= notices_to(room_id, event, known(ids.to_set(), clients))) by {
        assert forall|n: Notice|
            list.to_set().contains(n) <==> notices_to(
                room_id,
                event,
                known(ids.to_set(), clients),
            ).contains(n) by {
            if list.contains(n) {
                let k = list.index_of(n);
                assert(list[k] == n);
                assert(kept.contains(kept[k]));
                assert(ids.contains(n.to));
            }
            if notices_to(room_id, event, known(ids.to_set(), clients)).contains(n) {
                assert(ids.contains(n.to) && p(n.to));
                assert(kept.contains(n.to));
                let k = kept.index_of(n.to);
                assert(list[k] == n);
            }
        }
    }
}

/// An event told to a set is one message for each in it that has identified.
proof fn lemma_one_each_set(who: Set<u128>, room_id: u128, event: Event, state: StateView)
    ensures
        one_each(
            broadcast(
                ascending(who),
                Some(room_id),
                event_args(state, room_id, event),
                state.clients,
            ),
            notices_to(room_id, event, known(who, state.clients)),
            state,
        ),
{
    lemma_ascending(who);
    lemma_one_each_broadcast(ascending(who), room_id, event, state);
    assert(ascending(who).to_set() =~= who) by {
        assert forall|id: u128| ascending(who).to_set().contains(id) <==> who.contains(id) by {
            assert(ascending(who).contains(id) <==> who.contains(id));
        }
    }
}

/// The clients of users that are each named once.
pub proof fn lemma_clients_of(users: Seq<Seq<char>>, clients: ClientsView)
    requires
        clients.wf(),
        users.no_duplicates(),
    ensures
        users.flat_map(clients_of(clients)).no_duplicates(),
        users.flat_map(clients_of(clients)).to_set() == clients_of_users(users, clients),
{
    let ids_of = clients_of(clients);
    let ids = users.flat_map(ids_of);
    lemma_flat_map(users, ids_of);
    assert forall|user: Seq<char>, id: u128| #[trigger]
        ids_of(user).contains(id) implies clients.identified.contains_key(id)
        && clients.identified[id].0 == user by {
        lemma_ascending(clients.user_clients[user].dom());
        assert(clients.user_clients[user].contains_key(id));
    }
    assert forall|user: Seq<char>| #[trigger] users.contains(user) implies ids_of(
        user,
    ).no_duplicates() by {
        lemma_ascending(clients.user_clients[user].dom());
    }
    lemma_flat_map_no_duplicates(users, ids_of);
    assert(ids.to_set() =~= clients_of_users(users, clients)) by {
        assert forall|id: u128|
            ids.to_set().contains(id) <==> clients_of_users(users, clients).contains(id) by {
            if ids.contains(id) {
                let user = choose|user: Seq<char>| #[trigger]
                    users.contains(user) && ids_of(user).contains(id);
                assert(clients.identified[id].0 == user);
            }
            if clients_of_users(users, clients).contains(id) {
                let user = clients.identified[id].0;
                assert(clients.user_clients[user].contains_key(id));
                lemma_ascending(clients.user_clients[user].dom());
                assert(ids_of(user).contains(id));
            }
        }
    }
}

/// An event told to users that are each named once is one message for each of their clients.
pub proof fn lemma_one_each_users(
    users: Seq<Seq<char>>,
    room_id: u128,
    event: Event,
    state: StateView,
)
    requires
        state.clients.wf(),
        users.no_duplicates(),
    ensures
        one_each(
            notify(users, room_id, event_args(state, room_id, event), state.clients),
            notices_to(room_id, event, clients_of_users(users, state.clients)),
            state,
        ),
{
    let who = clients_of_users(users, state.clients);
    lemma_clients_of(users, state.clients);
    lemma_one_each_broadcast(users.flat_map(clients_of(state.clients)), room_id, event, state);
    assert(known(who, state.clients) =~= who);
}

/// Who is told what when a client goes: in each of its rooms, each other member that it has left;
/// of each room that ends with it, each client of everyone allowed in it that it has ended.
pub open spec fn farewell(state: StateView, client_id: u128, user: Seq<char>) -> Set<Notice> {
    Set::new(
        |n: Notice|
            {
                let room = state.rooms[n.room_id];
                &&& state.rooms.contains_key(n.room_id)
                &&& room.current.contains(client_id)
                &&& state.clients.identified.contains_key(n.to)
                &&& match n.event {
                    Event::Created => false,
                    Event::Left(gone, name) => gone == client_id && name == user && n.to
                        != client_id && room.current.contains(n.to),
                    Event::Ended => room.current.remove(client_id).is_empty()
                        && room.allowed.contains(state.clients.identified[n.to].0),
                }
            },
    )
}

/// When a client goes, each other member of each of its rooms that has identified is told, once
/// for each room. Of each room that ends with it, each client of everyone who was allowed in it is
/// told, once. Those who have to do with a departure are told before those who have to do with an
/// end. Nobody else is told anything.
pub proof fn law_disconnect_told(state: StateView, client_id: u128, user: Seq<char>)
    requires
        state.wf(),
    ensures
        one_each(
            disconnect_sent(state, client_id, user),
            farewell(state, client_id, user),
            state,
        ),
        only_to(
            disconnect_sent(state, client_id, user),
            farewell(state, client_id, user),
            state.clients,
        ),
        exists|first: Sent, second: Sent|
            disconnect_sent(state, client_id, user) == #[trigger] (first + second) && one_each(
                first,
                farewell(state, client_id, user).filter(|n: Notice| n.event is Left),
                state,
            ) && one_each(
                second,
                farewell(state, client_id, user).filter(|n: Notice| n.event is Ended),
                state,
            ),
{
    let rooms = state.rooms;
    let clients = state.clients;
    let ids = rooms_with(rooms, client_id);
    let alone = rooms_with_only(rooms, client_id);
    let left = room_departure(rooms, client_id, user, clients);
    let end = room_end(rooms, clients);
    let left_notices = |id: u128|
        notices_to(
            id,
            Event::Left(client_id, user),
            known(rooms[id].current.remove(client_id), clients),
        );
    let end_notices = |id: u128|
        notices_to(id, Event::Ended, clients_of_users(rooms[id].allowed, clients));
    lemma_ascending(rooms.dom());
    lemma_filter(ascending(rooms.dom()), |id: u128| rooms[id].current.contains(client_id));
    lemma_filter(ids, |id: u128| rooms[id].current.remove(client_id).is_empty());
    assert forall|id: u128| #[trigger] ids.contains(id) <==> rooms.contains_key(id)
        && rooms[id].current.contains(client_id) by {
        assert(ascending(rooms.dom()).contains(id) <==> rooms.dom().contains(id));
    }
    assert forall|id: u128| #[trigger] ids.contains(id) implies one_each(
        left(id),
        left_notices(id),
        state,
    ) by {
        let rest = rooms[id].current.remove(client_id);
        lemma_one_each_set(rest, id, Event::Left(client_id, user), state);
        if rest.is_empty() {
            lemma_one_each_none(state);
            assert(left_notices(id) =~= Set::empty());
        }
    }
    assert forall|id: u128| #[trigger] alone.contains(id) implies one_each(
        end(id),
        end_notices(id),
        state,
    ) by {
        assert(ids.contains(id));
        lemma_one_each_users(rooms[id].allowed, id, Event::Ended, state);
    }
    lemma_one_each_flat_map(ids, left, left_notices, state);
    lemma_one_each_flat_map(alone, end, end_notices, state);
    let a = notices_of_all(ids, left_notices);
    let b = notices_of_all(alone, end_notices);
    assert forall|n: Notice| #[trigger] a.contains(n) <==> ids.contains(n.room_id) && left_notices(
        n.room_id,
    ).contains(n) by {
        if a.contains(n) {
            let id = choose|id: u128| #[trigger] ids.contains(id) && left_notices(id).contains(n);
            assert(id == n.room_id);
        }
    }
    assert forall|n: Notice| #[trigger] b.contains(n) <==> alone.contains(n.room_id)
        && end_notices(n.room_id).contains(n) by {
        if b.contains(n) {
            let id = choose|id: u128| #[trigger] alone.contains(id) && end_notices(id).contains(n);
            assert(id == n.room_id);
        }
    }
    assert(a.disjoint(b)) by {
        assert forall|n: Notice| !(a.contains(n) && b.contains(n)) by {}
    }
    lemma_one_each_add(ids.flat_map(left), a, alone.flat_map(end), b, state);
    assert(a.union(b) =~= farewell(state, client_id, user)) by {
        assert forall|n: Notice|
            a.union(b).contains(n) <==> farewell(state, client_id, user).contains(n) by {
            assert(a.contains(n) <==> ids.contains(n.room_id) && left_notices(n.room_id).contains(
                n,
            ));
            assert(b.contains(n) <==> alone.contains(n.room_id) && end_notices(
                n.room_id,
            ).contains(n));
        }
    }
    lemma_only_to(
        disconnect_sent(state, client_id, user),
        farewell(state, client_id, user),
        state,
    );
    assert(a =~= farewell(state, client_id, user).filter(|n: Notice| n.event is Left));
    assert(b =~= farewell(state, client_id, user).filter(|n: Notice| n.event is Ended));
    assert(disconnect_sent(state, client_id, user) == ids.flat_map(left) + alone.flat_map(end));
}

/// Who is told of whom when users are put out of a room one after the other: of each client of
/// theirs that was in it, each member that stays or is put out after it.
pub open spec fn departures(
    users: Seq<Seq<char>>,
    room_id: u128,
    current: Set<u128>,
    clients: ClientsView,
) -> Set<Notice> {
    Set::new(
        |n: Notice|
            n.room_id == room_id && match n.event {
                Event::Left(gone, name) => {
                    &&& current.contains(gone)
                    &&& clients.identified.contains_key(gone)
                    &&& clients.identified[gone].0 == name
                    &&& users.contains(name)
                    &&& current.contains(n.to)
                    &&& clients.identified.contains_key(n.to)
                    &&& is_after(users, name, clients.identified[n.to].0)
                },
                _ => false,
            },
    )
}

/// Whether a user is not on the list, or further down on it than another.
pub open spec fn is_after(users: Seq<Seq<char>>, first: Seq<char>, user: Seq<char>) -> bool {
    users.contains(user) ==> users.index_of(first) < users.index_of(user)
}

proof fn lemma_index_of_push(users: Seq<Seq<char>>, last: Seq<char>)
    requires
        users.no_duplicates(),
        !users.contains(last),
    ensures
        users.push(last).no_duplicates(),
        users.push(last).index_of(last) == users.len(),
        forall|user: Seq<char>| #[trigger]
            users.contains(user) ==> users.push(last).index_of(user) == users.index_of(user)
                && users.index_of(user) < users.len(),
{
    let all = users.push(last);
    assert(all[users.len() as int] == last);
    assert(all.contains(last));
    assert forall|user: Seq<char>| #[trigger] users.contains(user) implies all.index_of(user)
        == users.index_of(user) && users.index_of(user) < users.len() by {
        assert(all[users.index_of(user)] == user);
        assert(all.contains(user));
    }
}

/// When users are put out of a room one after the other, there is one message for each departure
/// and each member that stays or is put out after it.
pub proof fn lemma_departures(
    users: Seq<Seq<char>>,
    room_id: u128,
    current: Set<u128>,
    state: StateView,
)
    requires
        state.clients.wf(),
        users.no_duplicates(),
    ensures
        one_each(
            remove_users(users, room_id, current, state.clients).1,
            departures(users, room_id, current, state.clients),
            state,
        ),
    decreases users.len(),
{
    let clients = state.clients;
    if users.len() == 0 {
        lemma_one_each_none(state);
        assert(departures(users, room_id, current, clients) =~= Set::empty());
    } else {
        let rest = users.drop_last();
        let last = users.last();
        let (left, sent) = remove_users(rest, room_id, current, clients);
        let staying = without_user(left, last, clients);
        let ids = clients_of(clients)(last);
        let going = present(ids, left);
        let told = departure(last, room_id, staying, clients);
        let of = |id: u128| notices_to(room_id, Event::Left(id, last), known(staying, clients));
        let more = remove_user_sent(last, room_id, left, clients);
        assert(users =~= rest.push(last));
        assert(!rest.contains(last));
        lemma_index_of_push(rest, last);
        lemma_departures(rest, room_id, current, state);
        law_remove_users(rest, room_id, current, clients);
        lemma_ascending(clients.user_clients[last].dom());
        lemma_filter(ids, |id: u128| left.contains(id));
        assert forall|id: u128| #[trigger] clients.identified.contains_key(id) implies (
        left.contains(id) <==> current.contains(id) && !rest.contains(
            clients.identified[id].0,
        )) by {
            let user = clients.identified[id].0;
            assert(clients.user_clients[user].contains_key(id));
            assert forall|named: Seq<char>|
                clients.user_clients.contains_key(named)
                    && #[trigger] clients.user_clients[named].contains_key(id) implies named
                == user by {}
        }
        assert forall|id: u128| #[trigger] going.contains(id) <==> (clients.identified.contains_key(
            id,
        ) && clients.identified[id].0 == last && current.contains(id)) by {
            assert(going.contains(id) <==> ids.contains(id) && left.contains(id));
            if clients.identified.contains_key(id) && clients.identified[id].0 == last {
                assert(clients.user_clients[last].contains_key(id));
            }
            if clients.user_clients.contains_key(last) {
                assert(ids.contains(id) <==> clients.user_clients[last].dom().contains(id));
                if ids.contains(id) {
                    assert(clients.user_clients[last].contains_key(id));
                }
            }
        }
        assert forall|id: u128| #[trigger] clients.identified.contains_key(id) implies (
        staying.contains(id) <==> left.contains(id) && clients.identified[id].0 != last) by {
            let user = clients.identified[id].0;
            assert(clients.user_clients[user].contains_key(id));
            if clients.user_clients.contains_key(last)
                && clients.user_clients[last].contains_key(id) {
                assert(user == last);
            }
        }
        assert(one_each(more, notices_of_all(going, of), state)) by {
            if staying.is_empty() {
                lemma_one_each_none(state);
                assert(notices_of_all(going, of) =~= Set::empty()) by {
                    assert forall|n: Notice| !notices_of_all(going, of).contains(n) by {
                        if notices_of_all(going, of).contains(n) {
                            let id = choose|id: u128| #[trigger]
                                going.contains(id) && of(id).contains(n);
                            assert(staying.contains(n.to));
                        }
                    }
                }
            } else {
                assert forall|id: u128| #[trigger] going.contains(id) implies one_each(
                    told(id),
                    of(id),
                    state,
                ) by {
                    lemma_one_each_set(staying, room_id, Event::Left(id, last), state);
                }
                lemma_one_each_flat_map(going, told, of, state);
            }
        }
        let a = departures(rest, room_id, current, clients);
        let b = notices_of_all(going, of);
        assert forall|n: Notice| #[trigger] b.contains(n) <==> (n.room_id == room_id
            && known(staying, clients).contains(n.to) && match n.event {
            Event::Left(gone, name) => name == last && going.contains(gone),
            _ => false,
        }) by {
            if b.contains(n) {
                let id = choose|id: u128| #[trigger] going.contains(id) && of(id).contains(n);
                assert(n.event == Event::Left(id, last));
            }
            match n.event {
                Event::Left(gone, name) => {
                    if name == last && going.contains(gone) && n.room_id == room_id && known(
                        staying,
                        clients,
                    ).contains(n.to) {
                        assert(of(gone).contains(n));
                    }
                },
                _ => {},
            }
        }
        assert(a.disjoint(b)) by {
            assert forall|n: Notice| !(a.contains(n) && b.contains(n)) by {}
        }
        lemma_one_each_add(sent, a, more, b, state);
        assert(a.union(b) =~= departures(users, room_id, current, clients)) by {
            assert forall|n: Notice|
                a.union(b).contains(n) <==> departures(
                    users,
                    room_id,
                    current,
                    clients,
                ).contains(n) by {
                match n.event {
                    Event::Left(gone, name) => {
                        let user = clients.identified[n.to].0;
                        lemma_push_contains(rest, last, name);
                        lemma_push_contains(rest, last, user);
                        assert(b.contains(n) <==> (n.room_id == room_id && known(
                            staying,
                            clients,
                        ).contains(n.to) && name == last && going.contains(gone)));
                        if rest.contains(name) {
                            assert(is_after(users, name, user) <==> is_after(rest, name, user));
                        }
                        if name == last {
                            assert(is_after(users, name, user) <==> !users.contains(user));
                        }
                    },
                    _ => {
                        assert(!b.contains(n));
                    },
                }
            }
        }
    }
}

/// Who is told what under a new list of allowed users. Each client of a user who is new on the
/// list is told of the room. Of each client that is put out, each member is told that stays or is
/// put out after it. Each client of a user who is no longer on the list is told that the room has
/// ended, and so is each client of everyone on the list if nobody is left in the room.
pub open spec fn list_notices(
    state: StateView,
    room_id: u128,
    listed: Seq<Seq<char>>,
) -> Set<Notice> {
    let room = state.rooms[room_id];
    let clients = state.clients;
    let allowed = allow_list(listed, room.creator);
    let removed = absent_from(room.allowed, allowed);
    Set::new(
        |n: Notice|
            {
                let user = clients.identified[n.to].0;
                &&& n.room_id == room_id
                &&& clients.identified.contains_key(n.to)
                &&& match n.event {
                    Event::Created => allowed.contains(user) && !room.allowed.contains(user),
                    Event::Left(gone, name) => {
                        &&& room.current.contains(gone)
                        &&& clients.identified.contains_key(gone)
                        &&& clients.identified[gone].0 == name
                        &&& !allowed.contains(name)
                        &&& room.current.contains(n.to)
                        &&& allowed.contains(user) || removed.index_of(name) < removed.index_of(
                            user,
                        )
                    },
                    Event::Ended => {
                        ||| room.allowed.contains(user) && !allowed.contains(user)
                        ||| allowed.contains(user) && !room.current.is_empty() && remaining(
                            state,
                            room_id,
                            listed,
                        ).is_empty()
                    },
                }
            },
    )
}

/// Under a new list of allowed users each of those who are concerned is told what concerns them,
/// once, and nobody else is told anything. No client of the creator is told that the room has come
/// into being, and none unless the whole room ends that it has ended.
pub proof fn law_set_told(state: StateView, room_id: u128, listed: Seq<Seq<char>>)
    requires
        state.wf(),
        state.rooms.contains_key(room_id),
    ensures
        one_each(
            set_allowed(state, room_id, listed).1,
            list_notices(state, room_id, listed),
            state,
        ),
        only_to(
            set_allowed(state, room_id, listed).1,
            list_notices(state, room_id, listed),
            state.clients,
        ),
        forall|n: Notice| #[trigger]
            list_notices(state, room_id, listed).contains(n) && state.clients.identified[n.to].0
                == state.rooms[room_id].creator ==> n.event != Event::Created && (n.event
                == Event::Ended ==> !set_allowed(state, room_id, listed).0.contains_key(room_id)),
{
    let room = state.rooms[room_id];
    let clients = state.clients;
    let allowed = allow_list(listed, room.creator);
    let added = absent_from(allowed, room.allowed);
    let removed = absent_from(room.allowed, allowed);
    let ends = !room.current.is_empty() && remaining(state, room_id, listed).is_empty();
    law_allow_list(listed, room.creator);
    lemma_filter(allowed, |user: Seq<char>| !room.allowed.contains(user));
    lemma_filter(room.allowed, |user: Seq<char>| !allowed.contains(user));
    assert forall|user: Seq<char>| #[trigger] added.contains(user) <==> allowed.contains(user)
        && !room.allowed.contains(user) by {}
    assert forall|user: Seq<char>| #[trigger] removed.contains(user) <==> room.allowed.contains(
        user,
    ) && !allowed.contains(user) by {}
    let told = notify(added, room_id, created_args(room_id, room), clients);
    let left = remove_users(removed, room_id, room.current, clients).1;
    let dropped = notify(removed, room_id, destroyed_args(), clients);
    let end = notify(allowed, room_id, destroyed_args(), clients);
    let a = notices_to(room_id, Event::Created, clients_of_users(added, clients));
    let b = departures(removed, room_id, room.current, clients);
    let c = notices_to(room_id, Event::Ended, clients_of_users(removed, clients));
    let d = notices_to(room_id, Event::Ended, clients_of_users(allowed, clients));
    lemma_one_each_users(added, room_id, Event::Created, state);
    lemma_departures(removed, room_id, room.current, state);
    lemma_one_each_users(removed, room_id, Event::Ended, state);
    lemma_one_each_users(allowed, room_id, Event::Ended, state);
    lemma_one_each_add(told, a, left, b, state);
    assert(a.union(b).disjoint(c));
    lemma_one_each_add(told + left, a.union(b), dropped, c, state);
    let three = a.union(b).union(c);
    assert(three.disjoint(d));
    lemma_one_each_add(told + left + dropped, three, end, d, state);
    let all = list_notices(state, room_id, listed);
    assert forall|n: Notice| #[trigger] b.contains(n) implies all.contains(n) by {
        lemma_departure_is_listed(state, room_id, listed, n);
    }
    assert forall|n: Notice| #[trigger] all.contains(n) && n.event is Left implies b.contains(
        n,
    ) by {
        lemma_departure_is_listed(state, room_id, listed, n);
    }
    if ends {
        assert(three.union(d) =~= all);
    } else {
        assert(three =~= all);
    }
    lemma_only_to(set_allowed(state, room_id, listed).1, all, state);
}

proof fn lemma_departure_is_listed(
    state: StateView,
    room_id: u128,
    listed: Seq<Seq<char>>,
    n: Notice,
)
    requires
        state.wf(),
        state.rooms.contains_key(room_id),
        n.event is Left,
    ensures
        ({
            let room = state.rooms[room_id];
            let removed = absent_from(room.allowed, allow_list(listed, room.creator));
            departures(removed, room_id, room.current, state.clients).contains(n)
                <==> list_notices(state, room_id, listed).contains(n)
        }),
{
    let room = state.rooms[room_id];
    let allowed = allow_list(listed, room.creator);
    let removed = absent_from(room.allowed, allowed);
    let user = state.clients.identified[n.to].0;
    lemma_filter(room.allowed, |user: Seq<char>| !allowed.contains(user));
    assert(removed.contains(user) <==> room.allowed.contains(user) && !allowed.contains(user));
    match n.event {
        Event::Left(gone, name) => {
            assert(removed.contains(name) <==> room.allowed.contains(name) && !allowed.contains(
                name,
            ));
            if room.current.contains(gone) && state.clients.identified.contains_key(gone) {
                assert(room.allowed.contains(state.clients.identified[gone].0));
            }
            if room.current.contains(n.to) && state.clients.identified.contains_key(n.to) {
                assert(room.allowed.contains(user));
            }
        },
        _ => {},
    }
}

} // verus!
