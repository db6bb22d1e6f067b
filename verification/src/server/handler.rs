//! Requests of clients, and what becomes of them.

use crate::ids::{
    ascending, format_id, id_text, lemma_ascending, parse_id, sorted_ids, sorted_keys,
};
use crate::json::{
    Json, JsonView, fields_view, find_str, items_view, json_of_text, opt_json_view, parse, take,
    text_of_json,
};
use crate::lists::{lemma_filter, lemma_push_contains};
use crate::server::keeping::{law_disconnect_keeps_wf, law_requests_keep_wf};
use crate::server::messages::{
    active_args, created_args, destroyed_args, field, id_json, joined_args, left_args,
    member_details, message_args, room_details,
};
use crate::server::rules;
use crate::server::rules::{AnswerView, Batch, Outcome, Sent, Step};
use crate::server::status::{BAD_REQUEST, CONFLICT, FORBIDDEN, NOT_FOUND, OK, canonical_reason};
use crate::server::{
    Clients, Room, RoomView, State, StateView, rooms_view, strings_view, versions_view,
};
use crate::text::same_text;
use std::collections::{BTreeMap, BTreeSet};
use vstd::prelude::*;

verus! {

/// Messages to be sent, each with the number of the channel it leaves by.
pub type RequestList = Vec<(String, u64)>;

/// What a list of messages says.
pub open spec fn sent_view(requests: Seq<(String, u64)>) -> Sent {
    requests.map_values(|request: (String, u64)| (request.0@, request.1))
}

/// What a request was answered with.
pub enum Answer {
    /// It was served, and this is what it asked for.
    Done(Vec<Json>),
    /// It was refused, with this status code and for this reason.
    Refused(u16, &'static str),
}

impl View for Answer {
    type V = AnswerView;

    open spec fn view(&self) -> AnswerView {
        match self {
            Answer::Done(args) => AnswerView::Done(items_view(args@)),
            Answer::Refused(code, reason) => AnswerView::Refused(*code, reason@),
        }
    }
}

/// Whether this is what came of a request.
pub open spec fn came_of(
    outcome: Outcome,
    before: StateView,
    after: StateView,
    result: (Answer, RequestList),
) -> bool {
    &&& after == StateView { rooms: outcome.rooms, ..before }
    &&& result.0@ == outcome.answer
    &&& sent_view(result.1@) == outcome.sent
}

/// A request that was served.
fn done(args: Vec<Json>, requests: RequestList) -> (r: (Answer, RequestList))
    ensures
        r.0@ == AnswerView::Done(items_view(args@)),
        args@.len() == 0 ==> r.0@ == AnswerView::Done(Seq::empty()),
        r.1@ == requests@,
{
    assert(args@.len() == 0 ==> items_view(args@) =~= Seq::empty());
    (Answer::Done(args), requests)
}

/// A request that was refused.
fn refuse(code: u16, reason: &'static str) -> (r: (Answer, RequestList))
    ensures
        r.0@ == AnswerView::Refused(code, reason@),
        sent_view(r.1@) == Sent::empty(),
{
    let none: RequestList = Vec::new();
    assert(sent_view(none@) =~= Sent::empty());
    (Answer::Refused(code, reason), none)
}

/// Whether this is what a request left behind.
pub open spec fn stepped(
    step: Step,
    before: StateView,
    after: StateView,
    result: (Json, RequestList),
) -> bool {
    &&& after == StateView { rooms: step.rooms, ..before }
    &&& result.0@ == step.response
    &&& sent_view(result.1@) == step.sent
}

/// Whether this is what a batch of requests left behind.
pub open spec fn batched(
    batch: Batch,
    before: StateView,
    after: StateView,
    result: (String, RequestList),
) -> bool {
    &&& after == StateView { rooms: batch.rooms, ..before }
    &&& result.0@ == text_of_json(JsonView::Array(batch.responses))
    &&& sent_view(result.1@) == batch.sent
}

/// What a batch of requests says.
pub open spec fn requests_view(requests: Seq<Vec<(String, Json)>>) -> Seq<rules::Fields> {
    requests.map_values(|request: Vec<(String, Json)>| fields_view(request@))
}

/// A response, and no messages to others.
fn just(response: Json) -> (r: (Json, RequestList))
    ensures
        r.0@ == response@,
        sent_view(r.1@) == Sent::empty(),
{
    let none: RequestList = Vec::new();
    assert(sent_view(none@) =~= Sent::empty());
    (response, none)
}

/// The text of the argument at an index, if it is a string.
fn arg_str(args: &Vec<Json>, i: usize) -> (r: Option<&str>)
    ensures
        opt_view(r) == rules::arg_str(items_view(args@), i as int),
{
    if i < args.len() {
        assert(items_view(args@)[i as int] == args@[i as int]@);
        args[i].as_str()
    } else {
        None
    }
}

/// The strings among the arguments from an index on.
fn strings_from(args: &Vec<Json>, from: usize) -> (r: Vec<String>)
    ensures
        strings_view(r@) == rules::strings_from(items_view(args@), from as int),
{
    let ghost as_str = |v: JsonView| v.as_str();
    let mut r: Vec<String> = Vec::new();
    assert(strings_view(r@) =~= Seq::empty());
    if from > args.len() {
        return r;
    }
    let ghost rest = items_view(args@).skip(from as int);
    assert(strings_view(r@) =~= rest.take(0).filter_map(as_str));
    let mut i: usize = from;
    while i < args.len()
        invariant
            from <= i <= args@.len(),
            as_str == (|v: JsonView| v.as_str()),
            rest == items_view(args@).skip(from as int),
            strings_view(r@) == rest.take(i - from).filter_map(as_str),
        decreases args@.len() - i,
    {
        proof {
            rest.lemma_filter_map_take_succ(as_str, i - from);
            assert(rest[i - from] == args@[i as int]@);
        }
        match args[i].as_str() {
            Some(s) => {
                let ghost before = r@;
                r.push(s.to_owned());
                assert(strings_view(r@) =~= strings_view(before).push(s@));
            },
            None => {},
        }
        i += 1;
        assert(strings_view(r@) =~= rest.take(i - from).filter_map(as_str));
    }
    assert(rest.take(i - from) =~= rest);
    r
}

/// A text by reference.
fn opt_str(s: &Option<String>) -> (r: Option<&str>)
    ensures
        match s {
            Some(s) => r matches Some(t) && t@ == s@,
            None => r is None,
        },
{
    match s {
        Some(s) => Some(s.as_str()),
        None => None,
    }
}

/// Whether a text is on a list.
fn contains_text(list: &Vec<String>, s: &str) -> (r: bool)
    ensures
        r == strings_view(list@).contains(s@),
{
    for i in 0..list.len()
        invariant
            forall|k: int| 0 <= k < i ==> strings_view(list@)[k] != s@,
    {
        if same_text(list[i].as_str(), s) {
            assert(strings_view(list@)[i as int] == s@);
            return true;
        }
    }
    false
}

/// The text of an optional string.
pub open spec fn opt_view(s: Option<&str>) -> Option<Seq<char>> {
    match s {
        Some(s) => Some(s@),
        None => None,
    }
}

/// The server's side of the protocol.
pub struct Handler {}

impl Handler {
    /// A message from the server that tells clients of an event.
    pub fn make_request(room_id: Option<u128>, args: Vec<Json>) -> (r: Json)
        ensures
            r@ == rules::request_json(room_id, items_view(args@)),
    {
        let mut fields: Vec<(String, Json)> = Vec::new();
        fields.push(field("type", Json::text("request")));
        match room_id {
            Some(room_id) => {
                fields.push(field("room_id", id_json(room_id)));
            },
            None => {},
        }
        fields.push(field("args", Json::array(args)));
        fields.push(field("request_id", Json::text("")));
        let request: Json = Json::object(fields);
        let ghost inner = request@;
        let r: Json = Json::array(vec![request]);
        assert(r@->Array_0 =~= seq![inner]);
        assert(fields_view(fields@) =~= rules::request_json(
            room_id,
            items_view(args@),
        )->Array_0[0]->Object_0);
        r
    }

    /// The response to one request.
    pub fn make_response(code: u16, args: Option<Vec<Json>>, request_id: Option<&str>) -> (r: Json)
        ensures
            r@ == rules::response_json(
                code,
                match args {
                    Some(args) => items_view(args@),
                    None => Seq::empty(),
                },
                match request_id {
                    Some(request_id) => request_id@,
                    None => ""@,
                },
            ),
    {
        let args: Vec<Json> = match args {
            Some(args) => args,
            None => Vec::new(),
        };
        assert(args@.len() == 0 ==> items_view(args@) =~= Seq::empty());
        let request_id: &str = match request_id {
            Some(request_id) => request_id,
            None => "",
        };
        let fields: Vec<(String, Json)> = vec![
            field("type", Json::text("response")),
            field("status_code", Json::Uint(code as u64)),
            field("args", Json::array(args)),
            field("request_id", Json::text(request_id)),
        ];
        assert(fields_view(fields@) =~= rules::response_json(
            code,
            items_view(args@),
            request_id@,
        )->Object_0);
        Json::object(fields)
    }

    /// The response to a request that could not be served, given the standard phrase of its code
    /// where it has one. Without a code it is a bad request, and without a text it says the
    /// phrase.
    pub fn error_response_with(
        request_id: Option<&str>,
        error_code: Option<u16>,
        error_str: Option<&str>,
        phrase: Option<&str>,
    ) -> (r: Json)
        ensures
            r@ == rules::error_json_with(
                opt_view(request_id),
                error_code,
                opt_view(error_str),
                opt_view(phrase),
            ),
    {
        let code: u16 = match error_code {
            Some(code) => code,
            None => BAD_REQUEST,
        };
        let reason: &str = match error_str {
            Some(reason) => reason,
            None => match phrase {
                Some(phrase) => phrase,
                None => "Bad request",
            },
        };
        let args: Vec<Json> = vec![Json::text(reason)];
        assert(items_view(args@) =~= seq![rules::word(reason@)]);
        Self::make_response(code, Some(args), request_id)
    }

    /// The response to a request that could not be served. Without a code it is a bad request, and
    /// without a text it says the standard phrase of the code.
    pub fn error_response(
        request_id: Option<&str>,
        error_code: Option<u16>,
        error_str: Option<&str>,
    ) -> (r: Json)
        ensures
            r@ == rules::error_json(opt_view(request_id), error_code, opt_view(error_str)),
            (error_code is None || error_code == Some(BAD_REQUEST)) && error_str is None ==> r@
                == rules::response_json(
                BAD_REQUEST,
                seq![rules::word("Bad Request"@)],
                match request_id {
                    Some(request_id) => request_id@,
                    None => ""@,
                },
            ),
    {
        let code: u16 = match error_code {
            Some(code) => code,
            None => BAD_REQUEST,
        };
        let phrase: Option<&'static str> = canonical_reason(code);
        Self::error_response_with(request_id, error_code, error_str, phrase)
    }

    /// All the responses to a batch of requests.
    pub fn all_responses(responses: Vec<Json>) -> (r: Json)
        ensures
            r@ == JsonView::Array(items_view(responses@)),
    {
        Json::array(responses)
    }

    /// The channels of those of the clients that have identified.
    pub fn client_ids_to_senders(client_ids: &Vec<u128>, clients: &Clients) -> (r: Vec<u64>)
        ensures
            r@ == rules::senders(client_ids@, clients@),
    {
        broadcast use crate::ids::group_id_collections;

        let ghost sender = rules::sender_of(clients@);
        let mut r: Vec<u64> = Vec::new();
        assert(r@ =~= client_ids@.take(0).filter_map(sender));
        for i in 0..client_ids.len()
            invariant
                r@ == client_ids@.take(i as int).filter_map(sender),
                sender == rules::sender_of(clients@),
        {
            proof {
                client_ids@.lemma_filter_map_take_succ(sender, i as int);
            }
            match clients.identified.get(&client_ids[i]) {
                Some(entry) => {
                    r.push(entry.1.tx);
                },
                None => {},
            }
            assert(r@ =~= client_ids@.take(i + 1).filter_map(sender));
        }
        assert(client_ids@.take(client_ids@.len() as int) =~= client_ids@);
        r
    }

    /// The messages that tell an event to each of these clients that has identified.
    pub fn clients_request_builder(
        client_ids: &Vec<u128>,
        room_id: Option<u128>,
        args: Vec<Json>,
        clients: &Clients,
    ) -> (r: RequestList)
        ensures
            sent_view(r@) == rules::broadcast(client_ids@, room_id, items_view(args@), clients@),
    {
        let senders: Vec<u64> = Self::client_ids_to_senders(client_ids, clients);
        let message: String = Self::make_request(room_id, args).to_text();
        let ghost all = rules::addressed(message@, senders@);
        let mut r: RequestList = Vec::new();
        for i in 0..senders.len()
            invariant
                all == rules::addressed(message@, senders@),
                sent_view(r@) == all.take(i as int),
        {
            let ghost before = r@;
            r.push((message.clone(), senders[i]));
            assert(sent_view(r@) =~= sent_view(before).push((message@, senders@[i as int])));
            assert(all.take(i + 1) =~= all.take(i as int).push(all[i as int]));
        }
        assert(all.take(senders@.len() as int) =~= all);
        r
    }

    /// The messages that tell an event to every client of each of these users.
    pub fn users_craft_messages(
        users: &Vec<String>,
        room_id: u128,
        args: Vec<Json>,
        clients: &Clients,
    ) -> (r: RequestList)
        ensures
            sent_view(r@) == rules::notify(
                strings_view(users@),
                room_id,
                items_view(args@),
                clients@,
            ),
    {
        let ghost names = strings_view(users@);
        let ghost ids_of = rules::clients_of(clients@);
        let mut connected: Vec<u128> = Vec::new();
        assert(connected@ =~= names.take(0).flat_map(ids_of));
        for i in 0..users.len()
            invariant
                names == strings_view(users@),
                ids_of == rules::clients_of(clients@),
                connected@ == names.take(i as int).flat_map(ids_of),
        {
            proof {
                names.lemma_flat_map_take_append(ids_of, i as int);
                assert(names[i as int] == users@[i as int]@);
            }
            match clients.user_clients.get(users[i].as_str()) {
                Some(infos) => {
                    let mut ids: Vec<u128> = sorted_keys(infos);
                    assert(versions_view(infos@).dom() =~= infos@.dom());
                    assert(clients@.user_clients[names[i as int]] == versions_view(infos@));
                    connected.append(&mut ids);
                },
                None => {},
            }
            assert(connected@ =~= names.take(i + 1).flat_map(ids_of));
        }
        assert(names.take(names.len() as int) =~= names);
        Self::clients_request_builder(&connected, Some(room_id), args, clients)
    }

    /// The messages that tell every client of each of these users of a room that they may join.
    pub fn users_craft_created_messages(
        users: &Vec<String>,
        room_id: u128,
        room: &Room,
        clients: &Clients,
    ) -> (r: RequestList)
        ensures
            sent_view(r@) == rules::notify(
                strings_view(users@),
                room_id,
                rules::created_args(room_id, room@),
                clients@,
            ),
    {
        Self::users_craft_messages(users, room_id, created_args(room_id, room), clients)
    }

    /// Ends a room. Everyone who was allowed in it is told.
    pub fn room_destroy(
        room_id: u128,
        rooms: &mut BTreeMap<u128, Room>,
        clients: &Clients,
    ) -> (r: RequestList)
        ensures
            (rooms_view(final(rooms)@), sent_view(r@)) == rules::remove_room(
                rooms_view(old(rooms)@),
                room_id,
                clients@,
            ),
    {
        broadcast use crate::ids::group_id_collections;

        let ghost before = rooms@;
        match rooms.remove(&room_id) {
            Some(room) => {
                assert(rooms_view(rooms@) =~= rooms_view(before).remove(room_id));
                Self::users_craft_messages(&room.allowed_users, room_id, destroyed_args(), clients)
            },
            None => {
                assert(rooms_view(rooms@) =~= rooms_view(before));
                let r: RequestList = Vec::new();
                assert(sent_view(r@) =~= Seq::empty());
                r
            },
        }
    }

    /// Lets a client into a room. The members are told, or everyone who is allowed in the room
    /// where it had no members. Gives the messages, and the members that the client finds.
    pub fn room_add_client(
        client_id: u128,
        user_id: &str,
        room_id: u128,
        room: &mut Room,
        clients: &Clients,
    ) -> (r: (RequestList, Vec<Json>))
        ensures
            final(room)@ == rules::with_client(old(room)@, client_id),
            sent_view(r.0@) == rules::join_sent(
                client_id,
                user_id@,
                room_id,
                old(room)@,
                clients@,
            ),
            items_view(r.1@) == rules::members(old(room)@, clients@),
    {
        broadcast use crate::ids::group_id_collections;

        let ids: Vec<u128> = sorted_ids(&room.current_clients);
        let members: Vec<Json> = Self::member_list(&ids, clients);
        let requests: RequestList = if room.current_clients.is_empty() {
            Self::users_craft_messages(&room.allowed_users, room_id, active_args(), clients)
        } else {
            Self::clients_request_builder(
                &ids,
                Some(room_id),
                joined_args(client_id, user_id),
                clients,
            )
        };
        room.current_clients.insert(client_id);
        (requests, members)
    }

    /// What a newcomer is told of the members of a room.
    fn member_list(ids: &Vec<u128>, clients: &Clients) -> (r: Vec<Json>)
        ensures
            items_view(r@) == ids@.filter_map(rules::member_of(clients@)),
    {
        broadcast use crate::ids::group_id_collections;

        let ghost member = rules::member_of(clients@);
        let mut r: Vec<Json> = Vec::new();
        assert(items_view(r@) =~= ids@.take(0).filter_map(member));
        for i in 0..ids.len()
            invariant
                member == rules::member_of(clients@),
                items_view(r@) == ids@.take(i as int).filter_map(member),
        {
            proof {
                ids@.lemma_filter_map_take_succ(member, i as int);
            }
            match clients.identified.get(&ids[i]) {
                Some(entry) => {
                    let ghost before = r@;
                    let details: Json = member_details(entry.0.as_str(), ids[i]);
                    r.push(details);
                    assert(items_view(r@) =~= items_view(before).push(details@));
                },
                None => {},
            }
            assert(items_view(r@) =~= ids@.take(i + 1).filter_map(member));
        }
        assert(ids@.take(ids@.len() as int) =~= ids@);
        r
    }

    /// Takes a client out of a room. Those who stay are told.
    pub fn room_remove_client(
        client_id: u128,
        user_id: &str,
        room_id: u128,
        room: &mut Room,
        clients: &Clients,
    ) -> (r: RequestList)
        ensures
            final(room)@ == rules::without_client(old(room)@, client_id),
            sent_view(r@) == rules::leave_sent(client_id, user_id@, room_id, old(room)@, clients@),
    {
        broadcast use crate::ids::group_id_collections;

        let ghost before = room@;
        let removed: bool = room.current_clients.remove(&client_id);
        assert(room@ =~= rules::without_client(before, client_id));
        if removed && !room.current_clients.is_empty() {
            let ids: Vec<u128> = sorted_ids(&room.current_clients);
            Self::clients_request_builder(
                &ids,
                Some(room_id),
                left_args(client_id, user_id),
                clients,
            )
        } else {
            let r: RequestList = Vec::new();
            assert(sent_view(r@) =~= Seq::empty());
            r
        }
    }

    /// Takes all clients of a user out of a room. Those who stay are told of each.
    pub fn room_remove_user(
        user_id: &str,
        room_id: u128,
        room: &mut Room,
        clients: &Clients,
    ) -> (r: RequestList)
        ensures
            final(room)@ == (RoomView {
                current: rules::without_user(old(room)@.current, user_id@, clients@),
                ..old(room)@
            }),
            sent_view(r@) == rules::remove_user_sent(
                user_id@,
                room_id,
                old(room)@.current,
                clients@,
            ),
    {
        broadcast use crate::ids::group_id_collections;

        let ghost before = room@;
        let ids: Vec<u128> = match clients.user_clients.get(user_id) {
            Some(infos) => {
                assert(versions_view(infos@).dom() =~= infos@.dom());
                sorted_keys(infos)
            },
            None => Vec::new(),
        };
        proof {
            assert(ids@ =~= rules::clients_of(clients@)(user_id@));
            if clients@.user_clients.contains_key(user_id@) {
                lemma_ascending(clients@.user_clients[user_id@].dom());
            }
        }
        let removed: Vec<u128> = Self::take_out(&ids, room);
        proof {
            assert(room@.current =~= rules::without_user(before.current, user_id@, clients@));
        }
        let mut r: RequestList = Vec::new();
        assert(sent_view(r@) =~= Seq::empty());
        if !room.current_clients.is_empty() {
            let rest: Vec<u128> = sorted_ids(&room.current_clients);
            let ghost told = rules::departure(user_id@, room_id, room@.current, clients@);
            assert(sent_view(r@) =~= removed@.take(0).flat_map(told));
            for i in 0..removed.len()
                invariant
                    rest@ == ascending(room@.current),
                    told == rules::departure(user_id@, room_id, room@.current, clients@),
                    sent_view(r@) == removed@.take(i as int).flat_map(told),
            {
                let ghost sofar = r@;
                let mut more: RequestList = Self::clients_request_builder(
                    &rest,
                    Some(room_id),
                    left_args(removed[i], user_id),
                    clients,
                );
                let ghost new = more@;
                proof {
                    removed@.lemma_flat_map_take_append(told, i as int);
                }
                r.append(&mut more);
                assert(sent_view(r@) =~= sent_view(sofar) + sent_view(new));
            }
            assert(removed@.take(removed@.len() as int) =~= removed@);
        }
        r
    }

    /// Takes these clients out of a room. Gives those that were in it.
    fn take_out(ids: &Vec<u128>, room: &mut Room) -> (r: Vec<u128>)
        requires
            ids@.no_duplicates(),
        ensures
            final(room)@ == (RoomView {
                current: old(room)@.current.difference(ids@.to_set()),
                ..old(room)@
            }),
            r@ == rules::present(ids@, old(room)@.current),
    {
        broadcast use crate::ids::group_id_collections;

        let ghost before = room@;
        let ghost was_in = |id: u128| before.current.contains(id);
        let mut r: Vec<u128> = Vec::new();
        proof {
            reveal(Seq::filter);
            assert(r@ =~= ids@.take(0).filter(was_in));
        }
        for i in 0..ids.len()
            invariant
                ids@.no_duplicates(),
                was_in == (|id: u128| before.current.contains(id)),
                room@ == (RoomView { current: room@.current, ..before }),
                forall|id: u128| #[trigger]
                    room@.current.contains(id) <==> before.current.contains(id) && !ids@.take(
                        i as int,
                    ).contains(id),
                r@ == ids@.take(i as int).filter(was_in),
        {
            let id: u128 = ids[i];
            proof {
                assert(ids@.take(i + 1) =~= ids@.take(i as int).push(id));
                ids@.take(i as int).lemma_filter_push(id, was_in);
                assert(!ids@.take(i as int).contains(id));
                assert forall|other: u128| #[trigger]
                    ids@.take(i + 1).contains(other) <==> (ids@.take(i as int).contains(other)
                        || other == id) by {
                    lemma_push_contains(ids@.take(i as int), id, other);
                }
            }
            if room.current_clients.remove(&id) {
                r.push(id);
            }
        }
        assert(ids@.take(ids@.len() as int) =~= ids@);
        assert(room@.current =~= before.current.difference(ids@.to_set()));
        r
    }

    /// Whether a user has created a room of this name.
    fn has_room(rooms: &BTreeMap<u128, Room>, user_id: &str, name: &str) -> (r: bool)
        ensures
            r == rules::has_room(rooms_view(rooms@), user_id@, name@),
    {
        broadcast use crate::ids::group_id_collections;

        let ghost all = rooms_view(rooms@);
        let ids: Vec<u128> = sorted_keys(rooms);
        for i in 0..ids.len()
            invariant
                all == rooms_view(rooms@),
                ids@ == ascending(rooms@.dom()),
                forall|k: int|
                    0 <= k < i ==> !(all[#[trigger] ids@[k]].creator == user_id@
                        && all[ids@[k]].name == name@),
        {
            proof {
                lemma_ascending(rooms@.dom());
                assert(ids@.contains(ids@[i as int]));
            }
            match rooms.get(&ids[i]) {
                Some(room) => {
                    if same_text(room.creator.as_str(), user_id) && same_text(
                        room.name.as_str(),
                        name,
                    ) {
                        assert(all.contains_key(ids@[i as int]));
                        return true;
                    }
                },
                None => {},
            }
        }
        proof {
            lemma_ascending(rooms@.dom());
            assert forall|id: u128| #[trigger] all.contains_key(id) implies !(all[id].creator
                == user_id@ && all[id].name == name@) by {
                assert(ids@.contains(id));
            }
        }
        false
    }

    /// Creates a room, which its creator alone may join at first. All clients of the creator are
    /// told.
    pub fn room_create(state: &mut State, room_id: u128, user_id: &str, name: Option<&str>) -> (r: (
        Answer,
        RequestList,
    ))
        ensures
            came_of(
                rules::create_room(old(state)@, room_id, user_id@, opt_view(name)),
                old(state)@,
                final(state)@,
                r,
            ),
    {
        broadcast use crate::ids::group_id_collections;

        if state.rooms.contains_key(&room_id) {
            return refuse(CONFLICT, "Room ID already in use");
        }
        let name: &str = match name {
            Some(name) => name,
            None => {
                return refuse(BAD_REQUEST, "Room name missing");
            },
        };
        if Self::has_room(&state.rooms, user_id, name) {
            return refuse(CONFLICT, "Room already exists");
        }
        let room: Room = Room {
            creator: user_id.to_owned(),
            name: name.to_owned(),
            allowed_users: vec![user_id.to_owned()],
            current_clients: BTreeSet::new(),
        };
        assert(room@ =~= rules::new_room(user_id@, name@));
        let creator: Vec<String> = vec![user_id.to_owned()];
        assert(strings_view(creator@) =~= seq![user_id@]);
        let requests: RequestList = Self::users_craft_created_messages(
            &creator,
            room_id,
            &room,
            &state.clients,
        );
        state.rooms.insert(room_id, room);
        assert(state@.rooms =~= old(state)@.rooms.insert(room_id, room@));
        done(Vec::new(), requests)
    }

    /// Ends a room for its creator. Everyone who was allowed in it is told.
    pub fn room_end(state: &mut State, room_id: u128, user_id: &str) -> (r: (Answer, RequestList))
        ensures
            came_of(
                rules::destroy_room(old(state)@, room_id, user_id@),
                old(state)@,
                final(state)@,
                r,
            ),
    {
        broadcast use crate::ids::group_id_collections;

        match state.rooms.get(&room_id) {
            Some(room) => {
                if !same_text(room.creator.as_str(), user_id) {
                    return refuse(FORBIDDEN, "Forbidden");
                }
            },
            None => {
                return refuse(NOT_FOUND, "No such room");
            },
        }
        let requests: RequestList = Self::room_destroy(room_id, &mut state.rooms, &state.clients);
        done(Vec::new(), requests)
    }

    /// Tells the creator of a room who is allowed in it.
    pub fn room_get(state: &State, room_id: u128, user_id: &str, what: Option<&str>) -> (r: (
        Answer,
        RequestList,
    ))
        ensures
            came_of(
                rules::get_from_room(state@, room_id, user_id@, opt_view(what)),
                state@,
                state@,
                r,
            ),
    {
        broadcast use crate::ids::group_id_collections;

        match what {
            Some(what) => {
                if !same_text(what, "allowed-users") {
                    return refuse(BAD_REQUEST, "Unknown room get argument");
                }
            },
            None => {
                return refuse(BAD_REQUEST, "Missing room get argument");
            },
        }
        match state.rooms.get(&room_id) {
            Some(room) => {
                if !same_text(room.creator.as_str(), user_id) {
                    return refuse(FORBIDDEN, "room get not allowed");
                }
                let ghost words = room@.allowed.map_values(|s: Seq<char>| rules::word(s));
                let mut names: Vec<Json> = Vec::new();
                for i in 0..room.allowed_users.len()
                    invariant
                        words == room@.allowed.map_values(|s: Seq<char>| rules::word(s)),
                        items_view(names@) == words.take(i as int),
                {
                    let ghost before = names@;
                    names.push(Json::text(room.allowed_users[i].as_str()));
                    assert(items_view(names@) =~= items_view(before).push(words[i as int]));
                    assert(words.take(i + 1) =~= words.take(i as int).push(words[i as int]));
                }
                assert(words.take(words.len() as int) =~= words);
                let none: RequestList = Vec::new();
                assert(sent_view(none@) =~= Seq::empty());
                done(names, none)
            },
            None => refuse(NOT_FOUND, "No such room"),
        }
    }

    /// Lets a client into a room that its user is allowed in.
    pub fn room_join(state: &mut State, room_id: u128, client_id: u128, user_id: &str) -> (r: (
        Answer,
        RequestList,
    ))
        ensures
            came_of(
                rules::join_room(old(state)@, room_id, client_id, user_id@),
                old(state)@,
                final(state)@,
                r,
            ),
    {
        broadcast use crate::ids::group_id_collections;

        match state.rooms.get(&room_id) {
            Some(room) => {
                if !contains_text(&room.allowed_users, user_id) {
                    return refuse(FORBIDDEN, "Forbidden");
                }
                if room.current_clients.contains(&client_id) {
                    return refuse(CONFLICT, "Already in the room");
                }
            },
            None => {
                return refuse(NOT_FOUND, "No such room");
            },
        }
        match state.rooms.remove(&room_id) {
            Some(found) => {
                let mut room: Room = found;
                let (requests, members) = Self::room_add_client(
                    client_id,
                    user_id,
                    room_id,
                    &mut room,
                    &state.clients,
                );
                state.rooms.insert(room_id, room);
                assert(state@.rooms =~= old(state)@.rooms.insert(room_id, room@));
                done(members, requests)
            },
            None => refuse(NOT_FOUND, "No such room"),
        }
    }

    /// Takes a client out of a room. The last one out ends it.
    pub fn room_leave(state: &mut State, room_id: u128, client_id: u128, user_id: &str) -> (r: (
        Answer,
        RequestList,
    ))
        ensures
            came_of(
                rules::leave_room(old(state)@, room_id, client_id, user_id@),
                old(state)@,
                final(state)@,
                r,
            ),
    {
        broadcast use crate::ids::group_id_collections;

        match state.rooms.get(&room_id) {
            Some(room) => {
                if !room.current_clients.contains(&client_id) {
                    return refuse(BAD_REQUEST, "Not a member of room");
                }
            },
            None => {
                return refuse(NOT_FOUND, "No such room");
            },
        }
        match state.rooms.remove(&room_id) {
            Some(found) => {
                let mut room: Room = found;
                let mut requests: RequestList = Self::room_remove_client(
                    client_id,
                    user_id,
                    room_id,
                    &mut room,
                    &state.clients,
                );
                let empty: bool = room.current_clients.is_empty();
                state.rooms.insert(room_id, room);
                assert(state@.rooms =~= old(state)@.rooms.insert(room_id, room@));
                if empty {
                    let ghost left = requests@;
                    let mut end: RequestList = Self::room_destroy(
                        room_id,
                        &mut state.rooms,
                        &state.clients,
                    );
                    let ghost ended = end@;
                    requests.append(&mut end);
                    assert(sent_view(requests@) =~= sent_view(left) + sent_view(ended));
                }
                done(Vec::new(), requests)
            },
            None => refuse(NOT_FOUND, "No such room"),
        }
    }

    /// Who is allowed in a room once a list of users was named: each of them once, and the
    /// creator.
    fn allow_list(listed: &Vec<String>, creator: &str) -> (r: Vec<String>)
        ensures
            strings_view(r@) == rules::allow_list(strings_view(listed@), creator@),
    {
        let ghost names = strings_view(listed@);
        let ghost all = names.push(creator@);
        let mut r: Vec<String> = Vec::new();
        proof {
            assert(all.skip(0) =~= all);
            assert(strings_view(r@) =~= Seq::empty());
        }
        for i in 0..listed.len()
            invariant
                names == strings_view(listed@),
                all == names.push(creator@),
                all.remove_duplicates(Seq::empty()) == all.skip(i as int).remove_duplicates(
                    strings_view(r@),
                ),
        {
            let ghost before = r@;
            proof {
                assert(all.skip(i as int).skip(1) =~= all.skip(i + 1));
                assert(all.skip(i as int)[0] == listed@[i as int]@);
            }
            if !contains_text(&r, listed[i].as_str()) {
                r.push(listed[i].clone());
                assert(strings_view(r@) =~= strings_view(before) + seq![listed@[i as int]@]);
            }
        }
        let ghost before = r@;
        proof {
            let rest = all.skip(listed@.len() as int);
            assert(rest =~= seq![creator@]);
            assert(rest.skip(1) =~= Seq::empty());
            reveal_with_fuel(Seq::remove_duplicates, 2);
        }
        if !contains_text(&r, creator) {
            r.push(creator.to_owned());
            assert(strings_view(r@) =~= strings_view(before) + seq![creator@]);
        }
        r
    }

    /// Those on one list that are not on the other.
    fn absent_from(users: &Vec<String>, others: &Vec<String>) -> (r: Vec<String>)
        ensures
            strings_view(r@) == rules::absent_from(strings_view(users@), strings_view(others@)),
    {
        let ghost names = strings_view(users@);
        let ghost missing = |user: Seq<char>| !strings_view(others@).contains(user);
        let mut r: Vec<String> = Vec::new();
        proof {
            reveal(Seq::filter);
            assert(strings_view(r@) =~= names.take(0).filter(missing));
        }
        for i in 0..users.len()
            invariant
                names == strings_view(users@),
                missing == (|user: Seq<char>| !strings_view(others@).contains(user)),
                strings_view(r@) == names.take(i as int).filter(missing),
        {
            let ghost before = r@;
            proof {
                assert(names.take(i + 1) =~= names.take(i as int).push(users@[i as int]@));
                names.take(i as int).lemma_filter_push(users@[i as int]@, missing);
            }
            if !contains_text(others, users[i].as_str()) {
                r.push(users[i].clone());
                assert(strings_view(r@) =~= strings_view(before).push(users@[i as int]@));
            }
        }
        assert(names.take(names.len() as int) =~= names);
        r
    }

    /// Takes all clients of each of these users out of a room, one user after the other.
    fn room_remove_users(
        users: &Vec<String>,
        room_id: u128,
        room: &mut Room,
        clients: &Clients,
    ) -> (r: RequestList)
        ensures
            final(room)@ == (RoomView { current: final(room)@.current, ..old(room)@ }),
            (final(room)@.current, sent_view(r@)) == rules::remove_users(
                strings_view(users@),
                room_id,
                old(room)@.current,
                clients@,
            ),
    {
        let ghost names = strings_view(users@);
        let ghost before = room@;
        let mut r: RequestList = Vec::new();
        assert(sent_view(r@) =~= Seq::empty());
        for i in 0..users.len()
            invariant
                names == strings_view(users@),
                room@ == (RoomView { current: room@.current, ..before }),
                (room@.current, sent_view(r@)) == rules::remove_users(
                    names.take(i as int),
                    room_id,
                    before.current,
                    clients@,
                ),
        {
            let ghost sofar = r@;
            proof {
                assert(names.take(i + 1).drop_last() =~= names.take(i as int));
                assert(names.take(i + 1).last() == users@[i as int]@);
            }
            let mut more: RequestList = Self::room_remove_user(
                users[i].as_str(),
                room_id,
                room,
                clients,
            );
            let ghost new = more@;
            r.append(&mut more);
            assert(sent_view(r@) =~= sent_view(sofar) + sent_view(new));
        }
        assert(names.take(names.len() as int) =~= names);
        r
    }

    /// Says for the creator of a room who is allowed in it.
    pub fn room_set(
        state: &mut State,
        room_id: u128,
        user_id: &str,
        what: Option<&str>,
        listed: Vec<String>,
    ) -> (r: (Answer, RequestList))
        ensures
            came_of(
                rules::set_on_room(
                    old(state)@,
                    room_id,
                    user_id@,
                    opt_view(what),
                    strings_view(listed@),
                ),
                old(state)@,
                final(state)@,
                r,
            ),
    {
        broadcast use crate::ids::group_id_collections;

        match what {
            Some(what) => {
                if !same_text(what, "allowed-users") {
                    return refuse(BAD_REQUEST, "Unknown room set argument");
                }
            },
            None => {
                return refuse(BAD_REQUEST, "Missing room set argument");
            },
        }
        match state.rooms.get(&room_id) {
            Some(room) => {
                if !same_text(room.creator.as_str(), user_id) {
                    return refuse(FORBIDDEN, "room set not allowed");
                }
            },
            None => {
                return refuse(NOT_FOUND, "No such room");
            },
        }
        match state.rooms.remove(&room_id) {
            Some(found) => {
                let mut room: Room = found;
                let ghost before = room@;
                let had_clients: bool = !room.current_clients.is_empty();
                let allowed: Vec<String> = Self::allow_list(&listed, room.creator.as_str());
                let added: Vec<String> = Self::absent_from(&allowed, &room.allowed_users);
                let removed: Vec<String> = Self::absent_from(&room.allowed_users, &allowed);
                let mut requests: RequestList = Self::users_craft_created_messages(
                    &added,
                    room_id,
                    &room,
                    &state.clients,
                );
                let ghost told = requests@;
                let mut left: RequestList = Self::room_remove_users(
                    &removed,
                    room_id,
                    &mut room,
                    &state.clients,
                );
                let ghost kicked = left@;
                let mut gone: RequestList = Self::users_craft_messages(
                    &removed,
                    room_id,
                    destroyed_args(),
                    &state.clients,
                );
                let ghost dropped = gone@;
                requests.append(&mut left);
                requests.append(&mut gone);
                let ghost sofar = requests@;
                assert(sent_view(sofar) =~= sent_view(told) + sent_view(kicked) + sent_view(
                    dropped,
                ));
                room.allowed_users = allowed;
                let empty: bool = room.current_clients.is_empty();
                state.rooms.insert(room_id, room);
                assert(state@.rooms =~= old(state)@.rooms.insert(room_id, room@));
                if had_clients && empty {
                    let mut end: RequestList = Self::room_destroy(
                        room_id,
                        &mut state.rooms,
                        &state.clients,
                    );
                    let ghost ended = end@;
                    requests.append(&mut end);
                    assert(sent_view(requests@) =~= sent_view(sofar) + sent_view(ended));
                }
                done(Vec::new(), requests)
            },
            None => refuse(NOT_FOUND, "No such room"),
        }
    }

    /// Whether an identifier is among the recipients.
    fn is_listed(id: u128, to: &Vec<Json>) -> (r: bool)
        ensures
            r == items_view(to@).contains(rules::word(id_text(id))),
    {
        let text: String = format_id(id);
        for i in 0..to.len()
            invariant
                text@ == id_text(id),
                forall|k: int| 0 <= k < i ==> items_view(to@)[k] != rules::word(text@),
        {
            assert(items_view(to@)[i as int] == to@[i as int]@);
            match to[i].as_str() {
                Some(s) => {
                    if same_text(s, text.as_str()) {
                        return true;
                    }
                },
                None => {},
            }
        }
        false
    }

    /// Those of the clients that are among the recipients.
    fn listed_in(ids: &Vec<u128>, to: &Vec<Json>) -> (r: Vec<u128>)
        ensures
            r@ == rules::listed_in(ids@, items_view(to@)),
    {
        let ghost named = |id: u128|
            items_view(to@).contains(rules::word(id_text(id)));
        let mut r: Vec<u128> = Vec::new();
        proof {
            reveal(Seq::filter);
            assert(r@ =~= ids@.take(0).filter(named));
        }
        for i in 0..ids.len()
            invariant
                named == (|id: u128|
                    items_view(to@).contains(rules::word(id_text(id)))),
                r@ == ids@.take(i as int).filter(named),
        {
            proof {
                assert(ids@.take(i + 1) =~= ids@.take(i as int).push(ids@[i as int]));
                ids@.take(i as int).lemma_filter_push(ids@[i as int], named);
            }
            if Self::is_listed(ids[i], to) {
                r.push(ids[i]);
            }
        }
        assert(ids@.take(ids@.len() as int) =~= ids@);
        r
    }

    /// Brings a message of a member to the members that it names.
    pub fn room_message(
        state: &State,
        room_id: u128,
        client_id: u128,
        message: Option<Json>,
        to: Option<Vec<Json>>,
    ) -> (r: (Answer, RequestList))
        ensures
            came_of(
                rules::message_room(
                    state@,
                    room_id,
                    client_id,
                    opt_json_view(message),
                    match to {
                        Some(to) => Some(items_view(to@)),
                        None => None,
                    },
                ),
                state@,
                state@,
                r,
            ),
    {
        broadcast use crate::ids::group_id_collections;

        match (message, to) {
            (Some(message), Some(to)) => match state.rooms.get(&room_id) {
                Some(room) => {
                    if !room.current_clients.contains(&client_id) {
                        return refuse(BAD_REQUEST, "Not a room member");
                    }
                    let ids: Vec<u128> = sorted_ids(&room.current_clients);
                    let recipients: Vec<u128> = Self::listed_in(&ids, &to);
                    let requests: RequestList = Self::clients_request_builder(
                        &recipients,
                        Some(room_id),
                        message_args(message, client_id),
                        &state.clients,
                    );
                    done(Vec::new(), requests)
                },
                None => refuse(NOT_FOUND, "No such room"),
            },
            _ => refuse(BAD_REQUEST, "Bad request"),
        }
    }

    /// The rooms that a user may join.
    pub fn room_list(state: &State, user_id: &str) -> (r: Vec<Json>)
        ensures
            items_view(r@) == rules::list_rooms(state@.rooms, user_id@),
    {
        broadcast use crate::ids::group_id_collections;

        let ghost rooms = state@.rooms;
        let ghost shown = rules::listing(rooms, user_id@);
        let ids: Vec<u128> = sorted_keys(&state.rooms);
        let mut r: Vec<Json> = Vec::new();
        assert(items_view(r@) =~= ids@.take(0).filter_map(shown));
        for i in 0..ids.len()
            invariant
                rooms == state@.rooms,
                shown == rules::listing(rooms, user_id@),
                ids@ == ascending(state.rooms@.dom()),
                items_view(r@) == ids@.take(i as int).filter_map(shown),
        {
            proof {
                lemma_ascending(state.rooms@.dom());
                assert(ids@.contains(ids@[i as int]));
                ids@.lemma_filter_map_take_succ(shown, i as int);
            }
            match state.rooms.get(&ids[i]) {
                Some(room) => {
                    if contains_text(&room.allowed_users, user_id) {
                        let ghost before = r@;
                        let details: Json = room_details(ids[i], room);
                        r.push(details);
                        assert(items_view(r@) =~= items_view(before).push(details@));
                    }
                },
                None => {},
            }
            assert(items_view(r@) =~= ids@.take(i + 1).filter_map(shown));
        }
        assert(ids@.take(ids@.len() as int) =~= ids@);
        assert(rooms.dom() =~= state.rooms@.dom());
        r
    }

    /// Carries out a room command, given the arguments after `room`.
    pub fn room_command(
        args: Vec<Json>,
        room_id: u128,
        client_id: u128,
        user_id: &str,
        state: &mut State,
    ) -> (r: (Answer, RequestList))
        ensures
            came_of(
                rules::room_command(
                    old(state)@,
                    room_id,
                    items_view(args@),
                    client_id,
                    user_id@,
                ),
                old(state)@,
                final(state)@,
                r,
            ),
    {
        let command: &str = match arg_str(&args, 0) {
            Some(command) => command,
            None => {
                return refuse(BAD_REQUEST, "Invalid room argument");
            },
        };
        if same_text(command, "create") {
            Self::room_create(state, room_id, user_id, arg_str(&args, 1))
        } else if same_text(command, "destroy") {
            Self::room_end(state, room_id, user_id)
        } else if same_text(command, "get") {
            Self::room_get(state, room_id, user_id, arg_str(&args, 1))
        } else if same_text(command, "set") {
            let listed: Vec<String> = strings_from(&args, 2);
            Self::room_set(state, room_id, user_id, arg_str(&args, 1), listed)
        } else if same_text(command, "join") {
            Self::room_join(state, room_id, client_id, user_id)
        } else if same_text(command, "leave") {
            Self::room_leave(state, room_id, client_id, user_id)
        } else if same_text(command, "message") {
            let mut rest: Vec<Json> = args;
            let to: Option<Vec<Json>> = if rest.len() > 2 {
                rest.remove(2).into_array()
            } else {
                None
            };
            let message: Option<Json> = if rest.len() > 1 {
                Some(rest.remove(1))
            } else {
                None
            };
            Self::room_message(state, room_id, client_id, message, to)
        } else {
            refuse(BAD_REQUEST, "Invalid room argument")
        }
    }

    /// Handles a `room` request, given the arguments after `room`. Gives the response, and the
    /// messages to other clients.
    pub fn handle_room(
        args: Vec<Json>,
        room_id: Option<&str>,
        request_id: &str,
        client_id: u128,
        user_id: &str,
        state: &mut State,
    ) -> (r: (Json, RequestList))
        ensures
            stepped(
                rules::handle_room(
                    old(state)@,
                    items_view(args@),
                    opt_view(room_id),
                    request_id@,
                    client_id,
                    user_id@,
                ),
                old(state)@,
                final(state)@,
                r,
            ),
    {
        match room_id {
            Some(text) => match parse_id(text) {
                Some(room_id) => {
                    let (answer, requests) = Self::room_command(
                        args,
                        room_id,
                        client_id,
                        user_id,
                        state,
                    );
                    (Self::answer_response(answer, request_id), requests)
                },
                None => just(
                    Self::answer_response(
                        Answer::Refused(BAD_REQUEST, "Bad room_id, must be UUID4"),
                        request_id,
                    ),
                ),
            },
            None => {
                let is_list: bool = match arg_str(&args, 0) {
                    Some(command) => same_text(command, "list"),
                    None => false,
                };
                if is_list {
                    let rooms: Vec<Json> = Self::room_list(state, user_id);
                    just(Self::answer_response(Answer::Done(rooms), request_id))
                } else {
                    just(
                        Self::answer_response(
                            Answer::Refused(BAD_REQUEST, "room_id not specified"),
                            request_id,
                        ),
                    )
                }
            },
        }
    }

    /// The response that carries an answer.
    fn answer_response(answer: Answer, request_id: &str) -> (r: Json)
        ensures
            r@ == rules::answer_json(answer@, request_id@),
    {
        match answer {
            Answer::Done(args) => Self::make_response(OK, Some(args), Some(request_id)),
            Answer::Refused(code, reason) => {
                let args: Vec<Json> = vec![Json::text(reason)];
                assert(items_view(args@) =~= seq![rules::word(reason@)]);
                Self::make_response(code, Some(args), Some(request_id))
            },
        }
    }

    /// Handles one request. Gives the response, and the messages to other clients.
    pub fn handle_one(
        request: Vec<(String, Json)>,
        client_id: u128,
        user_id: &str,
        state: &mut State,
    ) -> (r: (Json, RequestList))
        ensures
            stepped(
                rules::handle_one(old(state)@, fields_view(request@), client_id, user_id@),
                old(state)@,
                final(state)@,
                r,
            ),
    {
        proof {
            reveal(rules::handle_one);
        }
        let kind: Option<String> = find_str(&request, "type");
        let request_id: Option<String> = find_str(&request, "request_id");
        let room_id: Option<String> = find_str(&request, "room_id");
        let args: Option<Vec<Json>> = match take(request, "args") {
            Some(args) => args.into_array(),
            None => None,
        };
        let is_request: bool = match &kind {
            Some(kind) => same_text(kind.as_str(), "request"),
            None => false,
        };
        let request_id: Option<&str> = opt_str(&request_id);
        if is_request && request_id.is_some() && args.is_some() {
            let mut args: Vec<Json> = args.unwrap();
            if args.len() == 0 {
                return just(
                    Self::error_response(request_id, Some(BAD_REQUEST), Some("Empty args")),
                );
            }
            let ghost all = args@;
            let first: Json = args.remove(0);
            proof {
                assert(items_view(all)[0] == first@);
                assert(items_view(args@) =~= items_view(all).drop_first());
            }
            let is_room: bool = match first.as_str() {
                Some(word) => same_text(word, "room"),
                None => false,
            };
            if is_room {
                Self::handle_room(
                    args,
                    opt_str(&room_id),
                    request_id.unwrap(),
                    client_id,
                    user_id,
                    state,
                )
            } else {
                just(Self::error_response(request_id, Some(BAD_REQUEST), Some("Incorrect args")))
            }
        } else {
            just(Self::error_response(request_id, Some(BAD_REQUEST), None))
        }
    }

    /// Handles a batch of requests, one after the other. Gives the text that answers them all,
    /// with a response for each in order, and the messages to other clients.
    pub fn handle_request(
        reqs: Vec<Vec<(String, Json)>>,
        client_id: u128,
        user_id: &str,
        state: &mut State,
    ) -> (r: (String, RequestList))
        ensures
            batched(
                rules::handle_all(old(state)@, requests_view(reqs@), client_id, user_id@),
                old(state)@,
                final(state)@,
                r,
            ),
            old(state)@.wf() && old(state)@.serves(client_id, user_id@) ==> final(state)@.wf(),
    {
        let ghost before = state@;
        let ghost all = requests_view(reqs@);
        let mut responses: Vec<Json> = Vec::new();
        let mut requests: RequestList = Vec::new();
        assert(items_view(responses@) =~= Seq::empty());
        assert(sent_view(requests@) =~= Seq::empty());
        for request in it: reqs
            invariant
                all == requests_view(it.seq()),
                ({
                    let batch = rules::handle_all(before, all.take(it.index()), client_id, user_id@);
                    &&& state@ == StateView { rooms: batch.rooms, ..before }
                    &&& items_view(responses@) == batch.responses
                    &&& sent_view(requests@) == batch.sent
                }),
        {
            let ghost responded = responses@;
            let ghost sofar = requests@;
            proof {
                assert(all[it.index()] == fields_view(request@));
                assert(all.take(it.index() + 1).drop_last() =~= all.take(it.index()));
            }
            let (response, mut more) = Self::handle_one(request, client_id, user_id, state);
            let ghost new = more@;
            responses.push(response);
            requests.append(&mut more);
            proof {
                assert(items_view(responses@) =~= items_view(responded).push(response@));
                assert(sent_view(requests@) =~= sent_view(sofar) + sent_view(new));
            }
        }
        proof {
            assert(all.take(all.len() as int) =~= all);
            if before.wf() && before.serves(client_id, user_id@) {
                law_requests_keep_wf(before, all, client_id, user_id@);
            }
        }
        (Self::all_responses(responses).to_text(), requests)
    }

    /// The requests that a JSON value holds, if it is an array of objects.
    fn requests_from(json: Json) -> (r: Option<Vec<Vec<(String, Json)>>>)
        ensures
            match r {
                Some(requests) => rules::requests_of(json@) == Some(requests_view(requests@)),
                None => rules::requests_of(json@) is None,
            },
    {
        let items: Vec<Json> = match json.into_array() {
            Some(items) => items,
            None => {
                return None;
            },
        };
        let ghost all = items_view(items@);
        let mut requests: Vec<Vec<(String, Json)>> = Vec::new();
        for item in it: items
            invariant
                json@.as_array() == Some(all),
                all == items_view(it.seq()),
                requests@.len() == it.index(),
                forall|k: int|
                    0 <= k < it.index() ==> (#[trigger] all[k].as_object()) == Some(
                        requests_view(requests@)[k],
                    ),
        {
            let ghost before = requests@;
            assert(all[it.index()] == item@);
            match item.into_object() {
                Some(fields) => {
                    requests.push(fields);
                    assert(requests_view(requests@) =~= requests_view(before).push(
                        fields_view(fields@),
                    ));
                },
                None => {
                    assert(all[it.index()].as_object() is None);
                    return None;
                },
            }
        }
        assert(requests_view(requests@) =~= rules::requests_of(json@)->0);
        Some(requests)
    }

    /// Handles what a message of a client was read as. Gives the text that answers it, and the
    /// messages to other clients.
    pub fn handle_json(json: Option<Json>, client_id: u128, user_id: &str, state: &mut State) -> (r: (
        String,
        RequestList,
    ))
        ensures
            batched(
                rules::handle_message(old(state)@, opt_json_view(json), client_id, user_id@),
                old(state)@,
                final(state)@,
                r,
            ),
            old(state)@.wf() && old(state)@.serves(client_id, user_id@) ==> final(state)@.wf(),
    {
        let requests: Option<Vec<Vec<(String, Json)>>> = match json {
            Some(json) => Self::requests_from(json),
            None => None,
        };
        match requests {
            Some(requests) => Self::handle_request(requests, client_id, user_id, state),
            None => {
                let errors: Vec<Json> = vec![Self::error_response(None, None, None)];
                assert(items_view(errors@) =~= seq![rules::error_json(None, None, None)]);
                let none: RequestList = Vec::new();
                assert(sent_view(none@) =~= Sent::empty());
                (Self::all_responses(errors).to_text(), none)
            },
        }
    }

    /// Takes a client out of every room that it is in. Those who stay are told. A room that it was
    /// in alone ends, and everyone who was allowed in it is told.
    pub fn leave_all(client_id: u128, user_id: &str, state: &mut State) -> (r: RequestList)
        ensures
            final(state)@ == (StateView {
                rooms: rules::rooms_without(old(state)@.rooms, client_id),
                ..old(state)@
            }),
            sent_view(r@) == rules::disconnect_sent(old(state)@, client_id, user_id@),
            old(state)@.wf() ==> final(state)@.wf(),
    {
        broadcast use crate::ids::group_id_collections;

        let ghost before = state@;
        let ghost rooms = state@.rooms;
        let ids: Vec<u128> = Self::rooms_with(state, client_id);
        let ghost departure = rules::room_departure(rooms, client_id, user_id@, before.clients);
        let ghost alone = |id: u128| rooms[id].current.remove(client_id).is_empty();
        let mut requests: RequestList = Vec::new();
        let mut emptied: Vec<u128> = Vec::new();
        proof {
            reveal(Seq::filter);
            assert(sent_view(requests@) =~= ids@.take(0).flat_map(departure));
            assert(emptied@ =~= ids@.take(0).filter(alone));
        }
        for i in 0..ids.len()
            invariant
                rooms == before.rooms,
                state@.clients == before.clients,
                ids@.no_duplicates(),
                forall|id: u128| #[trigger]
                    ids@.contains(id) <==> rooms.contains_key(id) && rooms[id].current.contains(
                        client_id,
                    ),
                departure == rules::room_departure(rooms, client_id, user_id@, before.clients),
                alone == (|id: u128| rooms[id].current.remove(client_id).is_empty()),
                state@.rooms.dom() == rooms.dom(),
                forall|id: u128| #[trigger]
                    rooms.contains_key(id) ==> state@.rooms[id] == if ids@.take(i as int).contains(
                        id,
                    ) {
                        rules::without_client(rooms[id], client_id)
                    } else {
                        rooms[id]
                    },
                sent_view(requests@) == ids@.take(i as int).flat_map(departure),
                emptied@ == ids@.take(i as int).filter(alone),
        {
            let id: u128 = ids[i];
            let ghost sofar = requests@;
            let ghost earlier = state@.rooms;
            proof {
                assert(ids@.contains(id));
                assert(!ids@.take(i as int).contains(id));
                assert(ids@.take(i + 1) =~= ids@.take(i as int).push(id));
                ids@.take(i as int).lemma_filter_push(id, alone);
                ids@.lemma_flat_map_take_append(departure, i as int);
            }
            match state.rooms.remove(&id) {
                Some(found) => {
                    let mut room: Room = found;
                    let mut more: RequestList = Self::room_remove_client(
                        client_id,
                        user_id,
                        id,
                        &mut room,
                        &state.clients,
                    );
                    let ghost new = more@;
                    requests.append(&mut more);
                    assert(sent_view(requests@) =~= sent_view(sofar) + sent_view(new));
                    if room.current_clients.is_empty() {
                        emptied.push(id);
                    }
                    state.rooms.insert(id, room);
                    assert(state@.rooms =~= earlier.insert(id, room@));
                    assert forall|other: u128| #[trigger]
                        ids@.take(i + 1).contains(other) <==> (ids@.take(i as int).contains(other)
                            || other == id) by {
                        lemma_push_contains(ids@.take(i as int), id, other);
                    }
                },
                None => {},
            }
        }
        assert(ids@.take(ids@.len() as int) =~= ids@);
        let ghost told = requests@;
        let ghost after = state@.rooms;
        let ghost end = rules::room_end(rooms, before.clients);
        proof {
            lemma_filter(ids@, alone);
        }
        assert(emptied@.take(0).flat_map(end) =~= Seq::empty());
        assert(sent_view(requests@) =~= sent_view(told) + emptied@.take(0).flat_map(end));
        for j in 0..emptied.len()
            invariant
                rooms == before.rooms,
                state@.clients == before.clients,
                emptied@.no_duplicates(),
                end == rules::room_end(rooms, before.clients),
                forall|id: u128| #[trigger]
                    emptied@.contains(id) ==> after.contains_key(id) && after[id].allowed
                        == rooms[id].allowed,
                state@.rooms == after.remove_keys(emptied@.take(j as int).to_set()),
                sent_view(requests@) == sent_view(told) + emptied@.take(j as int).flat_map(end),
        {
            let ghost sofar = requests@;
            proof {
                emptied@.lemma_flat_map_take_append(end, j as int);
                assert(emptied@.contains(emptied@[j as int]));
                assert(!emptied@.take(j as int).contains(emptied@[j as int]));
                assert(emptied@.take(j + 1) =~= emptied@.take(j as int).push(emptied@[j as int]));
            }
            let mut more: RequestList = Self::room_destroy(
                emptied[j],
                &mut state.rooms,
                &state.clients,
            );
            let ghost new = more@;
            requests.append(&mut more);
            proof {
                assert(sent_view(requests@) =~= sent_view(sofar) + sent_view(new));
                assert(sent_view(requests@) =~= sent_view(told) + emptied@.take(j + 1).flat_map(
                    end,
                ));
                emptied@.take(j as int).lemma_push_to_set_commute(emptied@[j as int]);
                assert(state@.rooms =~= after.remove_keys(emptied@.take(j + 1).to_set()));
            }
        }
        proof {
            assert(emptied@.take(emptied@.len() as int) =~= emptied@);
            assert forall|id: u128| rooms.contains_key(id) implies #[trigger] after[id]
                == rules::without_client(rooms[id], client_id) by {
                if !ids@.contains(id) {
                    assert(rooms[id].current.remove(client_id) =~= rooms[id].current);
                }
            }
            assert(state@.rooms =~= rules::rooms_without(rooms, client_id));
            if before.wf() {
                law_disconnect_keeps_wf(before, client_id);
            }
        }
        requests
    }

    /// One turn of the loop that serves a client. A message is answered. When there are no more,
    /// because the connection is gone, the client leaves every room. Gives the text of the answer,
    /// and the messages to other clients.
    pub fn cmd_loop(msg: Option<&str>, client_id: u128, user_id: &str, state: &mut State) -> (r: (
        Option<String>,
        RequestList,
    ))
        ensures
            match (msg, r.0) {
                (Some(text), Some(reply)) => batched(
                    rules::handle_message(
                        old(state)@,
                        json_of_text(text@),
                        client_id,
                        user_id@,
                    ),
                    old(state)@,
                    final(state)@,
                    (reply, r.1),
                ),
                (None, None) => final(state)@ == (StateView {
                    rooms: rules::rooms_without(old(state)@.rooms, client_id),
                    ..old(state)@
                }) && sent_view(r.1@) == rules::disconnect_sent(old(state)@, client_id, user_id@),
                _ => false,
            },
            old(state)@.wf() && old(state)@.serves(client_id, user_id@) ==> final(state)@.wf(),
    {
        match msg {
            Some(text) => {
                let (reply, requests) = Self::handle_json(parse(text), client_id, user_id, state);
                (Some(reply), requests)
            },
            None => (None, Self::leave_all(client_id, user_id, state)),
        }
    }

    /// The rooms that a client is in, in ascending order.
    fn rooms_with(state: &State, client_id: u128) -> (r: Vec<u128>)
        ensures
            r@ == rules::rooms_with(state@.rooms, client_id),
            r@.no_duplicates(),
            forall|id: u128| #[trigger]
                r@.contains(id) <==> state@.rooms.contains_key(id)
                    && state@.rooms[id].current.contains(client_id),
    {
        broadcast use crate::ids::group_id_collections;

        let ghost rooms = state@.rooms;
        let ghost inside = |id: u128| rooms[id].current.contains(client_id);
        let ids: Vec<u128> = sorted_keys(&state.rooms);
        let mut r: Vec<u128> = Vec::new();
        proof {
            reveal(Seq::filter);
            assert(r@ =~= ids@.take(0).filter(inside));
            assert(rooms.dom() =~= state.rooms@.dom());
            lemma_ascending(rooms.dom());
        }
        for i in 0..ids.len()
            invariant
                rooms == state@.rooms,
                inside == (|id: u128| rooms[id].current.contains(client_id)),
                ids@ == ascending(rooms.dom()),
                ids@.no_duplicates(),
                r@ == ids@.take(i as int).filter(inside),
        {
            let id: u128 = ids[i];
            proof {
                lemma_ascending(rooms.dom());
                assert(ids@.contains(id));
                assert(ids@.take(i + 1) =~= ids@.take(i as int).push(id));
                ids@.take(i as int).lemma_filter_push(id, inside);
            }
            match state.rooms.get(&id) {
                Some(room) => {
                    if room.current_clients.contains(&client_id) {
                        r.push(id);
                    }
                },
                None => {},
            }
        }
        proof {
            assert(ids@.take(ids@.len() as int) =~= ids@);
            lemma_ascending(rooms.dom());
            lemma_filter(ids@, inside);
        }
        r
    }
}

} // verus!
