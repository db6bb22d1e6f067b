//! What the views of the state and of results show: all there is, and nothing else.

use crate::ids::id_text;
use crate::json::{Json, JsonView, fields_view, items_view, text_of_json};
use crate::server::handler::{
    Answer, RequestList, batched, came_of, opt_view, requests_view, sent_view, stepped,
};
use crate::server::identity::{
    IdentifyPayload, Identity, IdentityView, PayloadView, TokenError, opt_claims_view,
    opt_identity_view, opt_payload_view, result_view,
};
use crate::server::rules::{AnswerView, Batch, Outcome, Step};
use crate::server::{
    ClientsView, Clients, Room, State, StateView, Welcome, is_welcome, strings_view,
};
use crate::{ClaimsView, TokenClaims};
use vstd::prelude::*;

verus! {

/// A list of strings is shown string by string.
pub proof fn law_strings_shown(strings: Seq<String>)
    ensures
        strings_view(strings).len() == strings.len(),
        forall|i: int| 0 <= i < strings.len() ==> #[trigger] strings_view(strings)[i] == strings[i]@,
{
}

/// A room is shown with its creator, its name, everyone who is allowed in it and everyone who is
/// in it.
pub proof fn law_room_shown(room: Room)
    ensures
        room@.creator == room.creator@,
        room@.name == room.name@,
        room@.allowed.len() == room.allowed_users@.len(),
        forall|i: int|
            0 <= i < room.allowed_users@.len() ==> #[trigger] room@.allowed[i]
                == room.allowed_users@[i]@,
        room@.current == room.current_clients@,
{
}

/// The clients are shown one by one, with their channels, their users and their versions.
pub proof fn law_clients_shown(clients: Clients)
    ensures
        forall|id: u128| #[trigger]
            clients@.connected.contains_key(id) <==> clients.connected@.contains_key(id),
        forall|id: u128| #[trigger]
            clients@.connected.contains_key(id) ==> clients@.connected[id]
                == clients.connected@[id].tx,
        forall|id: u128| #[trigger]
            clients@.identified.contains_key(id) <==> clients.identified@.contains_key(id),
        forall|id: u128| #[trigger]
            clients@.identified.contains_key(id) ==> clients@.identified[id] == (
                clients.identified@[id].0@,
                clients.identified@[id].1.tx,
            ),
        forall|user: Seq<char>| #[trigger]
            clients@.user_clients.contains_key(user) <==> clients.user_clients@.contains_key(user),
        forall|user: Seq<char>, id: u128|
            clients@.user_clients.contains_key(user) ==> (
            #[trigger] clients@.user_clients[user].contains_key(id)
                <==> clients.user_clients@[user]@.contains_key(id)),
        forall|user: Seq<char>, id: u128|
            clients@.user_clients.contains_key(user)
                && #[trigger] clients@.user_clients[user].contains_key(id)
                ==> clients@.user_clients[user][id]
                == clients.user_clients@[user]@[id].version@,
{
}

/// The state is shown with its clients and each of its rooms.
pub proof fn law_state_shown(state: State)
    ensures
        state@.clients == state.clients@,
        forall|id: u128| #[trigger]
            state@.rooms.contains_key(id) <==> state.rooms@.contains_key(id),
        forall|id: u128| #[trigger]
            state@.rooms.contains_key(id) ==> state@.rooms[id] == state.rooms@[id]@,
{
}

/// Messages to be sent are shown one by one, with their text and their channel.
pub proof fn law_sent_shown(requests: Seq<(String, u64)>)
    ensures
        sent_view(requests).len() == requests.len(),
        forall|i: int|
            0 <= i < requests.len() ==> #[trigger] sent_view(requests)[i] == (
                requests[i].0@,
                requests[i].1,
            ),
{
}

/// JSON is shown item by item and field by field, down to its leaves.
pub proof fn law_json_shown(items: Vec<Json>, fields: Vec<(String, Json)>, s: String, n: u64)
    ensures
        Json::Array(items)@ == JsonView::Array(items_view(items@)),
        items_view(items@).len() == items@.len(),
        forall|i: int| 0 <= i < items@.len() ==> #[trigger] items_view(items@)[i] == items@[i]@,
        Json::Object(fields)@ == JsonView::Object(fields_view(fields@)),
        fields_view(fields@).len() == fields@.len(),
        forall|i: int|
            0 <= i < fields@.len() ==> #[trigger] fields_view(fields@)[i] == (
                fields@[i].0@,
                fields@[i].1@,
            ),
        Json::Str(s)@ == JsonView::Str(s@),
        Json::Uint(n)@ == JsonView::Uint(n),
        Json::Bool(true)@ == JsonView::Bool(true),
        Json::Bool(false)@ == JsonView::Bool(false),
        Json::Null@ == JsonView::Null,
{
    crate::json::lemma_array_view(items);
    crate::json::lemma_object_view(fields);
}

/// Requests are shown one by one, with all their fields.
pub proof fn law_requests_shown(requests: Seq<Vec<(String, Json)>>)
    ensures
        requests_view(requests).len() == requests.len(),
        forall|i: int|
            0 <= i < requests.len() ==> #[trigger] requests_view(requests)[i] == fields_view(
                requests[i]@,
            ),
{
}

/// An optional text is shown as it is.
pub proof fn law_text_shown(s: Option<&str>)
    ensures
        s is None ==> opt_view(s) is None,
        s is Some ==> opt_view(s) == Some(s->0@),
{
}

/// An answer is shown with all it holds.
pub proof fn law_answer_shown(args: Vec<Json>, code: u16, reason: &'static str)
    ensures
        Answer::Done(args)@ == AnswerView::Done(items_view(args@)),
        Answer::Refused(code, reason)@ == AnswerView::Refused(code, reason@),
{
}

/// What came of a command is its rooms, its answer and its messages, and the clients are as they
/// were.
pub proof fn law_came_of(
    outcome: Outcome,
    before: StateView,
    after: StateView,
    result: (Answer, RequestList),
)
    requires
        came_of(outcome, before, after, result),
    ensures
        after.clients == before.clients,
        after.rooms == outcome.rooms,
        result.0@ == outcome.answer,
        sent_view(result.1@) == outcome.sent,
{
}

/// What a request left behind is its rooms, its response and its messages, and the clients are as
/// they were.
pub proof fn law_stepped(
    step: Step,
    before: StateView,
    after: StateView,
    result: (Json, RequestList),
)
    requires
        stepped(step, before, after, result),
    ensures
        after.clients == before.clients,
        after.rooms == step.rooms,
        result.0@ == step.response,
        sent_view(result.1@) == step.sent,
{
}

/// What a batch left behind is its rooms, the text of the array of all its responses, and its
/// messages, and the clients are as they were.
pub proof fn law_batched(
    batch: Batch,
    before: StateView,
    after: StateView,
    result: (String, RequestList),
)
    requires
        batched(batch, before, after, result),
    ensures
        after.clients == before.clients,
        after.rooms == batch.rooms,
        result.0@ == text_of_json(JsonView::Array(batch.responses)),
        sent_view(result.1@) == batch.sent,
{
}

/// Nobody is connected to a new server.
pub proof fn law_nobody(id: u128, user: Seq<char>)
    ensures
        !ClientsView::nobody().connected.contains_key(id),
        !ClientsView::nobody().identified.contains_key(id),
        !ClientsView::nobody().user_clients.contains_key(user),
{
}

/// A client that connects waits to identify, with its channel. Everyone else is where they were.
pub proof fn law_connect(clients: ClientsView, client_id: u128, tx: u64)
    ensures
        ({
            let after = clients.with_connected(client_id, tx);
            &&& after.connected.contains_key(client_id)
            &&& after.connected[client_id] == tx
            &&& after.connected.remove(client_id) == clients.connected.remove(client_id)
            &&& after.identified == clients.identified
            &&& after.user_clients == clients.user_clients
        }),
{
    let after = clients.with_connected(client_id, tx);
    assert(after.connected.remove(client_id) =~= clients.connected.remove(client_id));
}

/// A client that was waiting to identify and is let in as someone has identified as that user, by
/// the channel that it had, and stands among the clients of the user with its version. A client
/// that is not let in is forgotten, if it was waiting. Nobody waits any more under its identifier,
/// and everyone else is where they were.
pub proof fn law_admit(clients: ClientsView, client_id: u128, identity: Option<IdentityView>)
    ensures
        ({
            let after = clients.with_admitted(client_id, identity);
            &&& after.connected == clients.connected.remove(client_id)
            &&& if identity is Some && clients.connected.contains_key(client_id) {
                let user = identity->0.user_id;
                &&& after.identified.contains_key(client_id)
                &&& after.identified[client_id] == (user, clients.connected[client_id])
                &&& after.identified.remove(client_id) == clients.identified.remove(client_id)
                &&& after.user_clients.contains_key(user)
                &&& after.user_clients[user].contains_key(client_id)
                &&& after.user_clients[user][client_id] == identity->0.version
                &&& forall|id: u128|
                    id != client_id ==> (#[trigger] after.user_clients[user].contains_key(id)
                        <==> clients.user_clients.contains_key(user)
                        && clients.user_clients[user].contains_key(id))
                &&& forall|id: u128|
                    id != client_id && #[trigger] after.user_clients[user].contains_key(id)
                        ==> after.user_clients[user][id] == clients.user_clients[user][id]
                &&& after.user_clients.remove(user) == clients.user_clients.remove(user)
            } else {
                &&& after.identified == clients.identified
                &&& after.user_clients == clients.user_clients
            }
        }),
{
    let after = clients.with_admitted(client_id, identity);
    if identity is Some && clients.connected.contains_key(client_id) {
        let user = identity->0.user_id;
        assert(after.identified.remove(client_id) =~= clients.identified.remove(client_id));
        assert(after.user_clients.remove(user) =~= clients.user_clients.remove(user));
    }
}

/// A client that is let in is welcomed with `IDENTIFIED ` and its identifier, as the user that it
/// is let in as. One that is not let in is not welcomed.
pub proof fn law_welcome(welcome: Option<Welcome>, client_id: u128, identity: Option<IdentityView>)
    requires
        is_welcome(welcome, client_id, identity),
    ensures
        welcome is Some <==> identity is Some,
        welcome is Some ==> welcome->0.user_id@ == identity->0.user_id && welcome->0.reply@
            == "IDENTIFIED "@ + id_text(client_id),
{
}

/// Who someone is, and what a payload and the claims of a token say, is shown as it is.
pub proof fn law_identity_shown(
    identity: Identity,
    payload: IdentifyPayload,
    claims: TokenClaims,
    e: TokenError,
)
    ensures
        opt_identity_view(Some(identity)) == Some(
            IdentityView { user_id: identity.user_id@, version: identity.version@ },
        ),
        opt_identity_view(None) is None,
        opt_payload_view(Some(payload)) == Some(
            PayloadView { client_version: payload.client_version@, token: payload.token@ },
        ),
        opt_payload_view(None) is None,
        opt_claims_view(Some(claims)) == Some(
            ClaimsView { username: claims.username@, email: claims.email@, exp: claims.exp },
        ),
        opt_claims_view(None) is None,
        result_view(Ok(claims)) == Ok::<ClaimsView, TokenError>(claims@),
        result_view(Err(e)) == Err::<ClaimsView, TokenError>(e),
{
}

} // verus!
