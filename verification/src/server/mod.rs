//! The state of the signalling server.

use crate::ids::{format_id, id_text};
use crate::server::identity::{
    IdentifyPayload, Identity, IdentityView, identifies, identify, opt_identity_view,
};
use crate::server::keeping::{
    law_connect_keeps_wf, law_identify_keeps_wf, law_remove_keeps_wf, law_unconnect_keeps_wf,
};
use crate::TokenClaims;
use std::collections::{BTreeMap, BTreeSet, HashMap};
use vstd::hash_map::StringHashMap;
use vstd::prelude::*;

pub mod handler;
pub mod identity;
pub mod keeping;
pub mod laws;
mod messages;
pub mod requests;
pub mod rules;
pub mod shown;
pub mod status;
pub mod told;

verus! {

/// What a client said about itself when it identified.
#[derive(Debug)]
pub struct ClientInfo {
    pub version: String,
}

impl Clone for ClientInfo {
    fn clone(&self) -> (r: ClientInfo)
        ensures
            r.version@ == self.version@,
    {
        ClientInfo { version: self.version.clone() }
    }
}

/// A connection, by the number of the channel that leads to it.
#[derive(Clone, Copy, Debug)]
pub struct Client {
    pub tx: u64,
}

/// Everyone who is connected.
pub struct Clients {
    /// Connected but not identified yet.
    pub connected: HashMap<u128, Client>,
    /// Connected and identified, with the user they identified as.
    pub identified: HashMap<u128, (String, Client)>,
    /// The identified clients of each user.
    pub user_clients: StringHashMap<BTreeMap<u128, ClientInfo>>,
}

/// A room, where the clients of a call meet.
pub struct Room {
    pub creator: String,
    pub name: String,
    /// Who may join, in the order in which they were named.
    pub allowed_users: Vec<String>,
    /// Who is in the room.
    pub current_clients: BTreeSet<u128>,
}

/// What the server knows.
pub struct State {
    pub clients: Clients,
    pub rooms: BTreeMap<u128, Room>,
}

/// Everyone who is connected.
#[verifier::ext_equal]
pub struct ClientsView {
    /// The channel of each client that is connected but not identified yet.
    pub connected: Map<u128, u64>,
    /// The user and the channel of each identified client.
    pub identified: Map<u128, (Seq<char>, u64)>,
    /// The identified clients of each user, with the version each of them gave.
    pub user_clients: Map<Seq<char>, Map<u128, Seq<char>>>,
}

/// A room.
#[verifier::ext_equal]
pub struct RoomView {
    pub creator: Seq<char>,
    pub name: Seq<char>,
    pub allowed: Seq<Seq<char>>,
    pub current: Set<u128>,
}

/// What the server knows.
#[verifier::ext_equal]
pub struct StateView {
    pub clients: ClientsView,
    pub rooms: Map<u128, RoomView>,
}

/// What a list of strings says.
pub open spec fn strings_view(strings: Seq<String>) -> Seq<Seq<char>> {
    strings.map_values(|s: String| s@)
}

/// The version that each client of a user gave.
pub open spec fn versions_view(infos: Map<u128, ClientInfo>) -> Map<u128, Seq<char>> {
    infos.map_values(|info: ClientInfo| info.version@)
}

/// What each room is.
pub open spec fn rooms_view(rooms: Map<u128, Room>) -> Map<u128, RoomView> {
    rooms.map_values(|room: Room| room@)
}

impl View for Clients {
    type V = ClientsView;

    open spec fn view(&self) -> ClientsView {
        ClientsView {
            connected: self.connected@.map_values(|client: Client| client.tx),
            identified: self.identified@.map_values(|entry: (String, Client)| (entry.0@, entry.1.tx)),
            user_clients: self.user_clients@.map_values(
                |infos: BTreeMap<u128, ClientInfo>| versions_view(infos@),
            ),
        }
    }
}

impl View for Room {
    type V = RoomView;

    open spec fn view(&self) -> RoomView {
        RoomView {
            creator: self.creator@,
            name: self.name@,
            allowed: strings_view(self.allowed_users@),
            current: self.current_clients@,
        }
    }
}

impl View for State {
    type V = StateView;

    open spec fn view(&self) -> StateView {
        StateView { clients: self.clients@, rooms: rooms_view(self.rooms@) }
    }
}

impl ClientsView {
    /// Nobody.
    pub open spec fn nobody() -> ClientsView {
        ClientsView {
            connected: Map::empty(),
            identified: Map::empty(),
            user_clients: Map::empty(),
        }
    }

    /// With one more client that has not identified yet.
    pub open spec fn with_connected(self, client_id: u128, tx: u64) -> ClientsView {
        ClientsView { connected: self.connected.insert(client_id, tx), ..self }
    }

    /// Without a client that had not identified yet.
    pub open spec fn without_connected(self, client_id: u128) -> ClientsView {
        ClientsView { connected: self.connected.remove(client_id), ..self }
    }

    /// With one more client that has identified.
    pub open spec fn with_identified(
        self,
        client_id: u128,
        identity: IdentityView,
        tx: u64,
    ) -> ClientsView {
        let others = if self.user_clients.contains_key(identity.user_id) {
            self.user_clients[identity.user_id]
        } else {
            Map::empty()
        };
        ClientsView {
            identified: self.identified.insert(client_id, (identity.user_id, tx)),
            user_clients: self.user_clients.insert(
                identity.user_id,
                others.insert(client_id, identity.version),
            ),
            ..self
        }
    }

    /// With a client that was waiting to identify let in as someone, or forgotten.
    pub open spec fn with_admitted(
        self,
        client_id: u128,
        identity: Option<IdentityView>,
    ) -> ClientsView {
        match identity {
            Some(identity) if self.connected.contains_key(client_id) => self.without_connected(
                client_id,
            ).with_identified(client_id, identity, self.connected[client_id]),
            _ => self.without_connected(client_id),
        }
    }

    /// The channel of a client that is connected, whether it has identified or not.
    pub open spec fn channel_of(self, client_id: u128) -> Option<u64> {
        if self.connected.contains_key(client_id) {
            Some(self.connected[client_id])
        } else if self.identified.contains_key(client_id) {
            Some(self.identified[client_id].1)
        } else {
            None
        }
    }

    /// Whether a channel leads to nobody yet.
    pub open spec fn is_free(self, tx: u64) -> bool {
        forall|id: u128| #[trigger] self.channel_of(id) != Some(tx)
    }

    /// Without a client that had identified. A user without clients is forgotten.
    pub open spec fn without_identified(self, client_id: u128) -> ClientsView {
        if self.identified.contains_key(client_id) {
            let user = self.identified[client_id].0;
            let rest = self.user_clients[user].remove(client_id);
            ClientsView {
                identified: self.identified.remove(client_id),
                user_clients: if !self.user_clients.contains_key(user) {
                    self.user_clients
                } else if rest.dom().is_empty() {
                    self.user_clients.remove(user)
                } else {
                    self.user_clients.insert(user, rest)
                },
                ..self
            }
        } else {
            self
        }
    }

    /// Nobody is both waiting to identify and identified. Each identified client stands under its
    /// user, and nobody else does. A user without clients is not listed. No two
    /// clients share a channel.
    pub open spec fn wf(self) -> bool {
        &&& forall|a: u128, b: u128|
            (#[trigger] self.channel_of(a)) is Some && self.channel_of(a)
                == #[trigger] self.channel_of(b) ==> a == b
        &&& forall|id: u128| #[trigger]
            self.connected.contains_key(id) ==> !self.identified.contains_key(id)
        &&& forall|id: u128| #[trigger]
            self.identified.contains_key(id) ==> self.user_clients.contains_key(
                self.identified[id].0,
            ) && self.user_clients[self.identified[id].0].contains_key(id)
        &&& forall|user: Seq<char>, id: u128|
            self.user_clients.contains_key(user)
                && #[trigger] self.user_clients[user].contains_key(id)
                ==> self.identified.contains_key(id) && self.identified[id].0 == user
        &&& forall|user: Seq<char>| #[trigger]
            self.user_clients.contains_key(user) ==> !self.user_clients[user].dom().is_empty()
    }
}

impl RoomView {
    /// Nobody is on the list of allowed users twice, and the creator is on it.
    pub open spec fn wf(self) -> bool {
        &&& self.allowed.no_duplicates()
        &&& self.allowed.contains(self.creator)
    }
}

impl StateView {
    /// The clients and the rooms are as they should be. No user has two rooms of one name. Whoever
    /// is in a room is not waiting to identify, and is allowed in it as the user that it has
    /// identified as, for as long as that is known.
    pub open spec fn wf(self) -> bool {
        &&& self.clients.wf()
        &&& forall|id: u128| #[trigger] self.rooms.contains_key(id) ==> self.rooms[id].wf()
        &&& forall|a: u128, b: u128|
            #![trigger self.rooms.contains_key(a), self.rooms.contains_key(b)]
            self.rooms.contains_key(a) && self.rooms.contains_key(b) && self.rooms[a].creator
                == self.rooms[b].creator && self.rooms[a].name == self.rooms[b].name ==> a == b
        &&& forall|id: u128, client_id: u128|
            self.rooms.contains_key(id) && #[trigger] self.rooms[id].current.contains(client_id)
                ==> !self.clients.connected.contains_key(client_id) && (
            self.clients.identified.contains_key(client_id) ==> self.rooms[id].allowed.contains(
                self.clients.identified[client_id].0,
            ))
    }

    /// Whether requests may come from this client for this user: it is not waiting to identify,
    /// and has not identified as anyone else.
    pub open spec fn serves(self, client_id: u128, user: Seq<char>) -> bool {
        &&& !self.clients.connected.contains_key(client_id)
        &&& self.clients.identified.contains_key(client_id)
            ==> self.clients.identified[client_id].0 == user
    }

    /// Whether nobody knows this client yet.
    pub open spec fn unknown(self, client_id: u128) -> bool {
        &&& !self.clients.connected.contains_key(client_id)
        &&& !self.clients.identified.contains_key(client_id)
        &&& forall|id: u128| #[trigger]
            self.rooms.contains_key(id) ==> !self.rooms[id].current.contains(client_id)
    }
}

impl Clients {
    /// Registers a client as one that has identified.
    fn register(&mut self, client_id: u128, identity: Identity, client: Client)
        ensures
            final(self)@ == old(self)@.with_identified(client_id, identity@, client.tx),
    {
        broadcast use crate::ids::group_id_collections;

        let ghost before = self@;
        let mut infos: BTreeMap<u128, ClientInfo> = match self.user_clients.get(
            identity.user_id.as_str(),
        ) {
            Some(infos) => infos.clone(),
            None => BTreeMap::new(),
        };
        let ghost others = versions_view(infos@);
        proof {
            assert(others =~= if before.user_clients.contains_key(identity.user_id@) {
                before.user_clients[identity.user_id@]
            } else {
                Map::empty()
            });
        }
        infos.insert(client_id, ClientInfo { version: identity.version });
        assert(versions_view(infos@) =~= others.insert(client_id, identity.version@));
        self.user_clients.insert(identity.user_id.clone(), infos);
        self.identified.insert(client_id, (identity.user_id, client));
        assert(self@ =~= before.with_identified(client_id, identity@, client.tx));
    }

    /// Forgets a client that had identified.
    fn unregister(&mut self, client_id: u128)
        ensures
            final(self)@ == old(self)@.without_identified(client_id),
    {
        broadcast use crate::ids::group_id_collections;

        let ghost before = self@;
        match self.identified.remove(&client_id) {
            Some((user_id, _)) => {
                let infos: Option<BTreeMap<u128, ClientInfo>> = match self.user_clients.get(
                    user_id.as_str(),
                ) {
                    Some(infos) => Some(infos.clone()),
                    None => None,
                };
                match infos {
                    Some(infos) => {
                        let mut rest: BTreeMap<u128, ClientInfo> = infos;
                        rest.remove(&client_id);
                        proof {
                            assert(versions_view(rest@) =~= before.user_clients[user_id@].remove(
                                client_id,
                            ));
                            assert(versions_view(rest@).dom() =~= rest@.dom());
                        }
                        if rest.is_empty() {
                            self.user_clients.remove(user_id.as_str());
                        } else {
                            self.user_clients.insert(user_id, rest);
                        }
                    },
                    None => {},
                }
            },
            None => {},
        }
        assert(self@ =~= before.without_identified(client_id));
    }
}

/// A message on a websocket.
#[derive(Debug)]
pub enum Message {
    Text(String),
    Ping(Vec<u8>),
    Pong(Vec<u8>),
    Close,
    /// Anything else.
    Other,
}

/// What passes through a connection: text that other parts of the server want sent, and messages
/// of the client.
#[derive(Debug)]
pub enum WsMessage {
    Outgoing(String),
    Incoming(Message),
}

/// What happens on a connection.
#[derive(Debug)]
pub enum ConnectionEvent {
    Message(WsMessage),
    /// The connection broke.
    Failed,
    /// There is nothing more to come.
    Ended,
}

/// What is to be done about it.
#[derive(Debug)]
pub enum ConnectionAction {
    /// See who the client is by this text.
    Identify(String),
    /// Send a text to the client.
    SendText(String),
    /// Answer a ping with its payload.
    SendPong(Vec<u8>),
    /// Have the requests in this text handled.
    Forward(String),
    /// Nothing.
    Ignore,
    /// Forget the client and close the connection.
    Disconnect,
}

/// Why a connection did not come about, with what is known of the cause.
#[derive(Debug)]
pub enum ServerError {
    TLSHandshake(String),
    TLSHandshakeTimeout(String),
    WSHandshake(String),
}

impl ServerError {
    /// The error in words.
    pub fn describe(&self) -> (r: String)
        ensures
            r@ == match self {
                ServerError::TLSHandshake(cause) => "error during TLS handshake "@ + cause@,
                ServerError::TLSHandshakeTimeout(cause) => "timeout during TLS handshake "@
                    + cause@,
                ServerError::WSHandshake(cause) => "error during WS handshake "@ + cause@,
            },
    {
        let (words, cause): (&str, &String) = match self {
            ServerError::TLSHandshake(cause) => ("error during TLS handshake ", cause),
            ServerError::TLSHandshakeTimeout(cause) => ("timeout during TLS handshake ", cause),
            ServerError::WSHandshake(cause) => ("error during WS handshake ", cause),
        };
        let mut r: String = words.to_owned();
        r.append(cause.as_str());
        r
    }
}

/// How a client is welcomed.
#[derive(Debug)]
pub struct Welcome {
    /// Who it was identified as.
    pub user_id: String,
    /// What it is sent.
    pub reply: String,
}

/// Whether this is how a client is welcomed as the one that it is let in as, if it is let in.
pub open spec fn is_welcome(
    welcome: Option<Welcome>,
    client_id: u128,
    identity: Option<IdentityView>,
) -> bool {
    match (welcome, identity) {
        (Some(welcome), Some(identity)) => welcome.user_id@ == identity.user_id
            && welcome.reply@ == "IDENTIFIED "@ + id_text(client_id),
        (None, None) => true,
        _ => false,
    }
}

/// The server.
pub struct Server {
    pub state: State,
    pub jwt_key: String,
}

impl Server {
    /// A server that nobody is connected to and that has no rooms.
    pub fn new(jwt_key: String) -> (r: Server)
        ensures
            r.jwt_key@ == jwt_key@,
            r.state@ == (StateView { clients: ClientsView::nobody(), rooms: Map::empty() }),
            r.state@.wf(),
    {
        broadcast use crate::ids::group_id_collections;

        let clients: Clients = Clients {
            connected: HashMap::new(),
            identified: HashMap::new(),
            user_clients: StringHashMap::new(),
        };
        let state: State = State { clients, rooms: BTreeMap::new() };
        proof {
            assert(state@.clients =~= ClientsView::nobody());
            assert(state@.rooms =~= Map::empty());
        }
        Server { state, jwt_key }
    }

    /// Takes note of a client that has connected.
    pub fn connect(&mut self, client_id: u128, client: Client)
        ensures
            final(self).jwt_key@ == old(self).jwt_key@,
            final(self).state@ == (StateView {
                clients: old(self).state@.clients.with_connected(client_id, client.tx),
                ..old(self).state@
            }),
            old(self).state@.wf() && old(self).state@.unknown(client_id)
                && old(self).state@.clients.is_free(client.tx) ==> final(self).state@.wf(),
    {
        broadcast use crate::ids::group_id_collections;

        let ghost before = self.state@;
        self.state.clients.connected.insert(client_id, client);
        proof {
            assert(self.state@.clients =~= before.clients.with_connected(client_id, client.tx));
            if before.wf() && before.unknown(client_id) && before.clients.is_free(client.tx) {
                law_connect_keeps_wf(before, client_id, client.tx);
            }
        }
    }

    /// Lets in a client that has connected, as the one that it was identified as, or forgets it.
    /// Gives who it is and what it is sent.
    pub fn admit_client(&mut self, client_id: u128, identity: Option<Identity>) -> (r: Option<
        Welcome,
    >)
        ensures
            final(self).jwt_key@ == old(self).jwt_key@,
            final(self).state@ == (StateView {
                clients: old(self).state@.clients.with_admitted(
                    client_id,
                    opt_identity_view(identity),
                ),
                ..old(self).state@
            }),
            is_welcome(
                r,
                client_id,
                if old(self).state@.clients.connected.contains_key(client_id) {
                    opt_identity_view(identity)
                } else {
                    None
                },
            ),
            old(self).state@.wf() ==> final(self).state@.wf() && (r matches Some(welcome)
                ==> final(self).state@.serves(client_id, welcome.user_id@)),
    {
        broadcast use crate::ids::group_id_collections;

        let ghost state = self.state@;
        let removed: Option<Client> = self.state.clients.connected.remove(&client_id);
        proof {
            assert(self.state@.clients =~= state.clients.without_connected(client_id));
            if state.wf() {
                law_unconnect_keeps_wf(state, client_id);
            }
        }
        match (removed, identity) {
            (Some(client), Some(identity)) => {
                proof {
                    if state.wf() {
                        law_identify_keeps_wf(state, client_id, identity@);
                    }
                }
                let user_id: String = identity.user_id.clone();
                self.state.clients.register(client_id, identity, client);
                let mut reply: String = "IDENTIFIED ".to_owned();
                reply.append(format_id(client_id).as_str());
                Some(Welcome { user_id, reply })
            },
            _ => None,
        }
    }

    /// Identifies a client that has connected by its first message, with readers for the payload
    /// and for the token in it. A client that fails to identify is forgotten. Gives who it is and
    /// what it is sent.
    pub fn identify_client<
        P: Fn(&str) -> Option<IdentifyPayload>,
        C: Fn(&str, &str) -> Option<TokenClaims>,
    >(&mut self, msg: &str, client_id: u128, now: u64, read_payload: P, read_claims: C) -> (r:
        Option<Welcome>)
        requires
            forall|s: &str| #[trigger] read_payload.requires((s,)),
            forall|s: &str, k: &str| #[trigger] read_claims.requires((s, k)),
        ensures
            final(self).jwt_key@ == old(self).jwt_key@,
            final(self).state@.rooms == old(self).state@.rooms,
            exists|identity: Option<IdentityView>| #[trigger]
                identifies(
                    msg@,
                    old(self).jwt_key@,
                    now,
                    read_payload,
                    read_claims,
                    identity,
                ) && final(self).state@.clients == old(self).state@.clients.with_admitted(
                    client_id,
                    identity,
                ) && is_welcome(
                    r,
                    client_id,
                    if old(self).state@.clients.connected.contains_key(client_id) {
                        identity
                    } else {
                        None
                    },
                ),
            old(self).state@.wf() ==> final(self).state@.wf() && (r matches Some(welcome)
                ==> final(self).state@.serves(client_id, welcome.user_id@)),
    {
        let identity: Option<Identity> = identify(
            msg,
            self.jwt_key.as_str(),
            now,
            read_payload,
            read_claims,
        );
        self.admit_client(client_id, identity)
    }

    /// Forgets a client.
    pub fn remove_client(&mut self, client_id: u128)
        ensures
            final(self).jwt_key@ == old(self).jwt_key@,
            final(self).state@ == (StateView {
                clients: old(self).state@.clients.without_connected(client_id).without_identified(
                    client_id,
                ),
                ..old(self).state@
            }),
            old(self).state@.wf() ==> final(self).state@.wf(),
    {
        broadcast use crate::ids::group_id_collections;

        proof {
            if self.state@.wf() {
                law_remove_keeps_wf(self.state@, client_id);
            }
        }
        let ghost before = self.state@.clients;
        self.state.clients.connected.remove(&client_id);
        assert(self.state@.clients =~= before.without_connected(client_id));
        self.state.clients.unregister(client_id);
    }

    /// What is to be done about an event on a connection. Until the client has identified, its
    /// first message says who it is, and anything else ends the connection. From then on text is
    /// passed on in both directions and pings are answered, until the connection is closed or
    /// breaks.
    pub fn accept_async(identified: bool, event: ConnectionEvent) -> (r: ConnectionAction)
        ensures
            r == (match (identified, event) {
                (false, ConnectionEvent::Message(WsMessage::Incoming(Message::Text(msg)))) => {
                    ConnectionAction::Identify(msg)
                },
                (false, _) => ConnectionAction::Disconnect,
                (true, ConnectionEvent::Message(WsMessage::Outgoing(msg))) => {
                    ConnectionAction::SendText(msg)
                },
                (true, ConnectionEvent::Message(WsMessage::Incoming(msg))) => match msg {
                    Message::Text(msg) => ConnectionAction::Forward(msg),
                    Message::Ping(payload) => ConnectionAction::SendPong(payload),
                    Message::Pong(_) => ConnectionAction::Ignore,
                    Message::Close => ConnectionAction::Disconnect,
                    Message::Other => ConnectionAction::Ignore,
                },
                (true, ConnectionEvent::Failed) => ConnectionAction::Disconnect,
                (true, ConnectionEvent::Ended) => ConnectionAction::Disconnect,
            }),
    {
        let message: WsMessage = match event {
            ConnectionEvent::Message(message) => message,
            ConnectionEvent::Failed | ConnectionEvent::Ended => {
                return ConnectionAction::Disconnect;
            },
        };
        match message {
            WsMessage::Outgoing(msg) => if identified {
                ConnectionAction::SendText(msg)
            } else {
                ConnectionAction::Disconnect
            },
            WsMessage::Incoming(Message::Text(msg)) => if identified {
                ConnectionAction::Forward(msg)
            } else {
                ConnectionAction::Identify(msg)
            },
            WsMessage::Incoming(msg) => {
                if !identified {
                    return ConnectionAction::Disconnect;
                }
                match msg {
                    Message::Ping(payload) => ConnectionAction::SendPong(payload),
                    Message::Close => ConnectionAction::Disconnect,
                    _ => ConnectionAction::Ignore,
                }
            },
        }
    }
}

} // verus!
