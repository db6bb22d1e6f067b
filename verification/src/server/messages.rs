//! The parts that messages to clients are made of.

use crate::ids::{format_id, id_text};
use crate::json::{Json, fields_view, items_view};
use crate::server::rules;
use crate::server::Room;
use vstd::prelude::*;

verus! {

/// A field of an object.
pub(crate) fn field(name: &str, value: Json) -> (r: (String, Json))
    ensures
        r.0@ == name@,
        r.1@ == value@,
{
    (name.to_owned(), value)
}

/// An identifier as a string of JSON.
pub(crate) fn id_json(id: u128) -> (r: Json)
    ensures
        r@ == rules::word(id_text(id)),
{
    Json::Str(format_id(id))
}

/// What tells of the end of a call.
pub(crate) fn destroyed_args() -> (r: Vec<Json>)
    ensures
        items_view(r@) == rules::destroyed_args(),
{
    let r: Vec<Json> = vec![Json::text("room"), Json::text("destroyed")];
    assert(items_view(r@) =~= rules::destroyed_args());
    r
}

/// What tells of the beginning of a call.
pub(crate) fn active_args() -> (r: Vec<Json>)
    ensures
        items_view(r@) == rules::active_args(),
{
    let r: Vec<Json> = vec![Json::text("room"), Json::text("active")];
    assert(items_view(r@) =~= rules::active_args());
    r
}

/// What tells of a client that has joined.
pub(crate) fn joined_args(client_id: u128, user_id: &str) -> (r: Vec<Json>)
    ensures
        items_view(r@) == rules::joined_args(client_id, user_id@),
{
    let r: Vec<Json> = vec![
        Json::text("room"),
        Json::text("joined"),
        id_json(client_id),
        Json::text(user_id),
    ];
    assert(items_view(r@) =~= rules::joined_args(client_id, user_id@));
    r
}

/// What tells of a client that has left.
pub(crate) fn left_args(client_id: u128, user_id: &str) -> (r: Vec<Json>)
    ensures
        items_view(r@) == rules::left_args(client_id, user_id@),
{
    let r: Vec<Json> = vec![
        Json::text("room"),
        Json::text("left"),
        id_json(client_id),
        Json::text(user_id),
    ];
    assert(items_view(r@) =~= rules::left_args(client_id, user_id@));
    r
}

/// What brings a message of a client.
pub(crate) fn message_args(message: Json, client_id: u128) -> (r: Vec<Json>)
    ensures
        items_view(r@) == rules::message_args(message@, client_id),
{
    let r: Vec<Json> = vec![
        Json::text("room"),
        Json::text("message"),
        message,
        id_json(client_id),
    ];
    assert(items_view(r@) =~= rules::message_args(message@, client_id));
    r
}

/// What clients are told of a room.
pub(crate) fn room_details(room_id: u128, room: &Room) -> (r: Json)
    ensures
        r@ == rules::room_details(room_id, room@),
{
    let fields: Vec<(String, Json)> = vec![
        field("room_id", id_json(room_id)),
        field("room_name", Json::text(room.name.as_str())),
        field("creator", Json::text(room.creator.as_str())),
        field("active", Json::Bool(!room.current_clients.is_empty())),
    ];
    assert(fields_view(fields@) =~= rules::room_details(room_id, room@)->Object_0);
    Json::object(fields)
}

/// What tells of a room that a user may join.
pub(crate) fn created_args(room_id: u128, room: &Room) -> (r: Vec<Json>)
    ensures
        items_view(r@) == rules::created_args(room_id, room@),
{
    let r: Vec<Json> = vec![
        Json::text("room"),
        Json::text("created"),
        room_details(room_id, room),
    ];
    assert(items_view(r@) =~= rules::created_args(room_id, room@));
    r
}

/// What a newcomer is told of a member.
pub(crate) fn member_details(user_id: &str, client_id: u128) -> (r: Json)
    ensures
        r@ == rules::member_details(user_id@, client_id),
{
    let fields: Vec<(String, Json)> = vec![
        field("user_id", Json::text(user_id)),
        field("client_id", id_json(client_id)),
    ];
    assert(fields_view(fields@) =~= rules::member_details(user_id@, client_id)->Object_0);
    Json::object(fields)
}

} // verus!
