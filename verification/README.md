# GigRoom signalling

A signalling server for calls with many participants. Clients connect over a
websocket, identify themselves, and meet in rooms, where they exchange the
messages that set up a call.

The library under `src/` holds the state of the server and decides what every
message does. It is written in Verus, and its contracts are proved.

- `json` turns text into JSON values and back, with `serde_json`.
- `ids` holds the identifiers of clients and rooms, and their text.
- `text` and `lists` hold small tools.
- `config` decides how connections are secured.
- `server` holds the state: who is connected, who is in which room.
  - `server::rules` says what each request does, as spec functions.
  - `server::handler` does it.
  - `server::identity` says who a client is.
  - `server::keeping` proves what every operation keeps.
  - `server::laws` proves what the protocol promises.
  - `server::told` proves who is told what when one act touches many clients.

The program under `app/` connects the library to sockets, certificates and the
clock, and reads payloads and tokens with `serde`. It answers `IDENTIFY
<USER_ID>` or `IDENTIFY <PAYLOAD>`, where a payload is `{"client_version":
"...", "token": "..."}` with a token that is signed with the `jwt_key` of the
secrets file. The library is handed the functions that read payloads and tokens,
and decides who is meant by what they read. After that every message is a JSON
array of requests, and every answer a JSON array with a response for each.
