# jellyswarrm

The rules of a proxy that makes several Jellyfin servers look like one, written and proved in Verus.

`src/` is the library. It decides and computes, and opens no connection. Where a request needs
outside work and decisions in turn, a function takes the step that was due and what came of it, and
gives back the step that follows.

- `server_url`, `server_id`, `server_storage`: addresses, identities and health of servers.
- `session_storage`: open playback sessions, until they expire.
- `media_storage_service`: virtual identifiers of media and the items they stand for.
- `legacy_server_identity`, `legacy_store`: bring a store with spellings of one address into order.
- `federated_users`: keeps the accounts of a user on all servers in step.
- `processors::request_analyzer`: finds the server and the user that a request concerns.
- `handlers`: video streams, live streams and watching together.
- `ui`: what the pages of administrators and users show and answer.
- `text`, `decimal`, `time`, `status`: what the others are built on.

Public functions named `law_...` state what holds of several functions together.

`app/` is ordinary Rust around the library: the database, HTTP, sockets and locks. What it needs of
other parts of the proxy it takes through the traits in `app/interfaces.rs`.
