# shows

A TV-show player that goes round a library: of every active show it takes the next
unwatched episode, puts these into an order that depends on nothing but their paths,
plays them, marks what was watched, and begins again.

`src/` is the library, verified with Verus. `app/` is the desktop program around it:
SQLite, libmpv, the control server and the window. `tests/` runs the library.

## The library

- `ordering`, `engine`, `roundlogic`: what a round is, and what watching and deferring do
  to a show.
- `tables`, `replica`, `library`, `queue`, `stats`: the tables of the shared database as
  values, the operations on them, and what is told of them. `laws` and `read_back` say
  what every operation keeps and what is read of what was written.
- `rounds`, `runner`, `runloop`, `playback_laws`: the round that is on, its controls, and
  the loop that plays one round after the other, step by step.
- `player`, `shell`: what the player's events and the window's messages mean.
- `paths`, `filesync`, `scan`: the cache of the round's files, and what a folder holds.
- `routes`, `control`, `catalog`, `status`, `stream`: the control server: what is asked,
  what is answered, and what followers are told.
- `apiclient`, `oauth`, `model`, `origin`, `sync`, `update`: the servers behind the app.
- `text`, `sorting`, `json`, `web`, `clock`: what the others stand on.

Operations that need the time or new ids come in two forms: one that takes them, with an
exact contract, and one that draws them itself and says that its result is that of some
time and some ids.

## What is taken on trust

The calls into other crates and into parts of std stand in small wrappers with a contract
that is believed: `json` (serde_json), `clock` (chrono, uuid and the clock of std), `ordering::sha256_digest`
(sha2), `oauth::encode_base64` (base64), `web::encode` and `web::decode` (urlencoding), and
three functions of std on text.
