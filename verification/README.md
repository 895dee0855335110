# planetwars_server

A server on which players of planetwars meet in lobbies, agree on matches and follow them.

- `src/` is the library: the rules of lobbies, players, proposals and matches, the moves of the game, the
  log of a match, and the frames of the embedded server. Each function states what it does, and Verus
  proves it. What holds of a lobby whatever is asked of it stands in `lobby_laws.rs`; what holds of the
  whole server stands in `server_laws.rs`.
- `app/` is the program around it: HTTP routes, websockets, files, and the clients that play. It turns
  the library's values into JSON and back.
- `tests/` runs the library.

A request comes in as plain values and goes out as an answer and a list of notices. The program answers
the request and passes the notices on to those who listen.

What the library has from other crates it has through small functions whose contracts are taken on trust:
hexadecimal text from `hex`, random bytes from `rand`, identifiers from `uuid`, the time from `chrono`,
channels from `tokio`, and lower case, prefixes, UTF-8, paths and strings from the standard
library.
