# tafels

A multiplication-tables and arithmetic game: players walk a landscape, reach
beacons that pose questions, and answer by hitting one of four panels. It can
be played alone or with others on a shared server.

`src/` is the game's logic, verified with Verus:

- `mode`, `difficulty`: game modes and difficulty settings.
- `exercise`: question generation (tables and carrying sums), answer choices,
  question text and reading it back.
- `session`, `classic`: scoring of answers, streaks, time-outs and round
  clocks, for the networked game and for the older single-player game.
- `play`: the beacons and questions in front of a player.
- `world`: the server's shared world (players, lobby, rounds, beacons).
- `network`, `leaderboard`, `notification`: the client's link to the server,
  the round messages it buffers, the leaderboard and the lobby banner.
- `name_entry`, `quality`, `text`: typing a name, adaptive render quality, and
  the text helpers the rest builds on.

`app/` is the game server: WebSockets, the wire format, the server clock and
the terrain heights that beacons are placed on.

The game client's shell (rendering, input and its WebSocket link, built on
`bevy`, `ewebsock`, `web_sys` and `wasm_bindgen`) is not part of this crate;
its rules are the client modules of `src/` (`play`, `network`, `leaderboard`,
`notification`, `roster`, `name_entry`, `quality`, `effects`).
