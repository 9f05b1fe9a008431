# zappy

A server for Zappy, a multiplayer game played by programs on a toroidal field: teams of
players gather food and stones, lay eggs, expel and hear each other, and rise in level through
incantations.

`src/` is the game itself, verified with Verus:

- `model.rs`: the game as values (`GameView`), each command and each frame as a function on
  them, and `game_wf`, the invariant every operation keeps.
- `engine.rs`: `GameEngine`, whose operations (`new`, `add_player`, `remove_player`,
  `take_command`, `tick`) are proved to do what `model.rs` says and to keep `game_wf`.
- `upkeep.rs`, `seasons.rs`, `setup.rs`: why each operation keeps the invariant.
- `laws.rs`: properties across operations (a take undone by a put, a step undone by a step
  back, a player joining then leaving, who survives a frame).
- `map.rs`, `cell.rs`, `player.rs`, `team.rs`, `resource.rs`, `position.rs`, `color.rs`:
  the parts of the game.
- `commands.rs`, `args.rs`, `text.rs`, `answers.rs`: what the server reads and writes.
- `security.rs`: the administrators' credentials; `connection.rs`: what a read from a client
  gives; `console.rs`: what the terminal view draws.

`app/` is the program: the network routines, the command line, the log and TLS.

## Collections

The game keeps its players, teams, schedules of eggs and incantations, and each cell's players
and eggs in `Vec`s with invariants, rather than in `HashMap`, `HashSet` or `BTreeMap`:

- Every answer the server gives comes in a fixed order: by player id (broadcast, expel,
  incantation, the frame's answers) or by team name. The model states that order over
  sequences, and the invariants say the lists are strictly increasing by id or by name. This
  is the order a `BTreeMap` would walk in.
- Several of these maps are keyed by a `String` (team names, the cell's eggs, the
  administrators' credentials). With a `String` key, Verus proves nothing about the map's
  contents, so it could not prove these contracts.
- The invariant lemmas of `upkeep.rs` and `seasons.rs` are proved over the same sequences,
  with insertion and removal at a place found by a verified search.
