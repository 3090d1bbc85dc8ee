# tetrino

A falling-block puzzle game whose rules are a Verus-verified library.

- `src/` is the library. `piece` holds the seven pieces, their turns and wall
  kicks; `game` the playfield, the seven-piece bag, moving, dropping,
  holding, locking, line clears and scoring; `input` the key commands and
  turning with kicks; `finesse` the input tables; `modes` when a game ends;
  `network` the room codes; `packet` packet kinds and framing; `settings`,
  `menu`, `join`, `lobby`, `profile` and `graphics` the decisions behind the
  screens; `text` building strings. Each public function carries a contract,
  and the laws of the game (line clears, turns, the room code round trip,
  framing) are proof functions.
- `tests/` exercises the library on concrete values.
- `app/` is the program around it: the window, rendering with egui and wgpu,
  the real-time timers, settings on disk, sockets and packet serialization.
