# pumpkin_level

The bookkeeping of a voxel world's level, verified with Verus: which chunks are in memory, who
watches them, how they are fetched and written, and which ticks their blocks and fluids wait for.
The packet by which a player says what the player's entity does is read here too.

- `src/level.rs` and `src/level/`: the level. `LevelView` says what a level is; every method
  states the view after the call over the view before it.
- `src/laws.rs`: what holds of the level as a whole.
- `src/chunk.rs`, `src/tick.rs`, `src/math.rs`: chunks, scheduled ticks, coordinates.
- `src/store.rs`: the chunks that are in memory, by name.
- `src/player_command.rs`: the player's command.
- `src/cells.rs`, `src/channel.rs`, `src/folder.rs`: what is believed of `dashmap`, `num-traits`,
  `tokio` and `std::path`, and nothing else.
- `app/`: the level as a server runs it, with tasks, channels, storage and generators around it.

A chunk is referred to by a name. A chunk that is sent, or handed out to be written, is held in
memory until it is released; what nothing refers to any more is freed by
`drop_unreferenced_chunks`.
