//! The bookkeeping of a voxel world's level: which chunks are in memory, who watches them, how
//! they are fetched and written, and which ticks they wait for; and the packet by which a player
//! says what the player's entity does.
//!
//! [`level::Level`] holds the state, [`level::LevelView`] says what it is, and [`laws`] says what
//! holds of it as a whole.

pub mod cells;
pub mod channel;
pub mod chunk;
pub mod folder;
pub mod laws;
pub mod level;
pub mod math;
pub mod player_command;
mod seqs;
mod store;
pub mod tick;
