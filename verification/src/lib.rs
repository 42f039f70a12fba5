//! Core logic of a small rhythm game: the note-chart parser, the channel
//! configuration, and the per-frame scan that decides which notes to spawn.
//! The engine glue around it (rendering, input, file handling) lives outside
//! this crate and hands it plain values.

pub mod arrows;
pub mod settings;
pub mod song;
