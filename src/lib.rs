//! Time-coded lyrics with ruby readings, kept in step with a media player.
//!
//! `parser` reads lyric files, `locator` finds the line that is active at a
//! playback position, `display` decides what to draw, and `warden` tracks a
//! player: which one is selected, what it plays, and where playback is.

pub mod display;
pub mod locator;
pub mod parser;
pub mod players;
pub mod ruby;
pub mod text;
pub mod timestamp;
pub mod warden;
