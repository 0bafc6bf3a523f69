//! Verified core of a terminal music player.

pub mod layout;
pub mod meter;
pub mod mode;
pub mod paint;
pub mod panels;
pub mod playlist;
pub mod screen;
pub mod search;
pub mod session;
pub mod shuffle;
pub mod spectrum;
pub mod style;
pub mod text;
pub mod time;
pub mod track;
