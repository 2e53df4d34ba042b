//! What the main window shows and does, apart from its widgets.

pub mod cards;
pub mod grid;
pub mod playback;
pub mod refresh;
pub mod startup;
pub mod state;
pub mod summary_generator;
pub mod videos;
pub mod watch_later;
