//! The logic of a desktop YouTube client, proved correct.

pub mod cache;
pub mod config;
pub mod data;
pub mod feed;
pub mod frogpoints;
pub mod gemini;
pub mod ids;
pub mod order;
pub mod paths;
pub mod player;
pub mod summary;
pub mod text;
pub mod time;
pub mod ui;
pub mod urls;
