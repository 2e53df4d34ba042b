//! Channels, their videos, searches and comments.

pub mod comments;
pub mod fetcher;
pub mod parser;
pub mod subscriptions;
pub mod throttle;
