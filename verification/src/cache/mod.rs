//! What is kept on disk, and what is fetched to be kept there.

pub mod downloader;
pub mod storage;
pub mod subtitle_requests;
pub mod transcript;
