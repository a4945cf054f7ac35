//! The types of requests.

pub mod audio;
pub mod from_audio;
