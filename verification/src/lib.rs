//! The core of a live audio and video compositor: what is registered with
//! it, the scenes that its outputs show, the frames that wait for their
//! tick, and what each tick renders and mixes. The GPU, the codecs and the
//! network are somebody else's business: the library decides, and says so
//! in values.
//!
//! Beside the core stands the generator that documents request types from
//! their JSON schemas.

pub mod audio_mixer;
pub mod error;
pub mod generate_docs;
pub mod layout;
pub mod output;
pub mod pipeline;
pub mod queue;
pub mod renderer;
pub mod scene;
pub mod text;
pub mod topology;
pub mod types;
pub mod web_renderer;
