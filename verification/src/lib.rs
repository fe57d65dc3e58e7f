//! Decision logic of a single-voice dubbing tool: subtitle parsing and
//! writing, media stream selection, external tool arguments, the TTS
//! runtime layout, the translation retry policy, credential handling, job
//! planning and progress, and the job cache key.

pub mod text;
pub mod subtitles;
pub mod srt_laws;
pub mod srt_normalization;
pub mod spoken_laws;
pub mod commands;
pub mod media;
pub mod pipeline;
pub mod tts;
pub mod translation;
pub mod dubbing;
pub mod runtime;
pub mod settings;
mod credential_entry;
pub mod cache;
pub mod cache_laws;
pub mod smoke;
