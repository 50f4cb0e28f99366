//! Verified core of an audiobook production tool: text chunking for speech
//! synthesis, audio-mix command construction, and the parsing and decision
//! logic around language-model replies.

pub mod text;
pub mod tools;
pub mod agent;
pub mod audio;
pub mod cli;
pub mod dashscope;
pub mod error;
pub mod events;
pub mod fmt;
pub mod json;
pub mod merge;
pub mod models;
pub mod prompts;
pub mod script;
pub mod storage;
pub mod stream;
pub mod synth;
pub mod tts;
