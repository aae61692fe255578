//! Verified core of the NeuroPipe voice pipeline: text segmentation for
//! speech synthesis, tokenizer and tensor helpers, configuration documents,
//! the assistant's tool permissions and TTS event bookkeeping, and the
//! speech-recording state machine.

pub mod text;
pub mod sentences;
pub mod supertonic;
pub mod kokoro;
pub mod pocket;
pub mod services;
pub mod settings_window;
pub mod voices;
pub mod toml_doc;
pub mod config_file;
pub mod settings;
pub mod cli_config;
pub mod ipc;
pub mod assistant_config;
pub mod ducking;
pub mod markdown;
pub mod assistant;
pub mod stt;
pub mod tts_service;
