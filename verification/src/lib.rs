pub mod auth;
pub mod capture;
pub mod command;
pub mod config;
pub mod daemon;
pub mod hotkey;
pub mod install_svc;
pub mod json;
pub mod local_qwen3;
pub mod local_stream;
pub mod local_whisper;
pub mod notify;
pub mod osd;
pub mod output;
pub mod phrase;
pub mod pipeline;
pub mod proxy;
pub mod session;
pub mod settings;
pub mod stream_vad;
pub mod stt;
pub mod stt_rest;
pub mod text;
pub mod wav;
pub mod worker;
