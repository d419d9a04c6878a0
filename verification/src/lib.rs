//! Verified core of a real-time microphone noise-suppression engine.

pub mod backlog;
pub mod denoise;
pub mod devices;
pub mod engine;
pub mod explode;
pub mod logfile;
pub mod monitor;
pub mod pcm;
pub mod processes;
pub mod settings;
pub mod text;
