//! Local speech-to-text front end around whisper.cpp: model catalogue,
//! transcript post-processing, release checks and the session state
//! machine of the desktop window.

pub mod audio;
pub mod inference;
pub mod session;
pub mod text;
pub mod transcript;
pub mod updater;

pub use inference::{ModelSize, WhisperConfig, WhisperModel};
