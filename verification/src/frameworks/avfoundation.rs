//! AVFoundation.

pub mod audio_laws;
pub mod audio_output;
pub mod audio_prepare;
pub mod av_audio_player;
