//! Verified core of the WhatdidIsay speech-transcription plugin: the audio
//! ring buffer between the host's DSP callback and the recognition worker,
//! the parsing of host replies, the plugin's lifecycle decisions, the
//! bookkeeping of the audio pipeline, the daily transcript record format and
//! the cross-plugin broadcast message format.
pub mod ring;
pub mod reply;
pub mod config;
pub mod audio;
pub mod clock;
pub mod transcript;
pub mod broadcast;
