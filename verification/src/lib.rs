//! Verified microphone capture core: a streaming voice-activity segmentation
//! engine, a PCM container encoder with a transport encoding, and the
//! state model of the capture-session lifecycle.

pub mod devices;
pub mod downmix;
pub mod encode;
pub mod errors;
pub mod session;
pub mod vad;
pub mod vad_laws;
pub mod wav;
