use vstd::prelude::*;

verus! {

/// Everything that can go wrong while starting a capture session,
/// running its worker, or encoding a finished segment.
#[derive(Clone, Copy, Debug, PartialEq, Eq, Structural)]
pub enum MicError {
    /// A capture session is already active; concurrent sessions are rejected.
    AlreadyCapturing,
    /// No input device exists at all.
    NoDeviceAvailable,
    /// The device refused to report its input configuration.
    DeviceConfigError,
    /// The device's native sample format is none of the supported ones.
    UnsupportedSampleFormat,
    /// The native input stream could not be built.
    StreamBuildError,
    /// The native input stream could not be started.
    StreamStartError,
    /// The encoder was handed an empty sample sequence.
    EmptyInput,
    /// The container could not hold the segment (its size fields overflow).
    EncodingError,
}

impl MicError {
    /// The message this error surfaces to the host.
    pub fn message(&self) -> (r: String)
        ensures
            r@ == match self {
                MicError::AlreadyCapturing => "Mic capture already running"@,
                MicError::NoDeviceAvailable => "No input device available"@,
                MicError::DeviceConfigError => "Failed to get input config"@,
                MicError::UnsupportedSampleFormat => "Unsupported sample format"@,
                MicError::StreamBuildError => "Failed to build input stream"@,
                MicError::StreamStartError => "Failed to start input stream"@,
                MicError::EmptyInput => "Empty audio buffer"@,
                MicError::EncodingError => "Audio encoding failed"@,
            },
    {
        match self {
            MicError::AlreadyCapturing => String::from_str("Mic capture already running"),
            MicError::NoDeviceAvailable => String::from_str("No input device available"),
            MicError::DeviceConfigError => String::from_str("Failed to get input config"),
            MicError::UnsupportedSampleFormat => String::from_str("Unsupported sample format"),
            MicError::StreamBuildError => String::from_str("Failed to build input stream"),
            MicError::StreamStartError => String::from_str("Failed to start input stream"),
            MicError::EmptyInput => String::from_str("Empty audio buffer"),
            MicError::EncodingError => String::from_str("Audio encoding failed"),
        }
    }
}

} // verus!
