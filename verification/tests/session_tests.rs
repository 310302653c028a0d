use mic_capture::errors::MicError;
use mic_capture::session::{worker_setup, MicState, WorkerPhase};

/// A fresh controller is idle with nothing signalled.
#[test]
fn fresh_controller_is_idle() {
    let s = MicState::default();
    assert!(!s.is_capturing);
    assert!(!s.stop_flag);
    assert_eq!(s.worker, WorkerPhase::Idle);
    assert!(!s.status());
}

/// A start on an idle controller succeeds and hands the stream to a worker.
#[test]
fn start_activates_session() {
    let mut s = MicState::default();
    assert_eq!(s.begin_start(true, true), Ok(()));
    assert!(s.status());
    assert_eq!(s.worker, WorkerPhase::Running);
    assert!(!s.worker_should_exit());
}

/// A start while capturing always fails with `AlreadyCapturing` and leaves
/// the running session untouched.
#[test]
fn double_start_is_rejected() {
    let mut s = MicState::default();
    s.begin_start(true, true).unwrap();
    let before = s;
    assert_eq!(s.begin_start(true, true), Err(MicError::AlreadyCapturing));
    assert_eq!(s, before);
    assert!(s.status());
    // even if the device probe would now fail, the session is untouched
    assert_eq!(s.begin_start(false, false), Err(MicError::AlreadyCapturing));
    assert_eq!(s, before);
}

/// Device resolution and configuration failures surface as their own errors
/// and leave the controller idle.
#[test]
fn start_failures_surface() {
    let mut s = MicState::default();
    assert_eq!(s.begin_start(false, true), Err(MicError::NoDeviceAvailable));
    assert!(!s.status());
    assert_eq!(s.begin_start(true, false), Err(MicError::DeviceConfigError));
    assert!(!s.status());
}

/// `stop` never returns with the worker still holding the hardware, so a
/// subsequent start always succeeds.
#[test]
fn stop_releases_hardware_for_restart() {
    let mut s = MicState::default();
    s.begin_start(true, true).unwrap();
    s.stop();
    assert!(!s.status());
    assert!(s.worker_should_exit());
    assert_ne!(s.worker, WorkerPhase::Running);
    assert_eq!(s.begin_start(true, true), Ok(()));
    assert!(s.status());
}

/// `stop` is idempotent when no session is active.
#[test]
fn stop_when_idle_is_harmless() {
    let mut s = MicState::default();
    s.stop();
    assert!(!s.status());
    assert_eq!(s.worker, WorkerPhase::Idle);
    s.stop();
    assert!(!s.status());
}

/// Each error surfaces its message for the host.
#[test]
fn error_messages() {
    assert_eq!(MicError::AlreadyCapturing.message(), "Mic capture already running");
    assert_eq!(MicError::NoDeviceAvailable.message(), "No input device available");
    assert_eq!(MicError::EmptyInput.message(), "Empty audio buffer");
    assert_eq!(MicError::UnsupportedSampleFormat.message(), "Unsupported sample format");
}

/// The worker's setup chain reports the first failing step.
#[test]
fn worker_setup_error_chain() {
    assert_eq!(worker_setup(false, true, true, true, true), Err(MicError::NoDeviceAvailable));
    assert_eq!(worker_setup(true, false, true, true, true), Err(MicError::DeviceConfigError));
    assert_eq!(
        worker_setup(true, true, false, true, true),
        Err(MicError::UnsupportedSampleFormat)
    );
    assert_eq!(worker_setup(true, true, true, false, true), Err(MicError::StreamBuildError));
    assert_eq!(worker_setup(true, true, true, true, false), Err(MicError::StreamStartError));
    assert_eq!(worker_setup(true, true, true, true, true), Ok(()));
}
