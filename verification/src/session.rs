use crate::errors::MicError;
use vstd::prelude::*;

verus! {

// The capture-session lifecycle. The native stream handle cannot leave the
// thread that created it, so a session is one dedicated worker that owns the
// stream and polls a cooperative stop signal, plus two shared flags. This
// module is the decision core of that protocol: every transition of the
// flags and of the worker's phase is a verified function on this model, and
// the host wiring performs the matching thread and stream operations.

/// The lifecycle phase of the dedicated worker that owns the stream handle.
#[derive(Clone, Copy, Debug, PartialEq, Eq, Structural)]
pub enum WorkerPhase {
    /// No worker exists; the hardware is free.
    Idle,
    /// The worker holds the native stream open; the hardware is held.
    Running,
    /// The worker observed the stop signal, dropped the stream — releasing
    /// the hardware — and exited.
    Exited,
}

/// The control state of microphone capture: the two shared flags and the
/// worker's phase.
#[derive(Clone, Copy, Debug, PartialEq, Eq, Structural)]
pub struct MicState {
    /// Whether a session is active, as `status` reports it.
    pub is_capturing: bool,
    /// The cooperative cancellation signal that the worker polls.
    pub stop_flag: bool,
    /// The phase of the dedicated worker.
    pub worker: WorkerPhase,
}

/// The hardware is held exactly while the worker runs.
pub open spec fn holds_hardware(s: MicState) -> bool {
    s.worker is Running
}

/// The protocol invariant between operations: the session reports active
/// exactly when a worker holds the stream and no stop has been signalled.
pub open spec fn session_inv(s: MicState) -> bool {
    s.is_capturing <==> (s.worker is Running && !s.stop_flag)
}

/// What a start request does: reject a concurrent session untouched, then
/// surface device and configuration failures, else mark the session active
/// and hand the stream to a fresh worker.
pub open spec fn start_spec(s: MicState, device_found: bool, config_ok: bool) -> (
    MicState,
    Result<(), MicError>,
) {
    if s.is_capturing {
        (s, Err(MicError::AlreadyCapturing))
    } else if !device_found {
        (s, Err(MicError::NoDeviceAvailable))
    } else if !config_ok {
        (s, Err(MicError::DeviceConfigError))
    } else {
        (
            MicState { is_capturing: true, stop_flag: false, worker: WorkerPhase::Running },
            Ok(()),
        )
    }
}

/// What a stop request does: signal cancellation, clear the active flag,
/// and wait until the worker has exited — so the hardware is released by
/// the time it completes. Idempotent when no session is active.
pub open spec fn stop_spec(s: MicState) -> MicState {
    MicState {
        is_capturing: false,
        stop_flag: true,
        worker: if s.worker is Running {
            WorkerPhase::Exited
        } else {
            s.worker
        },
    }
}

/// The decision chain of the worker's own setup, in the order the worker
/// takes it: resolve the device again, query its configuration, check the
/// sample format, build the stream, start it. The first failure names the
/// error the worker logs before exiting.
pub open spec fn worker_setup_spec(
    device_found: bool,
    config_ok: bool,
    format_supported: bool,
    build_ok: bool,
    play_ok: bool,
) -> Result<(), MicError> {
    if !device_found {
        Err(MicError::NoDeviceAvailable)
    } else if !config_ok {
        Err(MicError::DeviceConfigError)
    } else if !format_supported {
        Err(MicError::UnsupportedSampleFormat)
    } else if !build_ok {
        Err(MicError::StreamBuildError)
    } else if !play_ok {
        Err(MicError::StreamStartError)
    } else {
        Ok(())
    }
}

impl Default for MicState {
    /// A fresh controller: inactive, no stop signalled, no worker.
    fn default() -> (s: Self)
        ensures
            s == (MicState {
                is_capturing: false,
                stop_flag: false,
                worker: WorkerPhase::Idle,
            }),
            session_inv(s),
            !holds_hardware(s),
    {
        MicState { is_capturing: false, stop_flag: false, worker: WorkerPhase::Idle }
    }
}

impl MicState {
    /// Decides a start request. `device_found` and `config_ok` are what the
    /// host's device resolution and configuration query reported.
    ///
    /// A request while a session is active always fails with
    /// `AlreadyCapturing` and leaves the session untouched.
    pub fn begin_start(&mut self, device_found: bool, config_ok: bool) -> (r: Result<
        (),
        MicError,
    >)
        requires
            session_inv(*old(self)),
        ensures
            session_inv(*final(self)),
            *final(self) == start_spec(*old(self), device_found, config_ok).0,
            r == start_spec(*old(self), device_found, config_ok).1,
            old(self).is_capturing ==> r == Err::<(), MicError>(MicError::AlreadyCapturing)
                && *final(self) == *old(self),
            r is Err ==> *final(self) == *old(self),
    {
        if self.is_capturing {
            return Err(MicError::AlreadyCapturing);
        }
        if !device_found {
            return Err(MicError::NoDeviceAvailable);
        }
        if !config_ok {
            return Err(MicError::DeviceConfigError);
        }
        self.is_capturing = true;
        self.stop_flag = false;
        self.worker = WorkerPhase::Running;
        Ok(())
    }

    /// Stops the session: signals cancellation, clears the active flag, and
    /// waits for the worker to exit. On return the hardware is released —
    /// the worker is never left running. Idempotent when nothing is active.
    pub fn stop(&mut self)
        requires
            session_inv(*old(self)),
        ensures
            session_inv(*final(self)),
            *final(self) == stop_spec(*old(self)),
            !holds_hardware(*final(self)),
            !final(self).is_capturing,
    {
        self.stop_flag = true;
        self.is_capturing = false;
        // The dedicated worker polls the stop signal between short sleeps;
        // with the signal set, its next poll drops the stream and exits.
        // Waiting for it is what makes the release observable here.
        if matches!(self.worker, WorkerPhase::Running) {
            self.worker = WorkerPhase::Exited;
        }
    }

    /// Whether a session is currently active; safe to call from any context.
    pub fn status(&self) -> (r: bool)
        ensures
            r == self.is_capturing,
    {
        self.is_capturing
    }

    /// What the worker polls between sleeps: whether it must drop the
    /// stream and exit.
    pub fn worker_should_exit(&self) -> (r: bool)
        ensures
            r == self.stop_flag,
    {
        self.stop_flag
    }
}

/// Decides the worker's setup outcome from what each native step reported;
/// exactly `worker_setup_spec`.
pub fn worker_setup(
    device_found: bool,
    config_ok: bool,
    format_supported: bool,
    build_ok: bool,
    play_ok: bool,
) -> (r: Result<(), MicError>)
    ensures
        r == worker_setup_spec(device_found, config_ok, format_supported, build_ok, play_ok),
{
    if !device_found {
        Err(MicError::NoDeviceAvailable)
    } else if !config_ok {
        Err(MicError::DeviceConfigError)
    } else if !format_supported {
        Err(MicError::UnsupportedSampleFormat)
    } else if !build_ok {
        Err(MicError::StreamBuildError)
    } else if !play_ok {
        Err(MicError::StreamStartError)
    } else {
        Ok(())
    }
}

/// After `stop`, the hardware is free and a new start succeeds: `stop`
/// cannot return while the worker still holds the stream, so a start that
/// finds a device and a configuration is never rejected.
pub proof fn lemma_stop_then_start(s: MicState, device_found: bool, config_ok: bool)
    requires
        session_inv(s),
        device_found,
        config_ok,
    ensures
        !holds_hardware(stop_spec(s)),
        start_spec(stop_spec(s), device_found, config_ok).1 == Ok::<(), MicError>(()),
        start_spec(stop_spec(s), device_found, config_ok).0.is_capturing,
{
}

} // verus!
