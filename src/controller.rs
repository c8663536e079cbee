//! The capture controller: start, stop and observe a capture session through
//! one shared running flag.
//!
//! The flag is the only state shared between the caller's thread and the
//! worker. Its decisions are stated over the flag's value as the controller
//! observes it atomically; what another thread does to the flag afterwards is
//! outside any single call.

use std::sync::atomic::{AtomicBool, Ordering};
use std::sync::Arc;
use vstd::prelude::*;

verus! {

/// Why a capture could not start or went on no longer.
#[derive(Clone, Debug, PartialEq, Eq)]
pub enum CaptureError {
    /// A capture is already running.
    AlreadyRunning,
    /// The platform has no per-process loopback capture.
    UnsupportedPlatform,
    /// Setting up the platform audio stack failed.
    PlatformInit(String),
    /// The platform failed while capturing.
    PlatformRuntime(String),
}

impl CaptureError {
    /// A message for the host application.
    pub fn message(&self) -> (r: String)
        ensures
            self is AlreadyRunning ==> r@ == "Audio capture already running"@,
            self is UnsupportedPlatform ==> r@
                == "Per-process audio capture is only supported on Windows"@,
            self matches CaptureError::PlatformInit(d) ==> r@ == d@,
            self matches CaptureError::PlatformRuntime(d) ==> r@ == d@,
    {
        match self {
            CaptureError::AlreadyRunning => "Audio capture already running".to_owned(),
            CaptureError::UnsupportedPlatform => {
                "Per-process audio capture is only supported on Windows".to_owned()
            },
            CaptureError::PlatformInit(d) => d.clone(),
            CaptureError::PlatformRuntime(d) => d.clone(),
        }
    }
}

/// What `start` returns when the flag was observed as `flag_was_set`.
pub open spec fn start_result(flag_was_set: bool, supported: bool) -> Result<(), CaptureError> {
    if !supported {
        Err(CaptureError::UnsupportedPlatform)
    } else if flag_was_set {
        Err(CaptureError::AlreadyRunning)
    } else {
        Ok(())
    }
}

/// The flag after `start`: set on a supported platform, untouched otherwise.
pub open spec fn flag_after_start(flag: bool, supported: bool) -> bool {
    if supported {
        true
    } else {
        flag
    }
}

/// The flag after `stop`: clear.
pub open spec fn flag_after_stop(flag: bool) -> bool {
    false
}

/// The decision of `start` on the observed flag.
pub fn start_outcome(flag_was_set: bool, supported: bool) -> (r: Result<(), CaptureError>)
    ensures
        r == start_result(flag_was_set, supported),
{
    if !supported {
        Err(CaptureError::UnsupportedPlatform)
    } else if flag_was_set {
        Err(CaptureError::AlreadyRunning)
    } else {
        Ok(())
    }
}

/// A second `start` right after a first, with no worker exit between, fails
/// with `AlreadyRunning` whatever the first one returned.
pub proof fn lemma_double_start(flag: bool)
    ensures
        start_result(flag_after_start(flag, true), true) == Err::<(), CaptureError>(
            CaptureError::AlreadyRunning,
        ),
{
}

/// `stop` is idempotent: one call or many leave the flag clear.
pub proof fn lemma_stop_idempotent(flag: bool)
    ensures
        flag_after_stop(flag_after_stop(flag)) == flag_after_stop(flag),
        !flag_after_stop(flag),
{
}

/// Relies on `Arc::clone`: a second handle on the same allocation, so the
/// worker and the controller share one flag.
#[verifier::external_body]
fn share_flag(flag: &Arc<AtomicBool>) -> Arc<AtomicBool> {
    Arc::clone(flag)
}

/// The worker's handle on the running flag.
pub struct RunningFlag {
    flag: Arc<AtomicBool>,
}

impl RunningFlag {
    /// The flag as observed now.
    pub fn is_set(&self) -> bool {
        self.flag.load(Ordering::SeqCst)
    }

    /// Clears the flag; the worker does this on its way out.
    pub fn clear(&self) {
        self.flag.store(false, Ordering::SeqCst)
    }
}

/// Start/stop controller of a per-process loopback capture.
pub struct AudioCapture {
    running: Arc<AtomicBool>,
}

impl AudioCapture {
    /// An idle controller.
    pub fn new() -> Self {
        AudioCapture { running: Arc::new(AtomicBool::new(false)) }
    }

    /// Whether a capture is running, as observed now.
    pub fn is_running(&self) -> bool {
        self.running.load(Ordering::SeqCst)
    }

    /// Clears the running flag; the worker sees it and ends on its own.
    /// Calling it again changes nothing.
    pub fn stop(&self) {
        self.running.store(false, Ordering::SeqCst)
    }

    /// Claims the running flag for a new worker. On an unsupported platform
    /// it fails with `UnsupportedPlatform` and leaves the flag alone;
    /// otherwise it sets the flag in one atomic step and fails with
    /// `AlreadyRunning` exactly when the flag was already set. The returned
    /// handle goes to the worker, which runs the capture and clears the flag
    /// when it ends.
    pub fn start(&self, supported: bool) -> (r: Result<RunningFlag, CaptureError>)
        ensures
            !supported ==> r == Err::<RunningFlag, CaptureError>(CaptureError::UnsupportedPlatform),
            supported ==> (r is Ok || r == Err::<RunningFlag, CaptureError>(
                CaptureError::AlreadyRunning,
            )),
    {
        if !supported {
            return Err(CaptureError::UnsupportedPlatform);
        }
        let previous = self.running.compare_exchange(false, true, Ordering::SeqCst, Ordering::SeqCst);
        let flag_was_set = match previous {
            Ok(v) => v,
            Err(v) => v,
        };
        match start_outcome(flag_was_set, supported) {
            Ok(()) => Ok(RunningFlag { flag: share_flag(&self.running) }),
            Err(e) => Err(e),
        }
    }
}

} // verus!
