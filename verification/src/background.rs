//! Opportunistic background sync on mobile: which platform scheduler call a sign-in or
//! sign-out makes. The scheduler calls themselves (BGTaskScheduler, WorkManager over
//! JNI) happen outside this crate.
use vstd::prelude::*;
use crate::config::Platform;

verus! {

/// A call into the platform's background scheduler.
#[derive(Clone, Copy, Debug, PartialEq, Eq, Structural)]
pub enum SchedulerCall {
    /// iOS: submit a `BGAppRefreshTask` request.
    SubmitRefreshRequest,
    /// Android: enqueue the periodic WorkManager sync.
    EnsureScheduled,
    /// Android: cancel the periodic WorkManager sync.
    CancelScheduled,
}

/// Schedule background sync after sign-in; nothing on other targets.
pub fn schedule(platform: Platform) -> (c: Option<SchedulerCall>)
    ensures
        c == match platform {
            Platform::Ios => Some(SchedulerCall::SubmitRefreshRequest),
            Platform::Android => Some(SchedulerCall::EnsureScheduled),
            Platform::Other => None::<SchedulerCall>,
        },
{
    match platform {
        Platform::Ios => Some(SchedulerCall::SubmitRefreshRequest),
        Platform::Android => Some(SchedulerCall::EnsureScheduled),
        Platform::Other => None,
    }
}

/// Cancel background sync on sign-out: only Android has scheduled work to unwind.
pub fn cancel(platform: Platform) -> (c: Option<SchedulerCall>)
    ensures
        c == match platform {
            Platform::Android => Some(SchedulerCall::CancelScheduled),
            _ => None::<SchedulerCall>,
        },
{
    match platform {
        Platform::Android => Some(SchedulerCall::CancelScheduled),
        _ => None,
    }
}

} // verus!
