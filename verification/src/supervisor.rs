//! The reconnect supervisor's decision logic.
//!
//! The supervisor loops for the lifetime of the process: whenever the
//! session is not connected it attempts to connect, and on failure it
//! waits a fixed interval (`RETRY_INTERVAL_SECS`) before the next
//! attempt — no retry cap, no backoff, and no error ever propagates out
//! of the loop, because the device is expected to reappear at an
//! unknown future time. One pass of that loop is `supervise_step`; the
//! unverified runtime performs the sleeping and logging that each
//! returned action calls for.

use vstd::prelude::*;

use crate::session::Session;
use crate::session::SessionStatus;
use crate::transport::ScriptedHost;

verus! {

/// What one supervision pass decided, and what the caller owes it.
#[derive(Clone, Copy, Debug, PartialEq, Eq, Structural)]
pub enum SuperviseAction {
    /// The session was already connected; nothing was attempted.
    AlreadyConnected,
    /// A connection attempt succeeded; command senders may proceed.
    Connected,
    /// No target port is configured: a caller fault that retrying
    /// cannot mend.
    Misconfigured,
    /// The attempt failed; sleep `RETRY_INTERVAL_SECS`, then call
    /// again.
    RetryAfterDelay,
}

/// One pass of the supervision loop: connect if disconnected. Never
/// fails and never panics — every outcome is an action for the caller.
pub fn supervise_step(session: &mut Session, host: &mut ScriptedHost) -> (r: SuperviseAction)
    requires
        old(session).wf(),
    ensures
        final(session).wf(),
        final(session).target() == old(session).target(),
        final(host).discovery_fails == old(host).discovery_fails,
        final(host).opens@ == old(host).opens@ || final(host).opens@
            == old(host).opens@.drop_first(),
        (r == SuperviseAction::AlreadyConnected) <==> old(session).running(),
        (r == SuperviseAction::Misconfigured) <==> (!old(session).running()
            && !old(host).discovery_fails && old(session).target() is None),
        (r == SuperviseAction::Connected) <==> (!old(session).running()
            && !old(host).discovery_fails && old(session).target() is Some
            && old(host).opens@.len() > 0 && old(host).opens@[0] is Accept),
        old(session).running() ==> *final(session) == *old(session) && *final(host) == *old(host),
        r == SuperviseAction::Connected ==> final(session).running() && final(session).status()
            == Some(SessionStatus::Ready),
        (r == SuperviseAction::Misconfigured || r == SuperviseAction::RetryAfterDelay)
            ==> *final(session) == *old(session) && !final(session).running(),
        (!old(session).running() && !old(host).discovery_fails && old(session).target() is Some
            && old(host).opens@.len() == 0) ==> r == SuperviseAction::RetryAfterDelay
            && final(host).opens == old(host).opens,
{
    if session.is_connected() {
        return SuperviseAction::AlreadyConnected;
    }
    match session.start(host) {
        Ok(()) => SuperviseAction::Connected,
        Err(e) => match e {
            crate::errors::AdapterError::NoPrinterConfigured => SuperviseAction::Misconfigured,
            _ => SuperviseAction::RetryAfterDelay,
        },
    }
}

/// Run the supervision loop for `passes` passes against a configured
/// session and a host that refuses every open attempt.
///
/// This states the supervisor's law: however many passes are driven,
/// every one of them resolves to a retry-after-delay — no error
/// propagates, nothing panics, the loop never gives up on its own, and
/// the session and host are left exactly as they were.
pub fn supervise_run(session: &mut Session, host: &mut ScriptedHost, passes: usize) -> (retries:
    usize)
    requires
        old(session).wf(),
        !old(session).running(),
        old(session).target() is Some,
        !old(host).discovery_fails,
        old(host).opens@.len() == 0,
    ensures
        retries == passes,
        *final(session) == *old(session),
        *final(host) == *old(host),
{
    let mut retries: usize = 0;
    let mut i: usize = 0;
    while i < passes
        invariant
            i <= passes,
            retries == i,
            *session == *old(session),
            *host == *old(host),
            old(session).wf(),
            !old(session).running(),
            old(session).target() is Some,
            !old(host).discovery_fails,
            old(host).opens@.len() == 0,
        decreases passes - i,
    {
        let action = supervise_step(session, host);
        match action {
            SuperviseAction::RetryAfterDelay => {
                retries = retries + 1;
            },
            _ => {
                proof {
                    assert(false);
                }
            },
        }
        proof {
            assert(host.opens@ == old(host).opens@);
            assert(*host == *old(host));
        }
        i = i + 1;
    }
    retries
}

} // verus!
