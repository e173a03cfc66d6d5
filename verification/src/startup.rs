//! Registration of the meshtier instance when the console starts: whether it runs, how long
//! it keeps trying, and what follows each attempt.

use vstd::prelude::*;

use crate::gateway::{env_bool_spec, env_u64_spec, parse_env_bool, parse_env_u64};
use crate::uptime::opt_view;

verus! {

/// How the startup registration runs: for how many seconds it keeps trying, and how many
/// seconds it pauses between attempts.
#[derive(Debug, PartialEq, Eq)]
pub struct AutoRegister {
    pub wait_secs: u64,
    pub retry_secs: u64,
}

/// The startup registration, from its switch (default on), its waiting time (default 300
/// seconds) and its pause (default 3 seconds, at least 1); `None` when it is switched off.
pub fn start(enabled: &Option<String>, wait_secs: &Option<String>, retry_secs: &Option<String>) -> (r:
    Option<AutoRegister>)
    ensures
        !env_bool_spec(opt_view(*enabled), true) ==> r is None,
        env_bool_spec(opt_view(*enabled), true) ==> (r matches Some(a) && a.wait_secs
            == env_u64_spec(opt_view(*wait_secs), 300) && a.retry_secs == if env_u64_spec(
            opt_view(*retry_secs),
            3,
        ) >= 1 {
            env_u64_spec(opt_view(*retry_secs), 3)
        } else {
            1
        }),
        r matches Some(a) ==> a.retry_secs >= 1,
{
    if !parse_env_bool(enabled, true) {
        return None;
    }
    let wait = parse_env_u64(wait_secs, 300);
    let retry = parse_env_u64(retry_secs, 3);
    let retry = if retry >= 1 {
        retry
    } else {
        1
    };
    Some(AutoRegister { wait_secs: wait, retry_secs: retry })
}

/// How one attempt at registration went.
#[derive(Clone, Copy, Debug, PartialEq, Eq, Structural)]
pub enum AttemptOutcome {
    /// The instance is registered.
    Registered,
    /// What it needs is not there yet.
    NotReady,
    /// The attempt failed.
    Failed,
}

/// What follows an attempt.
#[derive(Clone, Copy, Debug, PartialEq, Eq, Structural)]
pub enum AutoRegisterStep {
    /// Done.
    Finish,
    /// Pause for this many seconds, then try again.
    Retry { pause_secs: u64 },
    /// The waiting time is over: stop.
    GiveUp,
}

impl AutoRegister {
    /// What follows an attempt: finish once registered; else give up once the waiting time
    /// is over, and otherwise pause and try again.
    pub fn after_attempt(&self, outcome: AttemptOutcome, deadline_passed: bool) -> (r:
        AutoRegisterStep)
        ensures
            outcome == AttemptOutcome::Registered ==> r == AutoRegisterStep::Finish,
            outcome != AttemptOutcome::Registered && deadline_passed ==> r
                == AutoRegisterStep::GiveUp,
            outcome != AttemptOutcome::Registered && !deadline_passed ==> r
                == (AutoRegisterStep::Retry { pause_secs: self.retry_secs }),
    {
        match outcome {
            AttemptOutcome::Registered => AutoRegisterStep::Finish,
            _ => if deadline_passed {
                AutoRegisterStep::GiveUp
            } else {
                AutoRegisterStep::Retry { pause_secs: self.retry_secs }
            },
        }
    }
}

} // verus!
