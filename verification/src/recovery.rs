//! Getting back to a driver that other programs may start too.
//!
//! Unlike the supervisor, which counts on the driver that it owns, this one waits for
//! whatever driver there is, and can be told to give up after some starts in vain.

use crate::state::{IPC_STARTUP_MILLIS, START_RETRY_MILLIS};
use crate::time;
use crate::time::{Duration, Instant};
use vstd::prelude::*;

verus! {

/// The starts in vain after which nothing is started any more, on Windows.
pub const MAX_AUTOMATIC_RESTARTS: usize = 3;

/// How hard to try.
#[derive(Clone, Copy, Debug, PartialEq, Eq, Structural)]
pub struct RecoveryRules {
    /// The starts in vain after which nothing is started any more.
    pub restart_limit: Option<usize>,
    /// A start that fails for a driver that is there is told as a crash.
    pub tells_crashes: bool,
}

/// What is known of the driver's starts.
#[derive(Clone, Copy, Debug, PartialEq, Eq, Structural)]
pub struct Recovery {
    pub last_start_attempt: Option<Instant>,
    pub startup_wait_started: Option<Instant>,
    /// The starts since the driver last answered.
    pub restarts: usize,
}

/// What to do without a connection.
#[derive(Clone, Copy, Debug, PartialEq, Eq, Structural)]
pub enum RecoveryStep {
    /// A driver runs: look whether it is overdue, and connect to it.
    Proceed,
    /// Tell that the driver crashed, and wait for the user.
    GiveUp,
    /// Wait before the next start.
    Pause(Duration),
    /// Start the driver.
    Start,
}

/// How a start went.
#[derive(Clone, Copy, Debug, PartialEq, Eq, Structural)]
pub enum StartOutcome {
    Started,
    /// A driver can be reached already.
    AlreadyConnected,
    /// A driver is starting already.
    AlreadyStarting,
    /// There is no driver to start.
    Missing,
    Failed,
}

impl Recovery {
    /// The starts in vain are used up.
    pub open spec fn exhausted(self, rules: RecoveryRules) -> bool {
        rules.restart_limit matches Some(limit) && self.restarts >= limit
    }

    /// What is left of the pause after the last start.
    pub open spec fn pause_left(self, now: Instant) -> int {
        match self.last_start_attempt {
            Some(attempt) => time::elapsed(
                time::elapsed(attempt.nanos as int, now.nanos as int),
                Duration::of_millis(START_RETRY_MILLIS as int),
            ),
            None => 0,
        }
    }

    /// What to do without a connection.
    pub open spec fn step_at(self, running: bool, rules: RecoveryRules, now: Instant) -> RecoveryStep {
        if running {
            RecoveryStep::Proceed
        } else if self.exhausted(rules) {
            RecoveryStep::GiveUp
        } else if self.pause_left(now) > 0 {
            RecoveryStep::Pause(Duration { nanos: self.pause_left(now) as u128 })
        } else {
            RecoveryStep::Start
        }
    }

    /// Before anything happened: nothing was started, and whatever runs has its whole time.
    pub fn new(now: Instant) -> (recovery: Recovery)
        ensures
            recovery == (Recovery {
                last_start_attempt: None,
                startup_wait_started: Some(now),
                restarts: 0,
            }),
    {
        Recovery { last_start_attempt: None, startup_wait_started: Some(now), restarts: 0 }
    }

    /// What to do without a connection. A start is noted as an attempt.
    pub fn step(&mut self, running: bool, rules: RecoveryRules, now: Instant) -> (
        step: RecoveryStep)
        ensures
            step == old(self).step_at(running, rules, now),
            *final(self) == if step is Start {
                (Recovery { last_start_attempt: Some(now), ..*old(self) })
            } else {
                *old(self)
            },
    {
        if running {
            return RecoveryStep::Proceed;
        }
        let exhausted = match rules.restart_limit {
            Some(limit) => self.restarts >= limit,
            None => false,
        };
        if exhausted {
            return RecoveryStep::GiveUp;
        }
        let left = match self.last_start_attempt {
            Some(attempt) => Duration::from_millis(START_RETRY_MILLIS).saturating_sub(
                now.saturating_duration_since(attempt),
            ),
            None => Duration { nanos: 0 },
        };
        if !left.is_zero() {
            return RecoveryStep::Pause(left);
        }
        self.last_start_attempt = Some(now);
        RecoveryStep::Start
    }

    /// What is known after a start.
    pub open spec fn after_start(self, outcome: StartOutcome, rules: RecoveryRules, now: Instant) -> Recovery {
        let counted = if rules.restart_limit is Some {
            (self.restarts + 1) as usize
        } else {
            self.restarts
        };
        match outcome {
            StartOutcome::Started => Recovery {
                restarts: counted,
                startup_wait_started: Some(now),
                ..self
            },
            StartOutcome::AlreadyConnected => Recovery { startup_wait_started: None, ..self },
            StartOutcome::AlreadyStarting => Recovery {
                startup_wait_started: match self.startup_wait_started {
                    Some(started) => Some(started),
                    None => Some(now),
                },
                ..self
            },
            _ => Recovery { restarts: counted, ..self },
        }
    }

    /// The state of the connection to tell after a start, where there is one.
    pub open spec fn state_after(outcome: StartOutcome, rules: RecoveryRules) -> Option<Seq<char>> {
        match outcome {
            StartOutcome::Started => Some("daemon-starting"@),
            StartOutcome::AlreadyConnected => None,
            StartOutcome::AlreadyStarting => None,
            StartOutcome::Missing => Some("daemon-not-running"@),
            StartOutcome::Failed => if rules.tells_crashes {
                Some("daemon-crashed"@)
            } else {
                Some("daemon-not-running"@)
            },
        }
    }

    /// Notes how a start went, and gives the state of the connection to tell.
    pub fn started(&mut self, outcome: StartOutcome, rules: RecoveryRules, now: Instant) -> (
        state: Option<&'static str>)
        requires
            old(self).restarts < usize::MAX,
        ensures
            *final(self) == old(self).after_start(outcome, rules, now),
            match state {
                Some(name) => Recovery::state_after(outcome, rules) == Some(name@),
                None => Recovery::state_after(outcome, rules) is None,
            },
    {
        let counts = rules.restart_limit.is_some();
        match outcome {
            StartOutcome::Started => {
                if counts {
                    self.restarts = self.restarts + 1;
                }
                self.startup_wait_started = Some(now);
                Some("daemon-starting")
            },
            StartOutcome::AlreadyConnected => {
                self.startup_wait_started = None;
                None
            },
            StartOutcome::AlreadyStarting => {
                if self.startup_wait_started.is_none() {
                    self.startup_wait_started = Some(now);
                }
                None
            },
            StartOutcome::Missing => {
                if counts {
                    self.restarts = self.restarts + 1;
                }
                Some("daemon-not-running")
            },
            StartOutcome::Failed => {
                if counts {
                    self.restarts = self.restarts + 1;
                }
                if rules.tells_crashes {
                    Some("daemon-crashed")
                } else {
                    Some("daemon-not-running")
                }
            },
        }
    }

    /// The own driver had its whole time, and cannot be reached.
    pub open spec fn is_overdue(self, owned: bool, ipc: bool, now: Instant) -> bool {
        owned && !ipc && (self.startup_wait_started matches Some(started) && time::elapsed(
            started.nanos as int,
            now.nanos as int,
        ) >= Duration::of_millis(IPC_STARTUP_MILLIS as int))
    }

    /// Whether the own driver is to be stopped and started again.
    pub fn overdue(&self, owned: bool, ipc: bool, now: Instant) -> (overdue: bool)
        ensures
            overdue == self.is_overdue(owned, ipc, now),
    {
        owned && !ipc && match self.startup_wait_started {
            Some(started) => now.saturating_duration_since(started).nanos
                >= Duration::from_millis(IPC_STARTUP_MILLIS).nanos,
            None => false,
        }
    }

    /// The driver was stopped, or a connection stands.
    pub fn startup_over(&mut self)
        ensures
            *final(self) == (Recovery { startup_wait_started: None, ..*old(self) }),
    {
        self.startup_wait_started = None;
    }

    /// The connection is gone: the driver gets its whole time again.
    pub fn connection_lost(&mut self, now: Instant)
        ensures
            *final(self) == (Recovery { startup_wait_started: Some(now), ..*old(self) }),
    {
        self.startup_wait_started = Some(now);
    }

    /// The driver answered, or the user asked to look again: starts count anew.
    pub fn forgive(&mut self)
        ensures
            *final(self) == (Recovery { restarts: 0, ..*old(self) }),
    {
        self.restarts = 0;
    }
}

// ---- laws ----

/// Without an answer of the driver there are only so many starts: once the limit is reached,
/// nothing is started however long it takes.
pub proof fn restarts_are_bounded(recovery: Recovery, limit: usize, rules: RecoveryRules, now: Instant)
    requires
        rules.restart_limit == Some(limit),
        recovery.restarts >= limit,
    ensures
        !(recovery.step_at(false, rules, now) is Start),
        recovery.step_at(false, rules, now) is GiveUp,
{
}

/// Every start in vain counts towards the limit.
pub proof fn starts_in_vain_count(
    recovery: Recovery,
    outcome: StartOutcome,
    rules: RecoveryRules,
    now: Instant,
)
    requires
        rules.restart_limit is Some,
        recovery.restarts < usize::MAX,
        outcome is Started || outcome is Missing || outcome is Failed,
    ensures
        recovery.after_start(outcome, rules, now).restarts == recovery.restarts + 1,
{
}

/// Two starts are at least the retry interval apart.
pub proof fn starts_are_spaced(recovery: Recovery, attempt: Instant, rules: RecoveryRules, now: Instant)
    requires
        recovery.last_start_attempt == Some(attempt),
        attempt.nanos <= now.nanos,
        recovery.step_at(false, rules, now) is Start,
    ensures
        now.nanos >= attempt.nanos + Duration::of_millis(START_RETRY_MILLIS as int),
{
}

/// A driver that runs is never started a second time.
pub proof fn running_driver_is_not_started(recovery: Recovery, rules: RecoveryRules, now: Instant)
    ensures
        recovery.step_at(true, rules, now) is Proceed,
{
}

/// What is done without a driver that runs: nothing once the starts in vain are used up; else it
/// is waited until one and a half seconds went by since the last start, and then started.
pub proof fn starts_are_made_in_time(
    recovery: Recovery,
    attempt: Instant,
    rules: RecoveryRules,
    now: Instant,
)
    requires
        rules.restart_limit matches Some(limit) ==> recovery.restarts < limit,
    ensures
        recovery.last_start_attempt is None ==> recovery.step_at(false, rules, now) is Start,
        recovery.last_start_attempt == Some(attempt) && now.nanos >= attempt.nanos + 1_500_000_000
            ==> recovery.step_at(false, rules, now) is Start,
        recovery.last_start_attempt == Some(attempt) && attempt.nanos <= now.nanos < attempt.nanos
            + 1_500_000_000 ==> (recovery.step_at(false, rules, now) matches RecoveryStep::Pause(left)
            && now.nanos + left.nanos == attempt.nanos + 1_500_000_000),
{
}

/// How a start went decides what is told, what is counted and how long the driver has: a driver
/// that was started has its whole time from now on, one that is starting already keeps its time,
/// and one that answers already needs none. Only starts in vain count, and only where there is a
/// limit.
pub proof fn starts_are_noted(
    recovery: Recovery,
    outcome: StartOutcome,
    rules: RecoveryRules,
    now: Instant,
)
    requires
        recovery.restarts < usize::MAX,
    ensures
        ({
            let after = recovery.after_start(outcome, rules, now);
            let told = Recovery::state_after(outcome, rules);
            &&& after.last_start_attempt == recovery.last_start_attempt
            &&& outcome is AlreadyConnected || outcome is AlreadyStarting ==> after.restarts
                == recovery.restarts && told is None
            &&& rules.restart_limit is None ==> after.restarts == recovery.restarts
            &&& outcome is Started ==> after.startup_wait_started == Some(now) && told == Some(
                "daemon-starting"@,
            )
            &&& outcome is AlreadyConnected ==> after.startup_wait_started is None
            &&& outcome is AlreadyStarting ==> after.startup_wait_started is Some && (
            recovery.startup_wait_started is Some ==> after.startup_wait_started
                == recovery.startup_wait_started) && (recovery.startup_wait_started is None
                ==> after.startup_wait_started == Some(now))
            &&& outcome is Missing ==> after.startup_wait_started == recovery.startup_wait_started
                && told == Some("daemon-not-running"@)
            &&& outcome is Failed ==> after.startup_wait_started == recovery.startup_wait_started
                && (rules.tells_crashes ==> told == Some("daemon-crashed"@)) && (
            !rules.tells_crashes ==> told == Some("daemon-not-running"@))
        }),
{
}

/// Only an own driver that cannot be reached is overdue, and only three minutes after its start.
pub proof fn drivers_have_three_minutes(
    recovery: Recovery,
    started: Instant,
    owned: bool,
    ipc: bool,
    now: Instant,
)
    ensures
        recovery.is_overdue(owned, ipc, now) ==> owned && !ipc,
        recovery.startup_wait_started is None ==> !recovery.is_overdue(owned, ipc, now),
        recovery.startup_wait_started == Some(started) && owned && !ipc ==> (recovery.is_overdue(
            owned,
            ipc,
            now,
        ) <==> now.nanos >= started.nanos + 180_000_000_000),
{
}

} // verus!
