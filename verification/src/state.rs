//! When to connect to the driver, when to start it, and when to look for a tablet again.

use crate::time;
use crate::time::{Duration, Instant};
use vstd::prelude::*;

verus! {

/// How long the driver's pipeline may go without being rebuilt, in milliseconds.
pub const PIPELINE_REBUILD_MILLIS: u64 = 300_000;

/// How long the supervisor sleeps between two looks at a working tablet.
pub const TABLET_POLL_MILLIS: u64 = 900;

/// The least time between two attempts to start the driver.
pub const START_RETRY_MILLIS: u64 = 1_500;

/// How long a started driver may take until it can be reached.
pub const IPC_STARTUP_MILLIS: u64 = 180_000;

/// How long the supervisor sleeps before it tries to connect again.
pub const BACKEND_RECONNECT_MILLIS: u64 = 1_200;

/// The pauses of a burst of detections, the first before the first detection.
pub const DETECT_RETRY_MILLIS: [u64; 6] = [0, 2_000, 4_000, 7_000, 12_000, 20_000];

/// The pause between detections once the burst is over.
pub const STEADY_STATE_DETECT_MILLIS: u64 = 15_000;

/// What the supervisor does next while it has no connection.
#[derive(Clone, Copy, Debug, Eq, PartialEq, Structural)]
pub enum ConnectionAction {
    Connect,
    StartOwnedDaemon,
    WaitForIpc,
    WaitForRetry,
    RestartOwnedDaemon,
}

/// What is known of the driver process.
#[derive(Clone, Copy, Debug)]
pub struct DaemonLifecycle {
    pub last_start_attempt: Option<Instant>,
    pub startup_wait_started: Option<Instant>,
    pub connected: bool,
}

impl DaemonLifecycle {
    /// The last attempt to start the driver is less than a retry interval ago.
    pub open spec fn recently_attempted(self, now: Instant) -> bool {
        self.last_start_attempt matches Some(attempt) && time::elapsed(
            attempt.nanos as int,
            now.nanos as int,
        ) < Duration::of_millis(START_RETRY_MILLIS as int)
    }

    /// The started driver has had its whole time to become reachable.
    pub open spec fn startup_overdue(self, now: Instant) -> bool {
        self.startup_wait_started matches Some(started) && time::elapsed(
            started.nanos as int,
            now.nanos as int,
        ) >= Duration::of_millis(IPC_STARTUP_MILLIS as int)
    }

    /// The action that `next_action` returns.
    pub open spec fn action_for(
        self,
        now: Instant,
        ipc_available: bool,
        owned_daemon_running: bool,
    ) -> ConnectionAction {
        if ipc_available {
            ConnectionAction::Connect
        } else if owned_daemon_running {
            if self.startup_overdue(now) {
                ConnectionAction::RestartOwnedDaemon
            } else {
                ConnectionAction::WaitForIpc
            }
        } else if self.recently_attempted(now) {
            ConnectionAction::WaitForRetry
        } else {
            ConnectionAction::StartOwnedDaemon
        }
    }

    /// The nanoseconds that `retry_wait` returns.
    pub open spec fn retry_wait_nanos(self, now: Instant) -> int {
        match self.last_start_attempt {
            Some(attempt) => time::elapsed(
                time::elapsed(attempt.nanos as int, now.nanos as int),
                Duration::of_millis(START_RETRY_MILLIS as int),
            ),
            None => 0,
        }
    }

    pub fn new() -> (lifecycle: DaemonLifecycle)
        ensures
            lifecycle == (DaemonLifecycle {
                last_start_attempt: None,
                startup_wait_started: None,
                connected: false,
            }),
    {
        DaemonLifecycle { last_start_attempt: None, startup_wait_started: None, connected: false }
    }

    pub fn next_action(
        &self,
        now: Instant,
        ipc_available: bool,
        owned_daemon_running: bool,
    ) -> (action: ConnectionAction)
        ensures
            action == self.action_for(now, ipc_available, owned_daemon_running),
    {
        if ipc_available {
            return ConnectionAction::Connect;
        }
        if owned_daemon_running {
            let overdue = match self.startup_wait_started {
                Some(started) => now.saturating_duration_since(started).nanos
                    >= Duration::from_millis(IPC_STARTUP_MILLIS).nanos,
                None => false,
            };
            if overdue {
                ConnectionAction::RestartOwnedDaemon
            } else {
                ConnectionAction::WaitForIpc
            }
        } else {
            let recent = match self.last_start_attempt {
                Some(attempt) => now.saturating_duration_since(attempt).nanos
                    < Duration::from_millis(START_RETRY_MILLIS).nanos,
                None => false,
            };
            if recent {
                ConnectionAction::WaitForRetry
            } else {
                ConnectionAction::StartOwnedDaemon
            }
        }
    }

    /// How long to wait until the driver may be started again.
    pub fn retry_wait(&self, now: Instant) -> (wait: Duration)
        ensures
            wait.nanos == self.retry_wait_nanos(now),
    {
        match self.last_start_attempt {
            Some(attempt) => Duration::from_millis(START_RETRY_MILLIS).saturating_sub(
                now.saturating_duration_since(attempt),
            ),
            None => Duration { nanos: 0 },
        }
    }

    pub fn start_attempted(&mut self, now: Instant)
        ensures
            *final(self) == (DaemonLifecycle { last_start_attempt: Some(now), ..*old(self) }),
    {
        self.last_start_attempt = Some(now);
    }

    pub fn spawn_succeeded(&mut self, now: Instant)
        ensures
            *final(self) == (DaemonLifecycle { startup_wait_started: Some(now), ..*old(self) }),
    {
        self.startup_wait_started = Some(now);
    }

    pub fn spawn_failed(&mut self)
        ensures
            *final(self) == (DaemonLifecycle { startup_wait_started: None, ..*old(self) }),
    {
        self.startup_wait_started = None;
    }

    pub fn connected(&mut self)
        ensures
            *final(self) == (DaemonLifecycle {
                connected: true,
                startup_wait_started: None,
                ..*old(self)
            }),
    {
        self.connected = true;
        self.startup_wait_started = None;
    }

    pub fn disconnected(&mut self)
        ensures
            *final(self) == (DaemonLifecycle { connected: false, ..*old(self) }),
    {
        self.connected = false;
    }

    pub fn owned_daemon_stopped(&mut self)
        ensures
            *final(self) == (DaemonLifecycle { startup_wait_started: None, ..*old(self) }),
    {
        self.startup_wait_started = None;
    }

    pub fn is_connected(&self) -> (connected: bool)
        ensures
            connected == self.connected,
    {
        self.connected
    }
}

/// When the next detection of a tablet is due.
#[derive(Clone, Copy, Debug)]
pub struct DetectionSchedule {
    /// How many detections of the burst have been made.
    pub attempts: usize,
    pub next: Option<Instant>,
}

impl DetectionSchedule {
    /// The pause before the detection that follows `attempts` detections, in milliseconds.
    pub open spec fn pause_after(attempts: int) -> int {
        if attempts == 0 {
            0
        } else if attempts == 1 {
            2_000
        } else if attempts == 2 {
            4_000
        } else if attempts == 3 {
            7_000
        } else if attempts == 4 {
            12_000
        } else if attempts == 5 {
            20_000
        } else {
            15_000
        }
    }

    /// The count of detections after one more; it stops at the length of the burst.
    pub open spec fn one_more(attempts: int) -> int {
        if attempts < 6 {
            attempts + 1
        } else {
            6
        }
    }

    /// The detection is due.
    pub open spec fn is_due(self, now: Instant) -> bool {
        self.next matches Some(deadline) && now.nanos >= deadline.nanos
    }

    /// The nanoseconds that `wait_duration` returns.
    pub open spec fn wait_nanos(self, now: Instant) -> int {
        let poll = Duration::of_millis(TABLET_POLL_MILLIS as int);
        match self.next {
            Some(deadline) => {
                let left = time::elapsed(now.nanos as int, deadline.nanos as int);
                if left <= poll {
                    left
                } else {
                    poll
                }
            },
            None => poll,
        }
    }

    /// The schedule after a detection that found nothing.
    pub open spec fn after_no_tablet(self, now: Instant) -> DetectionSchedule {
        DetectionSchedule {
            attempts: self.attempts,
            next: Some(
                Instant {
                    nanos: (now.nanos + Duration::of_millis(
                        DetectionSchedule::pause_after(self.attempts as int),
                    )) as u128,
                },
            ),
        }
    }

    /// The schedule after `take_due`.
    pub open spec fn after_take_due(self, now: Instant) -> DetectionSchedule {
        if self.is_due(now) {
            DetectionSchedule {
                attempts: DetectionSchedule::one_more(self.attempts as int) as usize,
                next: None,
            }
        } else {
            self
        }
    }

    /// The schedule after a detection that the user asked for.
    pub open spec fn after_explicit_detect(now: Instant) -> DetectionSchedule {
        DetectionSchedule {
            attempts: 1,
            next: Some(Instant { nanos: (now.nanos + Duration::of_millis(2_000)) as u128 }),
        }
    }

    pub fn new(now: Instant) -> (schedule: DetectionSchedule)
        ensures
            schedule == (DetectionSchedule { attempts: 0, next: Some(now) }),
    {
        DetectionSchedule { attempts: 0, next: Some(now) }
    }

    /// Starts the burst over; the detection that was asked for counts as its first.
    pub fn reset_after_explicit_detect(&mut self, now: Instant)
        requires
            now.can_add(2_000),
        ensures
            *final(self) == DetectionSchedule::after_explicit_detect(now),
            final(self).attempts == 1,
            final(self).next matches Some(next) && next.nanos == now.nanos + Duration::of_millis(
                2_000,
            ),
    {
        self.attempts = 1;
        self.next = Some(now.after(Duration::from_millis(DETECT_RETRY_MILLIS[1])));
    }

    pub fn tablet_found(&mut self)
        ensures
            *final(self) == (DetectionSchedule { attempts: 0, next: None }),
    {
        self.attempts = 0;
        self.next = None;
    }

    pub fn no_tablet(&mut self, now: Instant)
        requires
            now.can_add(DetectionSchedule::pause_after(old(self).attempts as int)),
        ensures
            *final(self) == old(self).after_no_tablet(now),
            final(self).next matches Some(next) && next.nanos == now.nanos + Duration::of_millis(
                DetectionSchedule::pause_after(old(self).attempts as int),
            ),
    {
        let pause: u64 = if self.attempts < 6 {
            DETECT_RETRY_MILLIS[self.attempts]
        } else {
            STEADY_STATE_DETECT_MILLIS
        };
        self.next = Some(now.after(Duration::from_millis(pause)));
    }

    /// Takes the detection off the schedule if it is due, and says whether it was.
    pub fn take_due(&mut self, now: Instant) -> (due: bool)
        ensures
            due == old(self).is_due(now),
            *final(self) == old(self).after_take_due(now),
    {
        match self.next {
            Some(deadline) => {
                if now.nanos < deadline.nanos {
                    return false;
                }
            },
            None => {
                return false;
            },
        }
        self.attempts = if self.attempts < 6 {
            self.attempts + 1
        } else {
            6
        };
        self.next = None;
        true
    }

    /// How long to sleep: until the next detection, but no longer than the poll interval.
    pub fn wait_duration(&self, now: Instant) -> (wait: Duration)
        ensures
            wait.nanos == self.wait_nanos(now),
    {
        let poll = Duration::from_millis(TABLET_POLL_MILLIS);
        match self.next {
            Some(deadline) => deadline.saturating_duration_since(now).min(poll),
            None => poll,
        }
    }
}

/// A reachable driver is connected to, whoever started it and whatever happened before.
pub proof fn reachable_driver_is_used(lifecycle: DaemonLifecycle, now: Instant, owned: bool)
    ensures
        lifecycle.action_for(now, true, owned) == ConnectionAction::Connect,
{
}

/// The supervisor starts a driver only when none can be reached and it owns none that runs.
pub proof fn no_second_driver(lifecycle: DaemonLifecycle, now: Instant, ipc: bool, owned: bool)
    ensures
        lifecycle.action_for(now, ipc, owned) == ConnectionAction::StartOwnedDaemon ==> !ipc
            && !owned,
        lifecycle.action_for(now, ipc, owned) == ConnectionAction::RestartOwnedDaemon ==> !ipc
            && owned,
{
}

/// After an attempt at `attempt` no other is made before the retry interval is over, and
/// the wait that `retry_wait` gives ends exactly when the next attempt is allowed.
pub proof fn attempts_are_spaced(lifecycle: DaemonLifecycle, attempt: Instant, now: Instant)
    requires
        lifecycle.last_start_attempt == Some(attempt),
        attempt.nanos <= now.nanos,
    ensures
        lifecycle.action_for(now, false, false) == ConnectionAction::StartOwnedDaemon <==> now.nanos
            >= attempt.nanos + Duration::of_millis(START_RETRY_MILLIS as int),
        lifecycle.action_for(now, false, false) == ConnectionAction::WaitForRetry
            <==> lifecycle.retry_wait_nanos(now) > 0,
        forall|later: Instant|
            #![trigger lifecycle.action_for(later, false, false)]
            later.nanos >= now.nanos + lifecycle.retry_wait_nanos(now) ==> lifecycle.action_for(
                later,
                false,
                false,
            ) == ConnectionAction::StartOwnedDaemon,
{
}

/// A started driver is waited for, and is restarted only once its time is over.
pub proof fn startup_is_given_its_time(lifecycle: DaemonLifecycle, started: Instant, now: Instant)
    requires
        lifecycle.startup_wait_started == Some(started),
        started.nanos <= now.nanos,
    ensures
        lifecycle.action_for(now, false, true) == ConnectionAction::RestartOwnedDaemon <==> now.nanos
            >= started.nanos + Duration::of_millis(IPC_STARTUP_MILLIS as int),
        lifecycle.action_for(now, false, true) == ConnectionAction::WaitForIpc <==> now.nanos
            < started.nanos + Duration::of_millis(IPC_STARTUP_MILLIS as int),
{
}

/// Once a tablet is found no detection comes due, however late it gets.
pub proof fn found_tablet_ends_detection(schedule: DetectionSchedule, now: Instant)
    requires
        schedule.next is None,
    ensures
        !schedule.is_due(now),
        schedule.after_take_due(now) == schedule,
        schedule.wait_nanos(now) == Duration::of_millis(TABLET_POLL_MILLIS as int),
{
}

/// After a detection that found nothing, the next one is due when the pause for that many
/// detections is over, and not before; taking it moves on to the next pause.
pub proof fn detections_back_off(schedule: DetectionSchedule, now: Instant, later: Instant)
    requires
        schedule.attempts <= 6,
        now.can_add(DetectionSchedule::pause_after(schedule.attempts as int)),
    ensures
        ({
            let waiting = schedule.after_no_tablet(now);
            &&& waiting.is_due(later) <==> later.nanos >= now.nanos + Duration::of_millis(
                DetectionSchedule::pause_after(schedule.attempts as int),
            )
            &&& waiting.is_due(later) ==> waiting.after_take_due(later).attempts
                == DetectionSchedule::one_more(schedule.attempts as int)
            &&& waiting.after_take_due(later).attempts <= 6
        }),
{
}

/// The supervisor never sleeps past a due detection, nor longer than the poll interval.
pub proof fn sleep_is_bounded(schedule: DetectionSchedule, now: Instant)
    ensures
        0 <= schedule.wait_nanos(now) <= Duration::of_millis(TABLET_POLL_MILLIS as int),
        schedule.is_due(now) ==> schedule.wait_nanos(now) == 0,
        schedule.next matches Some(deadline) ==> now.nanos + schedule.wait_nanos(now)
            <= deadline.nanos || now.nanos > deadline.nanos,
{
}

// ---- in seconds ----

/// A driver is started once one and a half seconds went by since the last attempt, or where there
/// was none. Until then it is waited for what is left of them.
pub proof fn starts_wait_for_a_second_and_a_half(
    lifecycle: DaemonLifecycle,
    attempt: Instant,
    now: Instant,
)
    ensures
        lifecycle.last_start_attempt is None ==> lifecycle.action_for(now, false, false)
            == ConnectionAction::StartOwnedDaemon && lifecycle.retry_wait_nanos(now) == 0,
        lifecycle.last_start_attempt == Some(attempt) && attempt.nanos <= now.nanos < attempt.nanos
            + 1_500_000_000 ==> lifecycle.action_for(now, false, false)
            == ConnectionAction::WaitForRetry && now.nanos + lifecycle.retry_wait_nanos(now)
            == attempt.nanos + 1_500_000_000,
        lifecycle.last_start_attempt == Some(attempt) && now.nanos >= attempt.nanos + 1_500_000_000
            ==> lifecycle.action_for(now, false, false) == ConnectionAction::StartOwnedDaemon
            && lifecycle.retry_wait_nanos(now) == 0,
{
}

/// An own driver that runs is waited for three minutes, and is then started again. One whose start
/// is not known is waited for however long it takes.
pub proof fn startups_take_three_minutes_at_most(
    lifecycle: DaemonLifecycle,
    started: Instant,
    now: Instant,
)
    ensures
        lifecycle.startup_wait_started is None ==> lifecycle.action_for(now, false, true)
            == ConnectionAction::WaitForIpc,
        lifecycle.startup_wait_started == Some(started) && now.nanos < started.nanos
            + 180_000_000_000 ==> lifecycle.action_for(now, false, true)
            == ConnectionAction::WaitForIpc,
        lifecycle.startup_wait_started == Some(started) && now.nanos >= started.nanos
            + 180_000_000_000 ==> lifecycle.action_for(now, false, true)
            == ConnectionAction::RestartOwnedDaemon,
{
}

/// The pauses of a burst are none, two, four, seven, twelve and twenty seconds, and fifteen
/// seconds ever after. Each detection that is made moves on to the next of them.
pub proof fn bursts_take_their_pauses(schedule: DetectionSchedule, now: Instant, later: Instant)
    requires
        now.can_add(20_000),
    ensures
        ({
            let next = schedule.after_no_tablet(now).next->0.nanos - now.nanos;
            &&& schedule.after_no_tablet(now).next is Some
            &&& schedule.after_no_tablet(now).attempts == schedule.attempts
            &&& schedule.attempts == 0 ==> next == 0
            &&& schedule.attempts == 1 ==> next == 2_000_000_000
            &&& schedule.attempts == 2 ==> next == 4_000_000_000
            &&& schedule.attempts == 3 ==> next == 7_000_000_000
            &&& schedule.attempts == 4 ==> next == 12_000_000_000
            &&& schedule.attempts == 5 ==> next == 20_000_000_000
            &&& schedule.attempts >= 6 ==> next == 15_000_000_000
        }),
        schedule.next matches Some(deadline) ==> (deadline.nanos <= later.nanos
            ==> schedule.after_take_due(later).next is None && (schedule.attempts < 6
            ==> schedule.after_take_due(later).attempts == schedule.attempts + 1) && (
        schedule.attempts >= 6 ==> schedule.after_take_due(later).attempts == 6)),
        schedule.next matches Some(deadline) ==> (deadline.nanos > later.nanos
            ==> schedule.after_take_due(later) == schedule),
        DetectionSchedule::after_explicit_detect(now).attempts == 1,
        DetectionSchedule::after_explicit_detect(now).next matches Some(deadline) && deadline.nanos
            == now.nanos + 2_000_000_000,
{
}

/// The sleep before a detection ends with its time, or after nine tenths of a second.
pub proof fn sleeps_take_nine_tenths_at_most(schedule: DetectionSchedule, now: Instant)
    ensures
        schedule.next is None ==> schedule.wait_nanos(now) == 900_000_000,
        schedule.next matches Some(deadline) ==> (now.nanos <= deadline.nanos <= now.nanos
            + 900_000_000 ==> now.nanos + schedule.wait_nanos(now) == deadline.nanos),
        schedule.next matches Some(deadline) ==> (deadline.nanos >= now.nanos + 900_000_000
            ==> schedule.wait_nanos(now) == 900_000_000),
        schedule.next matches Some(deadline) ==> (deadline.nanos <= now.nanos
            ==> schedule.wait_nanos(now) == 0),
{
}

} // verus!
