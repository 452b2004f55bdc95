//! The watcher: a supervisor that takes whatever driver runs, and recovers from its loss.
//!
//! It differs from the supervisor in what it asks before it starts a driver, in that it can
//! give up, and in that it is not told to stop but ends with its commands.

use crate::json::{Json, Tree};
use crate::models::{AreaRequest, BackendSnapshot, Request, Snapshot};
use crate::query;
use crate::query::{Memory, QueryMemory};
use crate::recovery::{Recovery, RecoveryRules, RecoveryStep, StartOutcome};
use crate::state::{
    BACKEND_RECONNECT_MILLIS, DetectionSchedule, START_RETRY_MILLIS, TABLET_POLL_MILLIS,
};
use crate::supervisor::{News, Publication, WaitOutcome};
use crate::text;
use crate::time::{Duration, Instant};
use vstd::prelude::*;

verus! {

/// What the platform asks of the watcher.
#[derive(Clone, Copy, Debug, PartialEq, Eq, Structural)]
pub struct WatchRules {
    pub recovery: RecoveryRules,
    /// A change of the tablets calls for a detection.
    pub detect_on_change: bool,
    /// A new tablet is mapped to a display.
    pub auto_map: bool,
    /// The tablet is queried now and then though nothing happened.
    pub poll_with_tablet: bool,
    /// A new connection makes an earlier wish for a detection void.
    pub forget_detection_on_connect: bool,
}

/// What the watcher is told.
#[derive(Debug)]
pub enum WatchCommand {
    Detect,
    TabletChanged { generation: u64 },
    DriverDisconnected { generation: u64 },
    ApplyArea(AreaRequest),
}

/// What the watcher waits for.
#[derive(Clone, Copy, Debug, PartialEq, Eq, Structural)]
pub enum WatchPhase {
    /// The next command that is there already.
    Commands,
    /// Whether a driver runs.
    Probing,
    /// The start of one.
    Starting,
    /// Whether it is an own one, and whether it can be reached.
    Looking,
    /// The end of one that could not be reached.
    Stopping,
    Connecting,
    Querying,
    ReadingSettings,
    Applying,
    /// The end of a pause without a connection.
    Pausing,
    /// The end of a pause with one.
    Resting,
    Stopped,
}

/// How what was asked for went.
#[derive(Debug)]
pub enum WatchEvent {
    Command(Option<WatchCommand>),
    Running(bool),
    Started(StartOutcome),
    Looked { owned: bool, ipc: bool },
    DaemonStopped,
    Connected(bool),
    Queried(Option<BackendSnapshot>),
    SettingsRead(Option<Json>),
    /// The settings after the area was applied, where it was.
    Applied(Option<Json>),
    Waited(WaitOutcome),
}

/// What to do next.
#[derive(Debug)]
pub enum WatchAction {
    NextCommand,
    Probe,
    StartDaemon,
    Look,
    StopDaemon,
    Connect(u64),
    Query(bool),
    ReadSettings,
    Apply(AreaRequest),
    /// Wait for a command, no longer than this where there is a limit.
    Wait(Option<Duration>),
    Stop,
}

/// One step of the watcher: what to drop, to tell and to do, in that order.
#[derive(Debug)]
pub struct WatchStep {
    pub disconnect: bool,
    pub state: Option<&'static str>,
    pub publish: Option<Publication>,
    pub action: WatchAction,
}

/// The watcher.
#[derive(Debug)]
pub struct Watcher {
    pub phase: WatchPhase,
    pub connected: bool,
    pub queued_apply: Option<AreaRequest>,
    /// The area that is being applied.
    pub applying: Option<AreaRequest>,
    pub refresh_requested: bool,
    pub detect_requested: bool,
    pub no_tablet: bool,
    pub memory: QueryMemory,
    pub active_generation: u64,
    pub next_generation: u64,
    pub recovery: Recovery,
    pub detection: DetectionSchedule,
}

// ---- models ----

/// What the watcher is told.
pub enum Notice {
    Detect,
    TabletChanged { generation: u64 },
    DriverDisconnected { generation: u64 },
    ApplyArea(Request),
}

/// How what was asked for went.
pub enum Occurrence {
    Command(Option<Notice>),
    Running(bool),
    Started(StartOutcome),
    Looked { owned: bool, ipc: bool },
    DaemonStopped,
    Connected(bool),
    Queried(Option<Snapshot>),
    SettingsRead(Option<Tree>),
    Applied(Option<Tree>),
    Waited(WaitOutcome),
}

/// What to do next.
pub enum Deed {
    NextCommand,
    Probe,
    StartDaemon,
    Look,
    StopDaemon,
    Connect(u64),
    Query(bool),
    ReadSettings,
    Apply(Request),
    Wait(Option<Duration>),
    Stop,
}

/// One step of the watcher.
pub struct Outcome {
    pub disconnect: bool,
    pub state: Option<Seq<char>>,
    pub publish: Option<News>,
    pub action: Deed,
}

/// What is known to the watcher.
pub struct Watch {
    pub phase: WatchPhase,
    pub connected: bool,
    pub queued: Option<Request>,
    pub applying: Option<Request>,
    pub refresh: bool,
    pub detect: bool,
    pub no_tablet: bool,
    pub memory: Memory,
    pub active_generation: u64,
    pub next_generation: u64,
    pub recovery: Recovery,
    pub detection: DetectionSchedule,
}

impl View for WatchCommand {
    type V = Notice;

    open spec fn view(&self) -> Notice {
        match self {
            WatchCommand::Detect => Notice::Detect,
            WatchCommand::TabletChanged { generation } => Notice::TabletChanged {
                generation: *generation,
            },
            WatchCommand::DriverDisconnected { generation } => Notice::DriverDisconnected {
                generation: *generation,
            },
            WatchCommand::ApplyArea(request) => Notice::ApplyArea(request@),
        }
    }
}

impl View for WatchEvent {
    type V = Occurrence;

    open spec fn view(&self) -> Occurrence {
        match self {
            WatchEvent::Command(Some(command)) => Occurrence::Command(Some(command@)),
            WatchEvent::Command(None) => Occurrence::Command(None),
            WatchEvent::Running(running) => Occurrence::Running(*running),
            WatchEvent::Started(outcome) => Occurrence::Started(*outcome),
            WatchEvent::Looked { owned, ipc } => Occurrence::Looked { owned: *owned, ipc: *ipc },
            WatchEvent::DaemonStopped => Occurrence::DaemonStopped,
            WatchEvent::Connected(connected) => Occurrence::Connected(*connected),
            WatchEvent::Queried(Some(snapshot)) => Occurrence::Queried(Some(snapshot@)),
            WatchEvent::Queried(None) => Occurrence::Queried(None),
            WatchEvent::SettingsRead(settings) => Occurrence::SettingsRead(
                query::optional_tree(*settings),
            ),
            WatchEvent::Applied(settings) => Occurrence::Applied(query::optional_tree(*settings)),
            WatchEvent::Waited(outcome) => Occurrence::Waited(*outcome),
        }
    }
}

impl View for WatchAction {
    type V = Deed;

    open spec fn view(&self) -> Deed {
        match self {
            WatchAction::NextCommand => Deed::NextCommand,
            WatchAction::Probe => Deed::Probe,
            WatchAction::StartDaemon => Deed::StartDaemon,
            WatchAction::Look => Deed::Look,
            WatchAction::StopDaemon => Deed::StopDaemon,
            WatchAction::Connect(generation) => Deed::Connect(*generation),
            WatchAction::Query(detect) => Deed::Query(*detect),
            WatchAction::ReadSettings => Deed::ReadSettings,
            WatchAction::Apply(request) => Deed::Apply(request@),
            WatchAction::Wait(limit) => Deed::Wait(*limit),
            WatchAction::Stop => Deed::Stop,
        }
    }
}

impl View for WatchStep {
    type V = Outcome;

    open spec fn view(&self) -> Outcome {
        Outcome {
            disconnect: self.disconnect,
            state: match self.state {
                Some(name) => Some(name@),
                None => None,
            },
            publish: match self.publish {
                Some(Publication::Snapshot(snapshot)) => Some(News::Snapshot(snapshot@)),
                Some(Publication::Applied(area)) => Some(News::Applied(area@)),
                None => None,
            },
            action: self.action@,
        }
    }
}

/// An area, where there is one.
pub open spec fn optional_request(request: Option<AreaRequest>) -> Option<Request> {
    match request {
        Some(area) => Some(area@),
        None => None,
    }
}

impl View for Watcher {
    type V = Watch;

    open spec fn view(&self) -> Watch {
        Watch {
            phase: self.phase,
            connected: self.connected,
            queued: optional_request(self.queued_apply),
            applying: optional_request(self.applying),
            refresh: self.refresh_requested,
            detect: self.detect_requested,
            no_tablet: self.no_tablet,
            memory: self.memory@,
            active_generation: self.active_generation,
            next_generation: self.next_generation,
            recovery: self.recovery,
            detection: self.detection,
        }
    }
}

/// The events that a phase waits for.
pub open spec fn awaits(phase: WatchPhase, event: Occurrence) -> bool {
    match phase {
        WatchPhase::Commands => event is Command,
        WatchPhase::Probing => event is Running,
        WatchPhase::Starting => event is Started,
        WatchPhase::Looking => event is Looked,
        WatchPhase::Stopping => event is DaemonStopped,
        WatchPhase::Connecting => event is Connected,
        WatchPhase::Querying => event is Queried,
        WatchPhase::ReadingSettings => event is SettingsRead,
        WatchPhase::Applying => event is Applied,
        WatchPhase::Pausing => event is Waited,
        WatchPhase::Resting => event is Waited,
        WatchPhase::Stopped => false,
    }
}

// ---- the transitions ----

/// A step that tells nothing.
pub open spec fn silent(action: Deed) -> Outcome {
    Outcome { disconnect: false, state: None, publish: None, action }
}

/// A step that tells the state of the connection.
pub open spec fn saying(state: Seq<char>, action: Deed) -> Outcome {
    Outcome { disconnect: false, state: Some(state), publish: None, action }
}

/// A pause of some milliseconds.
pub open spec fn pause(millis: u64) -> Deed {
    Deed::Wait(Some(Duration { nanos: Duration::of_millis(millis as int) as u128 }))
}

impl Watch {
    /// Before anything happened.
    pub open spec fn initial(rules: WatchRules, now: Instant) -> Watch {
        Watch {
            phase: WatchPhase::Commands,
            connected: false,
            queued: None,
            applying: None,
            refresh: true,
            detect: false,
            no_tablet: false,
            memory: Memory { driver_settings: None, mapping_attempted: !rules.auto_map },
            active_generation: 0,
            next_generation: 1,
            recovery: Recovery {
                last_start_attempt: None,
                startup_wait_started: Some(now),
                restarts: 0,
            },
            detection: DetectionSchedule { attempts: 0, next: Some(now) },
        }
    }

    /// The tablet may be another one.
    pub open spec fn with_other_tablet(self, rules: WatchRules) -> Watch {
        Watch {
            memory: Memory { driver_settings: None, mapping_attempted: !rules.auto_map },
            refresh: true,
            ..self
        }
    }

    /// The connection is gone, and the driver gets its whole time again.
    pub open spec fn without_connection(self, now: Instant) -> Watch {
        Watch {
            connected: false,
            refresh: true,
            memory: Memory { driver_settings: None, ..self.memory },
            recovery: Recovery { startup_wait_started: Some(now), ..self.recovery },
            ..self
        }
    }

    /// The driver did not do what it was asked for: the connection is given up.
    pub open spec fn lost(self, now: Instant) -> (Watch, Outcome) {
        (
            Watch { phase: WatchPhase::Commands, ..self.without_connection(now) },
            Outcome { disconnect: true, ..saying("daemon-starting"@, Deed::NextCommand) },
        )
    }

    /// What a command does.
    pub open spec fn commanded(
        self,
        notice: Option<Notice>,
        rules: WatchRules,
        now: Instant,
    ) -> (Watch, Outcome) {
        match notice {
            None => if self.connected {
                self.proceeding(rules, now)
            } else {
                (Watch { phase: WatchPhase::Probing, ..self }, silent(Deed::Probe))
            },
            Some(Notice::Detect) => (
                Watch {
                    detect: true,
                    detection: DetectionSchedule::after_explicit_detect(now),
                    recovery: Recovery { restarts: 0, ..self.recovery },
                    ..self.with_other_tablet(rules)
                },
                silent(Deed::NextCommand),
            ),
            Some(Notice::TabletChanged { generation }) => if generation
                == self.active_generation {
                (
                    Watch {
                        detect: rules.detect_on_change,
                        ..self.with_other_tablet(rules)
                    },
                    silent(Deed::NextCommand),
                )
            } else {
                (self, silent(Deed::NextCommand))
            },
            Some(Notice::DriverDisconnected { generation }) => if generation
                == self.active_generation {
                (
                    self.without_connection(now),
                    Outcome {
                        disconnect: true,
                        ..saying("daemon-starting"@, Deed::NextCommand)
                    },
                )
            } else {
                (self, silent(Deed::NextCommand))
            },
            Some(Notice::ApplyArea(request)) => (
                Watch { queued: Some(request), ..self },
                silent(Deed::NextCommand),
            ),
        }
    }

    /// It is known whether a driver runs.
    pub open spec fn probed(self, running: bool, rules: WatchRules, now: Instant) -> (
        Watch,
        Outcome,
    ) {
        match self.recovery.step_at(running, rules.recovery, now) {
            RecoveryStep::Proceed => (
                Watch { phase: WatchPhase::Looking, ..self },
                silent(Deed::Look),
            ),
            RecoveryStep::GiveUp => (
                Watch { phase: WatchPhase::Pausing, ..self },
                saying("daemon-crashed"@, pause(START_RETRY_MILLIS)),
            ),
            RecoveryStep::Pause(left) => (
                Watch { phase: WatchPhase::Pausing, ..self },
                silent(Deed::Wait(Some(left))),
            ),
            RecoveryStep::Start => (
                Watch {
                    phase: WatchPhase::Starting,
                    recovery: Recovery { last_start_attempt: Some(now), ..self.recovery },
                    ..self
                },
                silent(Deed::StartDaemon),
            ),
        }
    }

    /// The start of a driver was tried.
    pub open spec fn started(
        self,
        outcome: StartOutcome,
        rules: WatchRules,
        now: Instant,
    ) -> (Watch, Outcome) {
        let failed = outcome is Missing || outcome is Failed;
        (
            Watch {
                phase: if failed {
                    WatchPhase::Pausing
                } else {
                    WatchPhase::Looking
                },
                recovery: self.recovery.after_start(outcome, rules.recovery, now),
                ..self
            },
            Outcome {
                state: Recovery::state_after(outcome, rules.recovery),
                ..silent(
                    if failed {
                        pause(START_RETRY_MILLIS)
                    } else {
                        Deed::Look
                    },
                )
            },
        )
    }

    /// It is known whose the driver is, and whether it can be reached.
    pub open spec fn looked(self, owned: bool, ipc: bool, now: Instant) -> (Watch, Outcome) {
        if self.recovery.is_overdue(owned, ipc, now) {
            (Watch { phase: WatchPhase::Stopping, ..self }, silent(Deed::StopDaemon))
        } else {
            (
                Watch { phase: WatchPhase::Connecting, ..self },
                silent(Deed::Connect(self.next_generation)),
            )
        }
    }

    /// There is a new connection.
    pub open spec fn newly_connected(self, rules: WatchRules, now: Instant) -> Watch {
        Watch {
            connected: true,
            active_generation: self.next_generation,
            next_generation: (self.next_generation + 1) as u64,
            refresh: true,
            detect: self.detect && !rules.forget_detection_on_connect,
            memory: Memory { driver_settings: None, ..self.memory },
            recovery: Recovery { startup_wait_started: None, ..self.recovery },
            detection: DetectionSchedule { attempts: 0, next: Some(now) },
            ..self
        }
    }

    /// With a connection: the query first, where one is wanted.
    pub open spec fn proceeding(self, rules: WatchRules, now: Instant) -> (Watch, Outcome) {
        if self.detect || self.refresh {
            (
                Watch { phase: WatchPhase::Querying, detect: false, refresh: false, ..self },
                silent(Deed::Query(self.detect)),
            )
        } else {
            self.applying_next(rules, now)
        }
    }

    /// Then the area to apply, where there is one.
    pub open spec fn applying_next(self, rules: WatchRules, now: Instant) -> (Watch, Outcome) {
        match self.queued {
            Some(request) => if self.memory.driver_settings is None {
                (
                    Watch { phase: WatchPhase::ReadingSettings, ..self },
                    silent(Deed::ReadSettings),
                )
            } else {
                (
                    Watch {
                        phase: WatchPhase::Applying,
                        queued: None,
                        applying: Some(request),
                        ..self
                    },
                    silent(Deed::Apply(request)),
                )
            },
            None => self.resting(rules, now),
        }
    }

    /// Then a pause.
    pub open spec fn resting(self, rules: WatchRules, now: Instant) -> (Watch, Outcome) {
        (
            Watch { phase: WatchPhase::Resting, ..self },
            silent(
                if self.no_tablet {
                    Deed::Wait(
                        Some(Duration { nanos: self.detection.wait_nanos(now) as u128 }),
                    )
                } else if rules.poll_with_tablet {
                    pause(TABLET_POLL_MILLIS)
                } else {
                    Deed::Wait(None)
                },
            ),
        )
    }

    /// The tablet was queried.
    pub open spec fn queried(self, snapshot: Snapshot, now: Instant) -> Watch {
        let no_tablet = snapshot.state == "no-tablet"@;
        Watch {
            no_tablet,
            detection: if no_tablet {
                self.detection.after_no_tablet(now)
            } else {
                DetectionSchedule { attempts: 0, next: None }
            },
            recovery: Recovery { restarts: 0, ..self.recovery },
            ..self
        }
    }

    /// The pause ended with its time: the tablet is queried again, with a detection where one
    /// is due.
    pub open spec fn rested(self, now: Instant) -> Watch {
        Watch {
            phase: WatchPhase::Commands,
            refresh: true,
            detect: self.detect || (self.no_tablet && self.detection.is_due(now)),
            detection: if self.no_tablet {
                self.detection.after_take_due(now)
            } else {
                self.detection
            },
            ..self
        }
    }

    /// The settings for an area could not be read. The area waits on.
    pub open spec fn unread(self) -> (Watch, Outcome) {
        (
            Watch {
                phase: WatchPhase::Commands,
                connected: false,
                refresh: true,
                ..self
            },
            Outcome { disconnect: true, ..saying("daemon-starting"@, Deed::NextCommand) },
        )
    }

    /// The step after an event.
    pub open spec fn after(self, event: Occurrence, rules: WatchRules, now: Instant) -> (
        Watch,
        Outcome,
    ) {
        match (self.phase, event) {
            (WatchPhase::Commands, Occurrence::Command(notice)) => self.commanded(
                notice,
                rules,
                now,
            ),
            (WatchPhase::Probing, Occurrence::Running(running)) => self.probed(
                running,
                rules,
                now,
            ),
            (WatchPhase::Starting, Occurrence::Started(outcome)) => self.started(
                outcome,
                rules,
                now,
            ),
            (WatchPhase::Looking, Occurrence::Looked { owned, ipc }) => self.looked(
                owned,
                ipc,
                now,
            ),
            (WatchPhase::Stopping, Occurrence::DaemonStopped) => (
                Watch {
                    phase: WatchPhase::Commands,
                    recovery: Recovery { startup_wait_started: None, ..self.recovery },
                    ..self
                },
                saying("daemon-crashed"@, Deed::NextCommand),
            ),
            (WatchPhase::Connecting, Occurrence::Connected(true)) => {
                let (next, step) = self.newly_connected(rules, now).proceeding(rules, now);
                (next, Outcome { state: Some("daemon-starting"@), ..step })
            },
            (WatchPhase::Connecting, Occurrence::Connected(false)) => (
                Watch { phase: WatchPhase::Pausing, ..self },
                saying("daemon-starting"@, pause(BACKEND_RECONNECT_MILLIS)),
            ),
            (WatchPhase::Querying, Occurrence::Queried(Some(snapshot))) => {
                let (next, step) = self.queried(snapshot, now).applying_next(rules, now);
                (next, Outcome { publish: Some(News::Snapshot(snapshot)), ..step })
            },
            (WatchPhase::Querying, Occurrence::Queried(None)) => self.lost(now),
            (WatchPhase::ReadingSettings, Occurrence::SettingsRead(Some(settings))) => (
                Watch {
                    phase: WatchPhase::Applying,
                    queued: None,
                    applying: self.queued,
                    memory: Memory { driver_settings: Some(settings), ..self.memory },
                    ..self
                },
                silent(Deed::Apply(self.queued->0)),
            ),
            (WatchPhase::ReadingSettings, Occurrence::SettingsRead(None)) => self.unread(),
            (WatchPhase::Applying, Occurrence::Applied(Some(settings))) => {
                let (next, step) = Watch {
                    applying: None,
                    memory: Memory { driver_settings: Some(settings), ..self.memory },
                    ..self
                }.resting(rules, now);
                (next, Outcome { publish: Some(News::Applied(self.applying->0)), ..step })
            },
            (WatchPhase::Applying, Occurrence::Applied(None)) => Watch {
                applying: None,
                ..self
            }.lost(now),
            (WatchPhase::Pausing, Occurrence::Waited(_)) => (
                Watch { phase: WatchPhase::Commands, ..self },
                silent(Deed::NextCommand),
            ),
            (WatchPhase::Resting, Occurrence::Waited(WaitOutcome::Message)) => (
                Watch { phase: WatchPhase::Commands, ..self },
                silent(Deed::NextCommand),
            ),
            (WatchPhase::Resting, Occurrence::Waited(WaitOutcome::Timeout)) => (
                self.rested(now),
                silent(Deed::NextCommand),
            ),
            (WatchPhase::Resting, Occurrence::Waited(WaitOutcome::Closed)) => (
                Watch { phase: WatchPhase::Stopped, ..self },
                silent(Deed::Stop),
            ),
            _ => (self, silent(Deed::Stop)),
        }
    }

    /// What holds of the watcher at all times.
    pub open spec fn sound(self) -> bool {
        &&& self.active_generation < self.next_generation
        &&& self.detection.attempts <= 6
        &&& match self.phase {
            WatchPhase::Commands => true,
            WatchPhase::Querying => self.connected,
            WatchPhase::ReadingSettings => self.connected && self.queued is Some
                && self.memory.driver_settings is None,
            WatchPhase::Applying => self.connected && self.applying is Some,
            WatchPhase::Resting => self.connected,
            WatchPhase::Stopped => true,
            _ => !self.connected,
        }
    }
}

// ---- the watcher ----

fn silently(action: WatchAction) -> (step: WatchStep)
    ensures
        step@ == silent(action@),
{
    WatchStep { disconnect: false, state: None, publish: None, action }
}

fn say(state: &'static str, action: WatchAction) -> (step: WatchStep)
    ensures
        step@ == saying(state@, action@),
{
    WatchStep { disconnect: false, state: Some(state), publish: None, action }
}

fn wait_millis(millis: u64) -> (action: WatchAction)
    ensures
        action@ == pause(millis),
{
    WatchAction::Wait(Some(Duration::from_millis(millis)))
}

impl Watcher {
    /// Before anything happened.
    pub fn new(rules: WatchRules, now: Instant) -> (watcher: Watcher)
        ensures
            watcher@ == Watch::initial(rules, now),
            watcher@.sound(),
    {
        Watcher {
            phase: WatchPhase::Commands,
            connected: false,
            queued_apply: None,
            applying: None,
            refresh_requested: true,
            detect_requested: false,
            no_tablet: false,
            memory: QueryMemory { driver_settings: None, mapping_attempted: !rules.auto_map },
            active_generation: 0,
            next_generation: 1,
            recovery: Recovery::new(now),
            detection: DetectionSchedule::new(now),
        }
    }

    fn forget_tablet(&mut self, rules: WatchRules)
        ensures
            final(self)@ == old(self)@.with_other_tablet(rules),
    {
        self.memory.driver_settings = None;
        self.memory.mapping_attempted = !rules.auto_map;
        self.refresh_requested = true;
    }

    fn drop_connection(&mut self, now: Instant)
        ensures
            final(self)@ == old(self)@.without_connection(now),
    {
        self.connected = false;
        self.refresh_requested = true;
        self.memory.driver_settings = None;
        self.recovery.connection_lost(now);
    }

    fn give_up(&mut self, now: Instant) -> (step: WatchStep)
        ensures
            (final(self)@, step@) == old(self)@.lost(now),
    {
        self.drop_connection(now);
        self.phase = WatchPhase::Commands;
        let mut step = say("daemon-starting", WatchAction::NextCommand);
        step.disconnect = true;
        step
    }

    fn on_command(&mut self, command: Option<WatchCommand>, rules: WatchRules, now: Instant) -> (
        step: WatchStep)
        requires
            now.can_add(20_000),
        ensures
            ({
                let notice = match command {
                    Some(c) => Some(c@),
                    None => None,
                };
                (final(self)@, step@) == old(self)@.commanded(notice, rules, now)
            }),
    {
        let command = match command {
            Some(command) => command,
            None => {
                if self.connected {
                    return self.proceed(rules, now);
                }
                self.phase = WatchPhase::Probing;
                return silently(WatchAction::Probe);
            },
        };
        match command {
            WatchCommand::Detect => {
                self.forget_tablet(rules);
                self.detect_requested = true;
                self.recovery.forgive();
                self.detection.reset_after_explicit_detect(now);
            },
            WatchCommand::TabletChanged { generation } => {
                if generation == self.active_generation {
                    self.forget_tablet(rules);
                    self.detect_requested = rules.detect_on_change;
                }
            },
            WatchCommand::DriverDisconnected { generation } => {
                if generation == self.active_generation {
                    self.drop_connection(now);
                    let mut step = say("daemon-starting", WatchAction::NextCommand);
                    step.disconnect = true;
                    return step;
                }
            },
            WatchCommand::ApplyArea(request) => {
                self.queued_apply = Some(request);
            },
        }
        silently(WatchAction::NextCommand)
    }

    fn on_running(&mut self, running: bool, rules: WatchRules, now: Instant) -> (step: WatchStep)
        ensures
            (final(self)@, step@) == old(self)@.probed(running, rules, now),
    {
        match self.recovery.step(running, rules.recovery, now) {
            RecoveryStep::Proceed => {
                self.phase = WatchPhase::Looking;
                silently(WatchAction::Look)
            },
            RecoveryStep::GiveUp => {
                self.phase = WatchPhase::Pausing;
                say("daemon-crashed", wait_millis(START_RETRY_MILLIS))
            },
            RecoveryStep::Pause(left) => {
                self.phase = WatchPhase::Pausing;
                silently(WatchAction::Wait(Some(left)))
            },
            RecoveryStep::Start => {
                self.phase = WatchPhase::Starting;
                silently(WatchAction::StartDaemon)
            },
        }
    }

    fn on_started(&mut self, outcome: StartOutcome, rules: WatchRules, now: Instant) -> (
        step: WatchStep)
        requires
            old(self).recovery.restarts < usize::MAX,
        ensures
            (final(self)@, step@) == old(self)@.started(outcome, rules, now),
    {
        let state = self.recovery.started(outcome, rules.recovery, now);
        let action = match outcome {
            StartOutcome::Missing | StartOutcome::Failed => {
                self.phase = WatchPhase::Pausing;
                wait_millis(START_RETRY_MILLIS)
            },
            _ => {
                self.phase = WatchPhase::Looking;
                WatchAction::Look
            },
        };
        let mut step = silently(action);
        step.state = state;
        step
    }

    fn on_looked(&mut self, owned: bool, ipc: bool, now: Instant) -> (step: WatchStep)
        ensures
            (final(self)@, step@) == old(self)@.looked(owned, ipc, now),
    {
        if self.recovery.overdue(owned, ipc, now) {
            self.phase = WatchPhase::Stopping;
            silently(WatchAction::StopDaemon)
        } else {
            self.phase = WatchPhase::Connecting;
            silently(WatchAction::Connect(self.next_generation))
        }
    }

    fn on_connected(&mut self, rules: WatchRules, now: Instant) -> (step: WatchStep)
        requires
            old(self).next_generation < u64::MAX,
        ensures
            ({
                let (next, output) = old(self)@.newly_connected(rules, now).proceeding(rules, now);
                (final(self)@, step@) == (
                    next,
                    (Outcome { state: Some("daemon-starting"@), ..output }),
                )
            }),
    {
        self.connected = true;
        self.active_generation = self.next_generation;
        self.next_generation = self.next_generation + 1;
        self.refresh_requested = true;
        if rules.forget_detection_on_connect {
            self.detect_requested = false;
        }
        self.memory.driver_settings = None;
        self.recovery.startup_over();
        self.detection = DetectionSchedule::new(now);
        let mut step = self.proceed(rules, now);
        step.state = Some("daemon-starting");
        step
    }

    fn proceed(&mut self, rules: WatchRules, now: Instant) -> (step: WatchStep)
        ensures
            (final(self)@, step@) == old(self)@.proceeding(rules, now),
    {
        if self.detect_requested || self.refresh_requested {
            let detect = self.detect_requested;
            self.detect_requested = false;
            self.refresh_requested = false;
            self.phase = WatchPhase::Querying;
            return silently(WatchAction::Query(detect));
        }
        self.apply(rules, now)
    }

    fn apply(&mut self, rules: WatchRules, now: Instant) -> (step: WatchStep)
        ensures
            (final(self)@, step@) == old(self)@.applying_next(rules, now),
    {
        if self.queued_apply.is_none() {
            return self.rest(rules, now);
        }
        if self.memory.driver_settings.is_none() {
            self.phase = WatchPhase::ReadingSettings;
            return silently(WatchAction::ReadSettings);
        }
        match self.queued_apply.take() {
            Some(request) => {
                self.phase = WatchPhase::Applying;
                self.applying = Some(request.clone());
                silently(WatchAction::Apply(request))
            },
            None => self.rest(rules, now),
        }
    }

    fn rest(&mut self, rules: WatchRules, now: Instant) -> (step: WatchStep)
        ensures
            (final(self)@, step@) == old(self)@.resting(rules, now),
    {
        self.phase = WatchPhase::Resting;
        if self.no_tablet {
            silently(WatchAction::Wait(Some(self.detection.wait_duration(now))))
        } else if rules.poll_with_tablet {
            silently(wait_millis(TABLET_POLL_MILLIS))
        } else {
            silently(WatchAction::Wait(None))
        }
    }

    fn on_snapshot(&mut self, snapshot: BackendSnapshot, rules: WatchRules, now: Instant) -> (
        step: WatchStep)
        requires
            now.can_add(20_000),
            old(self).detection.attempts <= 6,
        ensures
            ({
                let (next, output) = old(self)@.queried(snapshot@, now).applying_next(rules, now);
                (final(self)@, step@) == (
                    next,
                    (Outcome { publish: Some(News::Snapshot(snapshot@)), ..output }),
                )
            }),
    {
        self.no_tablet = text::same_text(snapshot.state, "no-tablet");
        if self.no_tablet {
            self.detection.no_tablet(now);
        } else {
            self.detection.tablet_found();
        }
        self.recovery.forgive();
        let mut step = self.apply(rules, now);
        step.publish = Some(Publication::Snapshot(snapshot));
        step
    }

    fn on_settings(&mut self, settings: Option<Json>, rules: WatchRules) -> (step: WatchStep)
        requires
            old(self)@.phase is ReadingSettings,
            old(self)@.sound(),
        ensures
            forall|now: Instant|
                (final(self)@, step@) == #[trigger] old(self)@.after(
                    Occurrence::SettingsRead(query::optional_tree(settings)),
                    rules,
                    now,
                ),
    {
        match settings {
            Some(settings) => {
                self.memory.driver_settings = Some(settings);
                self.phase = WatchPhase::Applying;
                match self.queued_apply.take() {
                    Some(request) => {
                        self.applying = Some(request.clone());
                        silently(WatchAction::Apply(request))
                    },
                    None => silently(WatchAction::Stop),
                }
            },
            None => {
                self.connected = false;
                self.refresh_requested = true;
                self.phase = WatchPhase::Commands;
                let mut step = say("daemon-starting", WatchAction::NextCommand);
                step.disconnect = true;
                step
            },
        }
    }

    fn on_applied(&mut self, settings: Option<Json>, rules: WatchRules, now: Instant) -> (
        step: WatchStep)
        requires
            old(self)@.phase is Applying,
            old(self)@.sound(),
        ensures
            (final(self)@, step@) == old(self)@.after(
                Occurrence::Applied(query::optional_tree(settings)),
                rules,
                now,
            ),
    {
        let area = self.applying.take();
        match settings {
            Some(settings) => {
                self.memory.driver_settings = Some(settings);
                let mut step = self.rest(rules, now);
                step.publish = match area {
                    Some(area) => Some(Publication::Applied(area)),
                    None => None,
                };
                step
            },
            None => self.give_up(now),
        }
    }

    fn on_rest(&mut self, now: Instant)
        ensures
            final(self)@ == old(self)@.rested(now),
    {
        self.refresh_requested = true;
        if self.no_tablet && self.detection.take_due(now) {
            self.detect_requested = true;
        }
        self.phase = WatchPhase::Commands;
    }

    /// Takes what happened, and says what to do next.
    pub fn step(&mut self, event: WatchEvent, rules: WatchRules, now: Instant) -> (step: WatchStep)
        requires
            old(self)@.sound(),
            awaits(old(self)@.phase, event@),
            now.can_add(20_000),
            old(self).next_generation < u64::MAX,
            old(self).recovery.restarts < usize::MAX,
        ensures
            (final(self)@, step@) == old(self)@.after(event@, rules, now),
            final(self)@.sound(),
    {
        proof {
            driver_is_used_in_order(self@, event@, rules, now);
        }
        match (self.phase, event) {
            (WatchPhase::Commands, WatchEvent::Command(command)) => {
                self.on_command(command, rules, now)
            },
            (WatchPhase::Probing, WatchEvent::Running(running)) => {
                self.on_running(running, rules, now)
            },
            (WatchPhase::Starting, WatchEvent::Started(outcome)) => {
                self.on_started(outcome, rules, now)
            },
            (WatchPhase::Looking, WatchEvent::Looked { owned, ipc }) => {
                self.on_looked(owned, ipc, now)
            },
            (WatchPhase::Stopping, WatchEvent::DaemonStopped) => {
                self.recovery.startup_over();
                self.phase = WatchPhase::Commands;
                say("daemon-crashed", WatchAction::NextCommand)
            },
            (WatchPhase::Connecting, WatchEvent::Connected(connected)) => {
                if connected {
                    return self.on_connected(rules, now);
                }
                self.phase = WatchPhase::Pausing;
                say("daemon-starting", wait_millis(BACKEND_RECONNECT_MILLIS))
            },
            (WatchPhase::Querying, WatchEvent::Queried(Some(snapshot))) => {
                self.on_snapshot(snapshot, rules, now)
            },
            (WatchPhase::Querying, WatchEvent::Queried(None)) => self.give_up(now),
            (WatchPhase::ReadingSettings, WatchEvent::SettingsRead(settings)) => {
                self.on_settings(settings, rules)
            },
            (WatchPhase::Applying, WatchEvent::Applied(settings)) => {
                self.on_applied(settings, rules, now)
            },
            (WatchPhase::Pausing, WatchEvent::Waited(_)) => {
                self.phase = WatchPhase::Commands;
                silently(WatchAction::NextCommand)
            },
            (WatchPhase::Resting, WatchEvent::Waited(outcome)) => match outcome {
                WaitOutcome::Message => {
                    self.phase = WatchPhase::Commands;
                    silently(WatchAction::NextCommand)
                },
                WaitOutcome::Timeout => {
                    self.on_rest(now);
                    silently(WatchAction::NextCommand)
                },
                WaitOutcome::Closed => {
                    self.phase = WatchPhase::Stopped;
                    silently(WatchAction::Stop)
                },
            },
            _ => silently(WatchAction::Stop),
        }
    }
}

// ---- laws ----

/// What an earlier connection still reports changes nothing.
pub proof fn old_connections_are_ignored(
    watch: Watch,
    generation: u64,
    rules: WatchRules,
    now: Instant,
)
    requires
        watch.phase is Commands,
        generation != watch.active_generation,
    ensures
        watch.after(
            Occurrence::Command(Some(Notice::TabletChanged { generation })),
            rules,
            now,
        ) == (watch, silent(Deed::NextCommand)),
        watch.after(
            Occurrence::Command(Some(Notice::DriverDisconnected { generation })),
            rules,
            now,
        ) == (watch, silent(Deed::NextCommand)),
{
}

/// Once the starts in vain are used up, the driver is not started, until the driver answers
/// or the user asks for a detection.
pub proof fn giving_up_lasts(
    watch: Watch,
    event: Occurrence,
    rules: WatchRules,
    now: Instant,
)
    requires
        watch.sound(),
        awaits(watch.phase, event),
        watch.recovery.exhausted(rules.recovery),
        !(watch.phase is Starting),
        !(event matches Occurrence::Command(Some(Notice::Detect))),
        !(event matches Occurrence::Queried(Some(_))),
    ensures
        ({
            let (next, output) = watch.after(event, rules, now);
            &&& !(output.action is StartDaemon)
            &&& !(next.phase is Starting)
            &&& next.recovery.exhausted(rules.recovery)
        }),
{
}

/// An area that waits to be applied is kept through every step, also when the connection is
/// lost or the settings for it cannot be read, until it is applied or a newer one takes its
/// place.
pub proof fn waiting_area_is_kept(
    watch: Watch,
    event: Occurrence,
    rules: WatchRules,
    now: Instant,
)
    requires
        watch.sound(),
        awaits(watch.phase, event),
        watch.queued is Some,
    ensures
        ({
            let (next, output) = watch.after(event, rules, now);
            ||| next.queued == watch.queued
            ||| output.action == Deed::Apply(watch.queued->0)
            ||| event matches Occurrence::Command(Some(Notice::ApplyArea(newer)))
                && next.queued == Some(newer)
        }),
{
}

/// Of two areas that are asked for before one can be applied, the newer one counts.
pub proof fn newer_area_counts(
    watch: Watch,
    first: Request,
    second: Request,
    rules: WatchRules,
    now: Instant,
)
    requires
        watch.phase is Commands,
    ensures
        ({
            let (one, _) = watch.after(
                Occurrence::Command(Some(Notice::ApplyArea(first))),
                rules,
                now,
            );
            let (two, _) = one.after(
                Occurrence::Command(Some(Notice::ApplyArea(second))),
                rules,
                now,
            );
            two == Watch { queued: Some(second), ..watch }
        }),
{
}

/// The user interface is told of an applied area only when the driver took it, and of the
/// area that was handed to it.
pub proof fn applied_area_is_the_one_sent(
    watch: Watch,
    event: Occurrence,
    rules: WatchRules,
    now: Instant,
)
    requires
        watch.sound(),
        awaits(watch.phase, event),
    ensures
        ({
            let (next, output) = watch.after(event, rules, now);
            &&& output.publish matches Some(News::Applied(area)) ==> event
                is Applied && watch.applying == Some(area)
            &&& output.action matches Deed::Apply(area) ==> next.applying == Some(area)
        }),
{
}

/// The driver is asked for something only over a connection, and is started, stopped or
/// connected to only without one.
pub proof fn driver_is_used_in_order(
    watch: Watch,
    event: Occurrence,
    rules: WatchRules,
    now: Instant,
)
    requires
        watch.sound(),
        awaits(watch.phase, event),
        watch.next_generation < u64::MAX,
    ensures
        ({
            let (next, output) = watch.after(event, rules, now);
            &&& next.sound()
            &&& output.action is Query || output.action is ReadSettings || output.action is Apply
                ==> next.connected
            &&& output.action is StartDaemon || output.action is StopDaemon
                || output.action is Connect || output.action is Probe || output.action is Look
                ==> !next.connected
            &&& output.disconnect ==> !next.connected
        }),
{
}

// ---- step by step ----

/// A step tells nothing, drops nothing, and goes on with the next command.
pub open spec fn goes_on(output: Outcome) -> bool {
    &&& !output.disconnect
    &&& output.state is None
    &&& output.publish is None
    &&& output.action is NextCommand
}

/// A step waits for so many nanoseconds.
pub open spec fn waits(output: Outcome, nanos: int) -> bool {
    output.action matches Deed::Wait(Some(span)) && span.nanos == nanos
}

/// What only a query, a connection or an area changes is as it was.
pub open spec fn keeps_the_connection(watch: Watch, next: Watch) -> bool {
    &&& next.connected == watch.connected
    &&& next.queued == watch.queued
    &&& next.applying == watch.applying
    &&& next.no_tablet == watch.no_tablet
    &&& next.active_generation == watch.active_generation
    &&& next.next_generation == watch.next_generation
}

/// A wish for a detection is noted: the settings are read again, the tablet may be mapped again,
/// the starts count anew, and the next detection on its own account is due in two seconds. With a
/// connection the driver is then asked to detect.
pub proof fn detections_are_made_on_request(watch: Watch, rules: WatchRules, now: Instant)
    requires
        watch.phase is Commands,
        now.can_add(20_000),
    ensures
        ({
            let (next, output) = watch.after(
                Occurrence::Command(Some(Notice::Detect)),
                rules,
                now,
            );
            let (then, asked) = next.after(Occurrence::Command(None), rules, now);
            &&& goes_on(output)
            &&& next.phase is Commands
            &&& keeps_the_connection(watch, next)
            &&& next.detect
            &&& next.refresh
            &&& next.memory.driver_settings is None
            &&& next.memory.mapping_attempted == !rules.auto_map
            &&& next.recovery.restarts == 0
            &&& next.recovery.last_start_attempt == watch.recovery.last_start_attempt
            &&& next.recovery.startup_wait_started == watch.recovery.startup_wait_started
            &&& next.detection.attempts == 1
            &&& next.detection.next matches Some(due) && due.nanos == now.nanos + 2_000_000_000
            &&& watch.connected ==> asked.action == Deed::Query(true) && then.phase is Querying
                && !then.detect && !then.refresh
        }),
{
}

/// A change of the tablets that the present connection reports has the settings read again and
/// the tablet mapped again, and is looked at by a detection where the platform asks for one.
pub proof fn changes_are_looked_at(watch: Watch, rules: WatchRules, now: Instant)
    requires
        watch.phase is Commands,
    ensures
        ({
            let (next, output) = watch.after(
                Occurrence::Command(
                    Some(Notice::TabletChanged { generation: watch.active_generation }),
                ),
                rules,
                now,
            );
            let (then, asked) = next.after(Occurrence::Command(None), rules, now);
            &&& goes_on(output)
            &&& next.phase is Commands
            &&& keeps_the_connection(watch, next)
            &&& next.refresh
            &&& next.memory.driver_settings is None
            &&& next.memory.mapping_attempted == !rules.auto_map
            &&& next.recovery == watch.recovery
            &&& next.detection == watch.detection
            &&& watch.connected ==> asked.action == Deed::Query(rules.detect_on_change)
        }),
{
}

/// The connection is dropped and told to be starting, the settings are read again, and the
/// driver has its whole time from now on. Areas wait on.
pub open spec fn gives_up_connection(watch: Watch, next: Watch, output: Outcome, now: Instant) -> bool {
    &&& output.disconnect
    &&& output.state == Some("daemon-starting"@)
    &&& output.publish is None
    &&& output.action is NextCommand
    &&& next.phase is Commands
    &&& !next.connected
    &&& next.refresh
    &&& next.detect == watch.detect
    &&& next.no_tablet == watch.no_tablet
    &&& next.queued == watch.queued
    &&& next.memory.driver_settings is None
    &&& next.memory.mapping_attempted == watch.memory.mapping_attempted
    &&& next.recovery.startup_wait_started == Some(now)
    &&& next.recovery.restarts == watch.recovery.restarts
    &&& next.recovery.last_start_attempt == watch.recovery.last_start_attempt
    &&& next.detection == watch.detection
    &&& next.active_generation == watch.active_generation
    &&& next.next_generation == watch.next_generation
}

/// A connection is given up where it reports its own end, and where the driver answers neither a
/// query nor an area.
pub proof fn lost_connections_are_given_up(watch: Watch, rules: WatchRules, now: Instant)
    ensures
        watch.phase is Commands ==> ({
            let (next, output) = watch.after(
                Occurrence::Command(
                    Some(Notice::DriverDisconnected { generation: watch.active_generation }),
                ),
                rules,
                now,
            );
            gives_up_connection(watch, next, output, now) && next.applying == watch.applying
        }),
        watch.phase is Querying ==> ({
            let (next, output) = watch.after(Occurrence::Queried(None), rules, now);
            gives_up_connection(watch, next, output, now) && next.applying == watch.applying
        }),
        watch.phase is Applying ==> ({
            let (next, output) = watch.after(Occurrence::Applied(None), rules, now);
            gives_up_connection(watch, next, output, now) && next.applying is None
        }),
{
}

/// Where the settings for an area cannot be read, the connection is dropped and all else stays.
pub proof fn unread_settings_drop_the_connection(watch: Watch, rules: WatchRules, now: Instant)
    requires
        watch.phase is ReadingSettings,
    ensures
        ({
            let (next, output) = watch.after(Occurrence::SettingsRead(None), rules, now);
            &&& output.disconnect
            &&& output.state == Some("daemon-starting"@)
            &&& output.publish is None
            &&& output.action is NextCommand
            &&& next.phase is Commands
            &&& !next.connected
            &&& next.refresh
            &&& next.queued == watch.queued
            &&& next.applying == watch.applying
            &&& next.detect == watch.detect
            &&& next.no_tablet == watch.no_tablet
            &&& next.memory == watch.memory
            &&& next.recovery == watch.recovery
            &&& next.detection == watch.detection
            &&& next.active_generation == watch.active_generation
            &&& next.next_generation == watch.next_generation
        }),
{
}

/// With a connection and no command left, a query that is wanted comes first, then an area, then
/// a rest. Without a connection it is looked for a driver.
pub proof fn work_is_done_in_order(watch: Watch, rules: WatchRules, now: Instant)
    requires
        watch.phase is Commands,
    ensures
        ({
            let (next, output) = watch.after(Occurrence::Command(None), rules, now);
            &&& !output.disconnect && output.state is None && output.publish is None
            &&& keeps_the_connection(watch, next) || output.action is Apply
            &&& next.memory == watch.memory
            &&& next.recovery == watch.recovery
            &&& next.detection == watch.detection
            &&& !watch.connected ==> output.action is Probe && next.phase is Probing && next.refresh
                == watch.refresh && next.detect == watch.detect
            &&& watch.connected && (watch.detect || watch.refresh) ==> output.action == Deed::Query(
                watch.detect,
            ) && next.phase is Querying && !next.detect && !next.refresh
            &&& watch.connected && !watch.detect && !watch.refresh ==> match watch.queued {
                None => output.action is Wait && next.phase is Resting,
                Some(area) => if watch.memory.driver_settings is Some {
                    output.action == Deed::Apply(area) && next.phase is Applying && next.queued
                        is None && next.applying == Some(area)
                } else {
                    output.action is ReadSettings && next.phase is ReadingSettings
                },
            }
        }),
{
}

/// A new connection is told to be starting, counts as the next one, and begins with a query: one
/// with a detection where that was wished for and is not made void. The settings are read again,
/// the burst of detections begins again at once, and the driver's start is over.
pub proof fn connections_begin_with_a_query(watch: Watch, rules: WatchRules, now: Instant)
    requires
        watch.phase is Connecting,
        watch.next_generation < u64::MAX,
    ensures
        ({
            let (next, output) = watch.after(Occurrence::Connected(true), rules, now);
            &&& !output.disconnect
            &&& output.state == Some("daemon-starting"@)
            &&& output.publish is None
            &&& output.action == Deed::Query(watch.detect && !rules.forget_detection_on_connect)
            &&& next.phase is Querying
            &&& next.connected
            &&& next.active_generation == watch.next_generation
            &&& next.next_generation == watch.next_generation + 1
            &&& !next.detect && !next.refresh
            &&& next.queued == watch.queued
            &&& next.applying == watch.applying
            &&& next.no_tablet == watch.no_tablet
            &&& next.memory.driver_settings is None
            &&& next.memory.mapping_attempted == watch.memory.mapping_attempted
            &&& next.recovery.startup_wait_started is None
            &&& next.recovery.restarts == watch.recovery.restarts
            &&& next.recovery.last_start_attempt == watch.recovery.last_start_attempt
            &&& next.detection.attempts == 0
            &&& next.detection.next == Some(now)
        }),
        ({
            let (next, output) = watch.after(Occurrence::Connected(false), rules, now);
            &&& !output.disconnect
            &&& output.state == Some("daemon-starting"@)
            &&& output.publish is None
            &&& waits(output, 1_200_000_000)
            &&& next == Watch { phase: WatchPhase::Pausing, ..watch }
        }),
{
}

/// What is done once it is known whether a driver runs. A driver that runs is looked at. Without
/// one, the driver is told to have crashed once its starts are used up; else it is started, one
/// and a half seconds after the last start at the earliest.
pub proof fn drivers_are_started_in_time(
    watch: Watch,
    rules: WatchRules,
    now: Instant,
    attempt: Instant,
)
    requires
        watch.phase is Probing,
    ensures
        watch.after(Occurrence::Running(true), rules, now).1.action is Look,
        watch.after(Occurrence::Running(true), rules, now).0 == (Watch {
            phase: WatchPhase::Looking,
            ..watch
        }),
        ({
            let (next, output) = watch.after(Occurrence::Running(false), rules, now);
            let used_up = rules.recovery.restart_limit matches Some(limit)
                && watch.recovery.restarts >= limit;
            &&& !output.disconnect && output.publish is None
            &&& used_up ==> output.state == Some("daemon-crashed"@) && waits(output, 1_500_000_000)
                && next == Watch { phase: WatchPhase::Pausing, ..watch }
            &&& !used_up ==> output.state is None
            &&& !used_up && (watch.recovery.last_start_attempt is None
                || watch.recovery.last_start_attempt == Some(attempt) && now.nanos >= attempt.nanos
                + 1_500_000_000) ==> output.action is StartDaemon && next.phase is Starting
                && next.recovery.last_start_attempt == Some(now) && next.recovery.restarts
                == watch.recovery.restarts && next.recovery.startup_wait_started
                == watch.recovery.startup_wait_started
            &&& !used_up && watch.recovery.last_start_attempt == Some(attempt) && attempt.nanos
                <= now.nanos < attempt.nanos + 1_500_000_000 ==> waits(
                output,
                attempt.nanos + 1_500_000_000 - now.nanos,
            ) && next == Watch { phase: WatchPhase::Pausing, ..watch }
        }),
{
}

/// After a start it is looked at the driver, or a second and a half is waited where there was
/// none to start or it did not start.
pub proof fn starts_are_followed_up(
    watch: Watch,
    outcome: StartOutcome,
    rules: WatchRules,
    now: Instant,
)
    requires
        watch.phase is Starting,
        watch.recovery.restarts < usize::MAX,
    ensures
        ({
            let (next, output) = watch.after(Occurrence::Started(outcome), rules, now);
            let vain = outcome is Missing || outcome is Failed;
            &&& !output.disconnect && output.publish is None
            &&& output.state is None <==> outcome is AlreadyConnected || outcome is AlreadyStarting
            &&& outcome is Started ==> output.state == Some("daemon-starting"@)
                && next.recovery.startup_wait_started == Some(now)
            &&& outcome is Missing ==> output.state == Some("daemon-not-running"@)
            &&& vain ==> waits(output, 1_500_000_000) && next.phase is Pausing
            &&& !vain ==> output.action is Look && next.phase is Looking
            &&& next.recovery == watch.recovery.after_start(outcome, rules.recovery, now)
            &&& keeps_the_connection(watch, next)
            &&& next.detect == watch.detect && next.refresh == watch.refresh
            &&& next.memory == watch.memory && next.detection == watch.detection
        }),
{
}

/// An own driver that cannot be reached three minutes after its start is stopped, and told to have
/// crashed. Any other one is connected to, under the next number.
pub proof fn overdue_drivers_are_stopped(
    watch: Watch,
    owned: bool,
    ipc: bool,
    rules: WatchRules,
    now: Instant,
)
    ensures
        watch.phase is Looking ==> ({
            let (next, output) = watch.after(Occurrence::Looked { owned, ipc }, rules, now);
            let overdue = owned && !ipc && (watch.recovery.startup_wait_started matches Some(started)
                && now.nanos >= started.nanos + 180_000_000_000);
            &&& !output.disconnect && output.state is None && output.publish is None
            &&& overdue ==> output.action is StopDaemon && next == Watch {
                phase: WatchPhase::Stopping,
                ..watch
            }
            &&& !overdue ==> output.action == Deed::Connect(watch.next_generation) && next
                == Watch { phase: WatchPhase::Connecting, ..watch }
        }),
        watch.phase is Stopping ==> ({
            let (next, output) = watch.after(Occurrence::DaemonStopped, rules, now);
            &&& !output.disconnect && output.publish is None
            &&& output.state == Some("daemon-crashed"@)
            &&& output.action is NextCommand
            &&& next.phase is Commands
            &&& next.recovery.startup_wait_started is None
            &&& next.recovery.restarts == watch.recovery.restarts
            &&& next.recovery.last_start_attempt == watch.recovery.last_start_attempt
            &&& keeps_the_connection(watch, next)
            &&& next.detect == watch.detect && next.refresh == watch.refresh
            &&& next.memory == watch.memory && next.detection == watch.detection
        }),
{
}

/// What a query found is told. Where it found no tablet, the next detection is due after the
/// pause of the burst: none, two, four, seven, twelve or twenty seconds by the detections that
/// were made, and fifteen seconds after those. A tablet that was found ends the burst. In both
/// cases the driver has answered, so its starts count anew.
pub proof fn answers_are_told(
    watch: Watch,
    snapshot: Snapshot,
    rules: WatchRules,
    now: Instant,
)
    requires
        watch.phase is Querying,
        now.can_add(20_000),
    ensures
        ({
            let (next, output) = watch.after(Occurrence::Queried(Some(snapshot)), rules, now);
            let made = watch.detection.attempts;
            &&& !output.disconnect && output.state is None
            &&& output.publish == Some(News::Snapshot(snapshot))
            &&& next.connected == watch.connected
            &&& next.no_tablet == (snapshot.state == "no-tablet"@)
            &&& next.recovery.restarts == 0
            &&& next.recovery.last_start_attempt == watch.recovery.last_start_attempt
            &&& next.recovery.startup_wait_started == watch.recovery.startup_wait_started
            &&& next.memory == watch.memory
            &&& next.detect == watch.detect && next.refresh == watch.refresh
            &&& snapshot.state != "no-tablet"@ ==> next.detection.attempts == 0
                && next.detection.next is None
            &&& snapshot.state == "no-tablet"@ ==> next.detection.attempts == made && (
            next.detection.next matches Some(due) && due.nanos == now.nanos + (if made == 0 {
                0int
            } else if made == 1 {
                2_000_000_000
            } else if made == 2 {
                4_000_000_000
            } else if made == 3 {
                7_000_000_000
            } else if made == 4 {
                12_000_000_000
            } else if made == 5 {
                20_000_000_000
            } else {
                15_000_000_000
            }))
            &&& watch.queued is None ==> output.action is Wait && next.phase is Resting
            &&& watch.queued matches Some(area) ==> (watch.memory.driver_settings is Some
                ==> output.action == Deed::Apply(area) && next.applying == Some(area)
                && next.queued is None)
            &&& watch.queued is Some && watch.memory.driver_settings is None ==> output.action
                is ReadSettings && next.queued == watch.queued
        }),
{
}

/// A rest without a tablet ends with the next detection, nine tenths of a second later at the
/// latest. With a tablet it takes nine tenths of a second where the platform asks for that, and
/// else lasts until a command comes.
pub proof fn rests_are_bounded(watch: Watch, rules: WatchRules, now: Instant)
    requires
        watch.phase is Commands,
        watch.connected,
        !watch.detect,
        !watch.refresh,
        watch.queued is None,
    ensures
        ({
            let (next, output) = watch.after(Occurrence::Command(None), rules, now);
            &&& next == Watch { phase: WatchPhase::Resting, ..watch }
            &&& !watch.no_tablet && !rules.poll_with_tablet ==> output.action == Deed::Wait(None)
            &&& !watch.no_tablet && rules.poll_with_tablet ==> waits(output, 900_000_000)
            &&& watch.no_tablet ==> match watch.detection.next {
                None => waits(output, 900_000_000),
                Some(due) => if due.nanos <= now.nanos {
                    waits(output, 0)
                } else if due.nanos <= now.nanos + 900_000_000 {
                    waits(output, due.nanos - now.nanos)
                } else {
                    waits(output, 900_000_000)
                },
            }
        }),
{
}

/// A rest that ends with its time is followed by a query. While no tablet is there and a
/// detection is due, it is taken: it is one more of the burst, nothing is due any more, and the
/// query is one with a detection.
pub proof fn due_detections_are_made(watch: Watch, rules: WatchRules, now: Instant)
    requires
        watch.phase is Resting,
        watch.connected,
    ensures
        ({
            let (next, output) = watch.after(
                Occurrence::Waited(WaitOutcome::Timeout),
                rules,
                now,
            );
            let (then, asked) = next.after(Occurrence::Command(None), rules, now);
            let due = watch.no_tablet && (watch.detection.next matches Some(deadline)
                && deadline.nanos <= now.nanos);
            &&& goes_on(output)
            &&& next.phase is Commands
            &&& keeps_the_connection(watch, next)
            &&& next.refresh
            &&& next.memory == watch.memory
            &&& next.recovery == watch.recovery
            &&& next.detect == (watch.detect || due)
            &&& due ==> next.detection.next is None && (watch.detection.attempts < 6
                ==> next.detection.attempts == watch.detection.attempts + 1) && (
            watch.detection.attempts >= 6 ==> next.detection.attempts == 6)
            &&& !due ==> next.detection == watch.detection
            &&& asked.action == Deed::Query(watch.detect || due)
        }),
{
}

/// A command ends a wait and changes nothing; the end of all commands ends the watcher. A pause
/// without a connection goes on to the commands however it ends.
pub proof fn waits_end(watch: Watch, how: WaitOutcome, rules: WatchRules, now: Instant)
    ensures
        watch.phase is Pausing ==> goes_on(watch.after(Occurrence::Waited(how), rules, now).1)
            && watch.after(Occurrence::Waited(how), rules, now).0 == (Watch {
            phase: WatchPhase::Commands,
            ..watch
        }),
        watch.phase is Resting ==> goes_on(
            watch.after(Occurrence::Waited(WaitOutcome::Message), rules, now).1,
        ) && watch.after(Occurrence::Waited(WaitOutcome::Message), rules, now).0 == (Watch {
            phase: WatchPhase::Commands,
            ..watch
        }),
        watch.phase is Resting ==> watch.after(
            Occurrence::Waited(WaitOutcome::Closed),
            rules,
            now,
        ).1.action is Stop && watch.after(
            Occurrence::Waited(WaitOutcome::Closed),
            rules,
            now,
        ).0.phase is Stopped,
{
}

/// An area is applied once the settings for it were read, and they are remembered. One that was
/// applied is told, and the settings that were read back are remembered.
pub proof fn areas_are_applied_and_told(
    watch: Watch,
    settings: Tree,
    rules: WatchRules,
    now: Instant,
)
    requires
        watch.sound(),
    ensures
        watch.phase is ReadingSettings ==> ({
            let (next, output) = watch.after(
                Occurrence::SettingsRead(Some(settings)),
                rules,
                now,
            );
            &&& !output.disconnect && output.state is None && output.publish is None
            &&& output.action == Deed::Apply(watch.queued->0)
            &&& next.phase is Applying
            &&& next.applying == watch.queued
            &&& next.queued is None
            &&& next.memory.driver_settings == Some(settings)
            &&& next.memory.mapping_attempted == watch.memory.mapping_attempted
            &&& next.connected && next.recovery == watch.recovery
            &&& next.detection == watch.detection
        }),
        watch.phase is Applying ==> ({
            let (next, output) = watch.after(Occurrence::Applied(Some(settings)), rules, now);
            &&& !output.disconnect && output.state is None
            &&& output.publish == Some(News::Applied(watch.applying->0))
            &&& output.action is Wait
            &&& next.phase is Resting
            &&& next.applying is None
            &&& next.queued == watch.queued
            &&& next.memory.driver_settings == Some(settings)
            &&& next.memory.mapping_attempted == watch.memory.mapping_attempted
            &&& next.connected && next.recovery == watch.recovery
            &&& next.detection == watch.detection
            &&& next.no_tablet == watch.no_tablet
        }),
{
}

/// The watcher begins without a connection and with a query to make, under the number one, and
/// whatever runs has its whole time.
pub proof fn watchers_begin_without_a_connection(rules: WatchRules, now: Instant)
    ensures
        ({
            let watch = Watch::initial(rules, now);
            &&& watch.phase is Commands
            &&& !watch.connected
            &&& watch.refresh
            &&& !watch.detect
            &&& !watch.no_tablet
            &&& watch.queued is None
            &&& watch.applying is None
            &&& watch.memory.driver_settings is None
            &&& watch.memory.mapping_attempted == !rules.auto_map
            &&& watch.next_generation == 1
            &&& watch.active_generation == 0
            &&& watch.recovery.last_start_attempt is None
            &&& watch.recovery.startup_wait_started == Some(now)
            &&& watch.recovery.restarts == 0
            &&& watch.detection.attempts == 0
            &&& watch.detection.next == Some(now)
        }),
{
}

/// What is said of a watcher follows its fields, each for its own.
pub proof fn watchers_are_what_their_fields_say(watcher: Watcher)
    ensures
        watcher@.phase == watcher.phase,
        watcher@.connected == watcher.connected,
        watcher@.queued is Some <==> watcher.queued_apply is Some,
        watcher.queued_apply matches Some(area) ==> watcher@.queued == Some(area@),
        watcher@.applying is Some <==> watcher.applying is Some,
        watcher.applying matches Some(area) ==> watcher@.applying == Some(area@),
        watcher@.refresh == watcher.refresh_requested,
        watcher@.detect == watcher.detect_requested,
        watcher@.no_tablet == watcher.no_tablet,
        watcher@.memory == watcher.memory@,
        watcher@.active_generation == watcher.active_generation,
        watcher@.next_generation == watcher.next_generation,
        watcher@.recovery == watcher.recovery,
        watcher@.detection == watcher.detection,
{
}

/// What is said of a step follows its fields, each for its own.
pub proof fn steps_are_what_their_fields_say(step: WatchStep)
    ensures
        step@.disconnect == step.disconnect,
        step@.state is Some <==> step.state is Some,
        step.state matches Some(name) ==> step@.state == Some(name@),
        step@.publish is Some <==> step.publish is Some,
        step.publish matches Some(Publication::Snapshot(shown)) ==> step@.publish == Some(
            News::Snapshot(shown@),
        ),
        step.publish matches Some(Publication::Applied(area)) ==> step@.publish == Some(
            News::Applied(area@),
        ),
        step@.action == step.action@,
        step.action is NextCommand <==> step.action@ is NextCommand,
        step.action is Probe <==> step.action@ is Probe,
        step.action is StartDaemon <==> step.action@ is StartDaemon,
        step.action is Look <==> step.action@ is Look,
        step.action is StopDaemon <==> step.action@ is StopDaemon,
        step.action is ReadSettings <==> step.action@ is ReadSettings,
        step.action is Stop <==> step.action@ is Stop,
        step.action matches WatchAction::Connect(number) ==> step.action@ == Deed::Connect(number),
        step.action matches WatchAction::Query(detect) ==> step.action@ == Deed::Query(detect),
        step.action matches WatchAction::Apply(area) ==> step.action@ == Deed::Apply(area@),
        step.action matches WatchAction::Wait(span) ==> step.action@ == Deed::Wait(span),
{
}

} // verus!
