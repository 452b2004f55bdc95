//! The supervisor: what the backend does, in which order, and what it tells the user
//! interface.
//!
//! The supervisor says what to do next, and is told how it went. It never does anything
//! itself.

use crate::json::{Json, Tree};
use crate::models::{AreaRequest, BackendCommand, BackendSnapshot, Request, Snapshot};
use crate::query;
use crate::query::{Memory, QueryMemory, QueryRules};
use crate::state::{
    BACKEND_RECONNECT_MILLIS, ConnectionAction, DaemonLifecycle, DetectionSchedule,
    TABLET_POLL_MILLIS,
};
use crate::text;
use crate::time;
use crate::time::{Duration, Instant};
use vstd::prelude::*;

verus! {

/// What the platform asks of the supervisor.
#[derive(Clone, Copy, Debug, PartialEq, Eq, Structural)]
pub struct SupervisorRules {
    pub query: QueryRules,
    /// How long the driver's pipeline may go without being rebuilt.
    pub rebuild_interval: Duration,
}

/// What the supervisor waits for.
#[derive(Clone, Copy, Debug, PartialEq, Eq, Structural)]
pub enum Phase {
    /// The next command that is there already.
    Commands,
    /// The start of the driver that the user asked for.
    ManualStart { at: Instant },
    /// Whether the driver can be reached, and whether an own one runs.
    Probing,
    /// The start of the driver.
    OwnedStart { at: Instant },
    /// The end of a driver that could not be reached.
    Stopping,
    /// A connection.
    Connecting,
    /// What is known of the tablet.
    Querying { detect: bool },
    /// The driver's settings, for an area to apply.
    ReadingSettings,
    /// The application of an area.
    Applying,
    /// The end of a pause without a connection.
    Reconnecting,
    /// The end of a pause with one.
    Idle,
    /// Nothing more.
    Stopped,
}

/// How a pause ended.
#[derive(Clone, Copy, Debug, PartialEq, Eq, Structural)]
pub enum WaitOutcome {
    /// With a command.
    Message,
    /// With its time.
    Timeout,
    /// No command can come any more.
    Closed,
}

/// How what was asked for went.
#[derive(Debug)]
pub enum SupervisorEvent {
    /// The next command, or that there is none now.
    Command(Option<BackendCommand>),
    /// Whether the driver was started.
    DaemonStarted(bool),
    /// Whether the driver can be reached, and whether an own one runs.
    Probed { ipc: bool, owned: bool },
    /// The own driver was stopped.
    DaemonStopped,
    /// Whether there is a connection.
    Connected(bool),
    /// What is known of the tablet, where the driver answered.
    Queried(Option<BackendSnapshot>),
    /// The driver's settings, where the driver answered.
    SettingsRead(Option<Json>),
    /// The area that the driver has now, with its settings, where it confirmed them.
    Applied(Option<(AreaRequest, Json)>),
    /// The pause is over.
    Waited(WaitOutcome),
}

/// What to do next.
#[derive(Debug)]
pub enum SupervisorAction {
    NextCommand,
    StartDaemon,
    Probe,
    StopDaemon,
    /// Connect, under this generation.
    Connect(u64),
    /// Query the tablet, with a detection or without.
    Query(bool),
    ReadSettings,
    Apply(AreaRequest),
    /// Wait for a command, no longer than this.
    Wait(Duration),
    Stop,
}

/// What to tell the user interface.
#[derive(Debug)]
pub enum Publication {
    Snapshot(BackendSnapshot),
    Applied(AreaRequest),
}

/// One step of the supervisor.
#[derive(Debug)]
pub struct SupervisorStep {
    /// Drop the connection first.
    pub disconnect: bool,
    /// Then tell the user interface this state of the connection.
    pub state: Option<&'static str>,
    /// Then tell it this.
    pub publish: Option<Publication>,
    /// And then do this.
    pub action: SupervisorAction,
}

// ---- models ----

/// What to do next.
pub enum Doing {
    NextCommand,
    StartDaemon,
    Probe,
    StopDaemon,
    Connect(u64),
    Query(bool),
    ReadSettings,
    Apply(Request),
    Wait(Duration),
    Stop,
}

/// What to tell the user interface.
pub enum News {
    Snapshot(Snapshot),
    Applied(Request),
}

/// One step of the supervisor.
pub struct Output {
    pub disconnect: bool,
    pub state: Option<Seq<char>>,
    pub publish: Option<News>,
    pub action: Doing,
}

/// A command.
pub enum Order {
    Detect,
    StartDaemon,
    Shutdown,
    TabletChanged { generation: u64 },
    DriverDisconnected { generation: u64 },
    ApplyArea(Request),
    RefreshSettings,
}

/// How what was asked for went.
pub enum Happening {
    Command(Option<Order>),
    DaemonStarted(bool),
    Probed { ipc: bool, owned: bool },
    DaemonStopped,
    Connected(bool),
    Queried(Option<Snapshot>),
    SettingsRead(Option<Tree>),
    Applied(Option<(Request, Tree)>),
    Waited(WaitOutcome),
}

/// What the supervisor knows.
pub struct Model {
    pub phase: Phase,
    pub connected: bool,
    pub queued: Option<Request>,
    pub refresh: bool,
    pub detect: bool,
    pub no_tablet: bool,
    pub memory: Memory,
    pub active_generation: u64,
    pub next_generation: u64,
    pub lifecycle: DaemonLifecycle,
    pub detection: DetectionSchedule,
    pub last_rebuild: Instant,
}

impl View for SupervisorAction {
    type V = Doing;

    open spec fn view(&self) -> Doing {
        match self {
            SupervisorAction::NextCommand => Doing::NextCommand,
            SupervisorAction::StartDaemon => Doing::StartDaemon,
            SupervisorAction::Probe => Doing::Probe,
            SupervisorAction::StopDaemon => Doing::StopDaemon,
            SupervisorAction::Connect(generation) => Doing::Connect(*generation),
            SupervisorAction::Query(detect) => Doing::Query(*detect),
            SupervisorAction::ReadSettings => Doing::ReadSettings,
            SupervisorAction::Apply(request) => Doing::Apply(request@),
            SupervisorAction::Wait(span) => Doing::Wait(*span),
            SupervisorAction::Stop => Doing::Stop,
        }
    }
}

impl View for SupervisorStep {
    type V = Output;

    open spec fn view(&self) -> Output {
        Output {
            disconnect: self.disconnect,
            state: match self.state {
                Some(name) => Some(name@),
                None => None,
            },
            publish: match self.publish {
                Some(Publication::Snapshot(snapshot)) => Some(News::Snapshot(snapshot@)),
                Some(Publication::Applied(area)) => Some(News::Applied(area@)),
                None => None,
            },
            action: self.action@,
        }
    }
}

impl View for BackendCommand {
    type V = Order;

    open spec fn view(&self) -> Order {
        match self {
            BackendCommand::Detect => Order::Detect,
            BackendCommand::StartDaemon => Order::StartDaemon,
            BackendCommand::Shutdown => Order::Shutdown,
            BackendCommand::TabletChanged { generation } => Order::TabletChanged {
                generation: *generation,
            },
            BackendCommand::DriverDisconnected { generation, reason } => {
                Order::DriverDisconnected { generation: *generation }
            },
            BackendCommand::ApplyArea(request) => Order::ApplyArea(request@),
            BackendCommand::RefreshSettings => Order::RefreshSettings,
        }
    }
}

impl View for SupervisorEvent {
    type V = Happening;

    open spec fn view(&self) -> Happening {
        match self {
            SupervisorEvent::Command(Some(command)) => Happening::Command(Some(command@)),
            SupervisorEvent::Command(None) => Happening::Command(None),
            SupervisorEvent::DaemonStarted(started) => Happening::DaemonStarted(*started),
            SupervisorEvent::Probed { ipc, owned } => Happening::Probed {
                ipc: *ipc,
                owned: *owned,
            },
            SupervisorEvent::DaemonStopped => Happening::DaemonStopped,
            SupervisorEvent::Connected(connected) => Happening::Connected(*connected),
            SupervisorEvent::Queried(Some(snapshot)) => Happening::Queried(Some(snapshot@)),
            SupervisorEvent::Queried(None) => Happening::Queried(None),
            SupervisorEvent::SettingsRead(settings) => Happening::SettingsRead(
                query::optional_tree(*settings),
            ),
            SupervisorEvent::Applied(Some((area, settings))) => Happening::Applied(
                Some((area@, settings@)),
            ),
            SupervisorEvent::Applied(None) => Happening::Applied(None),
            SupervisorEvent::Waited(outcome) => Happening::Waited(*outcome),
        }
    }
}

/// The events that a phase waits for.
pub open spec fn expects(phase: Phase, event: Happening) -> bool {
    match phase {
        Phase::Commands => event is Command,
        Phase::ManualStart { .. } => event is DaemonStarted,
        Phase::Probing => event is Probed,
        Phase::OwnedStart { .. } => event is DaemonStarted,
        Phase::Stopping => event is DaemonStopped,
        Phase::Connecting => event is Connected,
        Phase::Querying { .. } => event is Queried,
        Phase::ReadingSettings => event is SettingsRead,
        Phase::Applying => event is Applied,
        Phase::Reconnecting => event is Waited,
        Phase::Idle => event is Waited,
        Phase::Stopped => false,
    }
}

// ---- the transitions ----

/// A step that tells nothing.
pub open spec fn quiet(action: Doing) -> Output {
    Output { disconnect: false, state: None, publish: None, action }
}

/// A step that tells the state of the connection.
pub open spec fn telling(state: Seq<char>, action: Doing) -> Output {
    Output { disconnect: false, state: Some(state), publish: None, action }
}

pub open spec fn reconnect_pause() -> Duration {
    Duration { nanos: Duration::of_millis(BACKEND_RECONNECT_MILLIS as int) as u128 }
}

impl Model {
    /// Before anything happened.
    pub open spec fn initial(rules: SupervisorRules, now: Instant) -> Model {
        Model {
            phase: Phase::Commands,
            connected: false,
            queued: None,
            refresh: true,
            detect: false,
            no_tablet: false,
            memory: Memory { driver_settings: None, mapping_attempted: !rules.query.auto_map },
            active_generation: 0,
            next_generation: 1,
            lifecycle: DaemonLifecycle {
                last_start_attempt: None,
                startup_wait_started: None,
                connected: false,
            },
            detection: DetectionSchedule { attempts: 0, next: Some(now) },
            last_rebuild: now,
        }
    }

    /// The settings are to be read again.
    pub open spec fn without_settings(self) -> Model {
        Model { memory: Memory { driver_settings: None, ..self.memory }, ..self }
    }

    /// The tablet may be another one.
    pub open spec fn with_other_tablet(self, rules: SupervisorRules) -> Model {
        Model {
            memory: Memory { driver_settings: None, mapping_attempted: !rules.query.auto_map },
            refresh: true,
            ..self
        }
    }

    /// The connection is gone.
    pub open spec fn without_connection(self) -> Model {
        Model {
            connected: false,
            lifecycle: DaemonLifecycle { connected: false, ..self.lifecycle },
            refresh: true,
            ..self.without_settings()
        }
    }

    /// What a command does.
    pub open spec fn commanded(
        self,
        order: Option<Order>,
        rules: SupervisorRules,
        now: Instant,
    ) -> (Model, Output) {
        match order {
            None => if self.connected {
                self.proceeding(now)
            } else {
                (Model { phase: Phase::Probing, ..self }, quiet(Doing::Probe))
            },
            Some(Order::Shutdown) => (
                Model { phase: Phase::Stopped, ..self },
                quiet(Doing::Stop),
            ),
            Some(Order::Detect) => (
                Model {
                    detect: true,
                    detection: DetectionSchedule::after_explicit_detect(now),
                    ..self.with_other_tablet(rules)
                },
                quiet(Doing::NextCommand),
            ),
            Some(Order::StartDaemon) => if self.connected {
                (Model { detect: true, refresh: true, ..self }, quiet(Doing::NextCommand))
            } else {
                (
                    Model {
                        phase: Phase::ManualStart { at: now },
                        lifecycle: DaemonLifecycle {
                            last_start_attempt: Some(now),
                            ..self.lifecycle
                        },
                        ..self
                    },
                    quiet(Doing::StartDaemon),
                )
            },
            Some(Order::TabletChanged { generation }) => if generation == self.active_generation {
                (
                    Model {
                        detect: rules.query.restore_pipeline,
                        ..self.with_other_tablet(rules)
                    },
                    quiet(Doing::NextCommand),
                )
            } else {
                (self, quiet(Doing::NextCommand))
            },
            Some(Order::DriverDisconnected { generation }) => if generation
                == self.active_generation {
                (
                    self.without_connection(),
                    Output {
                        disconnect: true,
                        ..telling("daemon-starting"@, Doing::NextCommand)
                    },
                )
            } else {
                (self, quiet(Doing::NextCommand))
            },
            Some(Order::ApplyArea(request)) => (
                Model { queued: Some(request), ..self },
                quiet(Doing::NextCommand),
            ),
            Some(Order::RefreshSettings) => (
                Model { refresh: true, ..self.without_settings() },
                quiet(Doing::NextCommand),
            ),
        }
    }

    /// With a connection: the query first, where one is wanted.
    pub open spec fn proceeding(self, now: Instant) -> (Model, Output) {
        if self.detect || self.refresh {
            (
                Model {
                    phase: Phase::Querying { detect: self.detect },
                    detect: false,
                    refresh: false,
                    ..self
                },
                quiet(Doing::Query(self.detect)),
            )
        } else {
            self.applying(now)
        }
    }

    /// Then the area to apply, where there is one.
    pub open spec fn applying(self, now: Instant) -> (Model, Output) {
        match self.queued {
            Some(request) => if self.memory.driver_settings is None {
                (Model { phase: Phase::ReadingSettings, ..self }, quiet(Doing::ReadSettings))
            } else {
                (
                    Model { phase: Phase::Applying, queued: None, ..self },
                    quiet(Doing::Apply(request)),
                )
            },
            None => self.idling(now),
        }
    }

    /// Then a pause.
    pub open spec fn idling(self, now: Instant) -> (Model, Output) {
        let nanos = if self.no_tablet {
            self.detection.wait_nanos(now)
        } else {
            Duration::of_millis(TABLET_POLL_MILLIS as int)
        };
        (
            Model { phase: Phase::Idle, ..self },
            quiet(Doing::Wait(Duration { nanos: nanos as u128 })),
        )
    }

    /// The start of the driver was tried.
    pub open spec fn started(self, at: Instant, started: bool) -> (Model, Seq<char>) {
        if started {
            (
                Model {
                    lifecycle: DaemonLifecycle {
                        startup_wait_started: Some(at),
                        ..self.lifecycle
                    },
                    ..self
                },
                "daemon-starting"@,
            )
        } else {
            (
                Model {
                    lifecycle: DaemonLifecycle { startup_wait_started: None, ..self.lifecycle },
                    ..self
                },
                "daemon-not-running"@,
            )
        }
    }

    /// It is known whether the driver can be reached.
    pub open spec fn probed(self, ipc: bool, owned: bool, now: Instant) -> (Model, Output) {
        match self.lifecycle.action_for(now, ipc, owned) {
            ConnectionAction::Connect => (
                Model { phase: Phase::Connecting, ..self },
                quiet(Doing::Connect(self.next_generation)),
            ),
            ConnectionAction::StartOwnedDaemon => (
                Model {
                    phase: Phase::OwnedStart { at: now },
                    lifecycle: DaemonLifecycle {
                        last_start_attempt: Some(now),
                        ..self.lifecycle
                    },
                    ..self
                },
                quiet(Doing::StartDaemon),
            ),
            ConnectionAction::WaitForIpc => (
                Model { phase: Phase::Reconnecting, ..self },
                telling("daemon-starting"@, Doing::Wait(reconnect_pause())),
            ),
            ConnectionAction::WaitForRetry => (
                Model { phase: Phase::Reconnecting, ..self },
                quiet(
                    Doing::Wait(
                        Duration { nanos: self.lifecycle.retry_wait_nanos(now) as u128 },
                    ),
                ),
            ),
            ConnectionAction::RestartOwnedDaemon => (
                Model { phase: Phase::Stopping, ..self },
                quiet(Doing::StopDaemon),
            ),
        }
    }

    /// There is a new connection. Where the pipeline is to be restored after a detection, the
    /// first query of a connection is one.
    pub open spec fn newly_connected(self, rules: SupervisorRules, now: Instant) -> Model {
        Model {
            connected: true,
            active_generation: self.next_generation,
            next_generation: (self.next_generation + 1) as u64,
            lifecycle: DaemonLifecycle {
                connected: true,
                startup_wait_started: None,
                ..self.lifecycle
            },
            refresh: true,
            detect: self.detect || rules.query.restore_pipeline,
            detection: DetectionSchedule { attempts: 0, next: Some(now) },
            ..self.without_settings()
        }
    }

    /// The tablet was queried.
    pub open spec fn queried(self, snapshot: Snapshot, detect: bool, now: Instant) -> Model {
        let no_tablet = snapshot.state == "no-tablet"@;
        Model {
            no_tablet,
            detection: if no_tablet {
                self.detection.after_no_tablet(now)
            } else {
                DetectionSchedule { attempts: 0, next: None }
            },
            last_rebuild: if !no_tablet && detect {
                now
            } else {
                self.last_rebuild
            },
            ..self
        }
    }

    /// The pause ended with its time: the tablet is queried again, with a detection where one
    /// is due.
    pub open spec fn rested(self, rules: SupervisorRules, now: Instant) -> Model {
        let retry = self.no_tablet && self.detection.is_due(now);
        let rebuild = !self.no_tablet && rules.query.restore_pipeline && time::elapsed(
            self.last_rebuild.nanos as int,
            now.nanos as int,
        ) >= rules.rebuild_interval.nanos;
        Model {
            phase: Phase::Commands,
            refresh: true,
            detect: self.detect || retry || rebuild,
            detection: if self.no_tablet {
                self.detection.after_take_due(now)
            } else {
                self.detection
            },
            ..self
        }
    }

    /// The step after an event.
    pub open spec fn after(self, event: Happening, rules: SupervisorRules, now: Instant) -> (
        Model,
        Output,
    ) {
        match (self.phase, event) {
            (Phase::Commands, Happening::Command(order)) => self.commanded(order, rules, now),
            (Phase::ManualStart { at }, Happening::DaemonStarted(started)) => {
                let (next, state) = self.started(at, started);
                (Model { phase: Phase::Commands, ..next }, telling(state, Doing::NextCommand))
            },
            (Phase::OwnedStart { at }, Happening::DaemonStarted(started)) => {
                let (next, state) = self.started(at, started);
                (
                    Model { phase: Phase::Reconnecting, ..next },
                    telling(state, Doing::Wait(reconnect_pause())),
                )
            },
            (Phase::Probing, Happening::Probed { ipc, owned }) => self.probed(ipc, owned, now),
            (Phase::Stopping, Happening::DaemonStopped) => (
                Model {
                    phase: Phase::Commands,
                    lifecycle: DaemonLifecycle { startup_wait_started: None, ..self.lifecycle },
                    ..self
                },
                telling("daemon-crashed"@, Doing::NextCommand),
            ),
            (Phase::Connecting, Happening::Connected(connected)) => if connected {
                let (next, step) = self.newly_connected(rules, now).proceeding(now);
                (next, Output { state: Some("daemon-starting"@), ..step })
            } else {
                (
                    Model {
                        phase: Phase::Reconnecting,
                        lifecycle: DaemonLifecycle { connected: false, ..self.lifecycle },
                        ..self
                    },
                    telling("daemon-starting"@, Doing::Wait(reconnect_pause())),
                )
            },
            (Phase::Querying { detect }, Happening::Queried(Some(snapshot))) => {
                let (next, step) = self.queried(snapshot, detect, now).applying(now);
                (next, Output { publish: Some(News::Snapshot(snapshot)), ..step })
            },
            (Phase::Querying { .. }, Happening::Queried(None)) => self.lost(),
            (Phase::ReadingSettings, Happening::SettingsRead(Some(settings))) => (
                Model {
                    phase: Phase::Applying,
                    queued: None,
                    memory: Memory { driver_settings: Some(settings), ..self.memory },
                    ..self
                },
                quiet(Doing::Apply(self.queued->0)),
            ),
            (Phase::ReadingSettings, Happening::SettingsRead(None)) => (
                Model { phase: Phase::Commands, ..self.without_connection() },
                Output { disconnect: true, ..quiet(Doing::NextCommand) },
            ),
            (Phase::Applying, Happening::Applied(Some((area, settings)))) => {
                let (next, step) = Model {
                    memory: Memory { driver_settings: Some(settings), ..self.memory },
                    ..self
                }.idling(now);
                (next, Output { publish: Some(News::Applied(area)), ..step })
            },
            (Phase::Applying, Happening::Applied(None)) => self.lost(),
            (Phase::Reconnecting, Happening::Waited(_)) => (
                Model { phase: Phase::Commands, ..self },
                quiet(Doing::NextCommand),
            ),
            (Phase::Idle, Happening::Waited(outcome)) => match outcome {
                WaitOutcome::Message => (
                    Model { phase: Phase::Commands, ..self },
                    quiet(Doing::NextCommand),
                ),
                WaitOutcome::Timeout => (self.rested(rules, now), quiet(Doing::NextCommand)),
                WaitOutcome::Closed => (
                    Model { phase: Phase::Stopped, ..self },
                    quiet(Doing::Stop),
                ),
            },
            _ => (self, quiet(Doing::Stop)),
        }
    }

    /// The driver did not do what it was asked for: the connection is given up.
    pub open spec fn lost(self) -> (Model, Output) {
        (
            Model { phase: Phase::Commands, ..self.without_connection() },
            Output { disconnect: true, ..telling("daemon-starting"@, Doing::NextCommand) },
        )
    }

    /// What holds of the supervisor at all times.
    pub open spec fn sound(self) -> bool {
        &&& self.active_generation < self.next_generation
        &&& self.detection.attempts <= 6
        &&& match self.phase {
            Phase::Commands => true,
            Phase::Querying { .. } => self.connected,
            Phase::ReadingSettings => self.connected && self.queued is Some
                && self.memory.driver_settings is None,
            Phase::Applying => self.connected,
            Phase::Idle => self.connected,
            Phase::Stopped => true,
            _ => !self.connected,
        }
    }
}

// ---- the supervisor ----

/// The supervisor of the backend.
#[derive(Debug)]
pub struct Supervisor {
    pub phase: Phase,
    pub connected: bool,
    pub queued_apply: Option<AreaRequest>,
    pub refresh_requested: bool,
    pub detect_requested: bool,
    pub no_tablet: bool,
    pub memory: QueryMemory,
    pub active_generation: u64,
    pub next_generation: u64,
    pub lifecycle: DaemonLifecycle,
    pub detection: DetectionSchedule,
    pub last_pipeline_rebuild: Instant,
}

impl View for Supervisor {
    type V = Model;

    open spec fn view(&self) -> Model {
        Model {
            phase: self.phase,
            connected: self.connected,
            queued: match self.queued_apply {
                Some(request) => Some(request@),
                None => None,
            },
            refresh: self.refresh_requested,
            detect: self.detect_requested,
            no_tablet: self.no_tablet,
            memory: self.memory@,
            active_generation: self.active_generation,
            next_generation: self.next_generation,
            lifecycle: self.lifecycle,
            detection: self.detection,
            last_rebuild: self.last_pipeline_rebuild,
        }
    }
}

fn quietly(action: SupervisorAction) -> (step: SupervisorStep)
    ensures
        step@ == quiet(action@),
{
    SupervisorStep { disconnect: false, state: None, publish: None, action }
}

fn tell(state: &'static str, action: SupervisorAction) -> (step: SupervisorStep)
    ensures
        step@ == telling(state@, action@),
{
    SupervisorStep { disconnect: false, state: Some(state), publish: None, action }
}

impl Supervisor {
    /// Before anything happened.
    pub fn new(rules: SupervisorRules, now: Instant) -> (supervisor: Supervisor)
        ensures
            supervisor@ == Model::initial(rules, now),
            supervisor@.sound(),
    {
        Supervisor {
            phase: Phase::Commands,
            connected: false,
            queued_apply: None,
            refresh_requested: true,
            detect_requested: false,
            no_tablet: false,
            memory: QueryMemory {
                driver_settings: None,
                mapping_attempted: !rules.query.auto_map,
            },
            active_generation: 0,
            next_generation: 1,
            lifecycle: DaemonLifecycle::new(),
            detection: DetectionSchedule::new(now),
            last_pipeline_rebuild: now,
        }
    }

    fn forget_tablet(&mut self, rules: SupervisorRules)
        ensures
            final(self)@ == old(self)@.with_other_tablet(rules),
    {
        self.memory.driver_settings = None;
        self.memory.mapping_attempted = !rules.query.auto_map;
        self.refresh_requested = true;
    }

    fn drop_connection(&mut self)
        ensures
            final(self)@ == old(self)@.without_connection(),
    {
        self.connected = false;
        self.lifecycle.disconnected();
        self.refresh_requested = true;
        self.memory.driver_settings = None;
    }

    fn give_up(&mut self) -> (step: SupervisorStep)
        ensures
            (final(self)@, step@) == old(self)@.lost(),
    {
        self.drop_connection();
        self.phase = Phase::Commands;
        let mut step = tell("daemon-starting", SupervisorAction::NextCommand);
        step.disconnect = true;
        step
    }

    fn on_command(
        &mut self,
        command: Option<BackendCommand>,
        rules: SupervisorRules,
        now: Instant,
    ) -> (step: SupervisorStep)
        requires
            now.can_add(20_000),
        ensures
            ({
                let order = match command {
                    Some(c) => Some(c@),
                    None => None,
                };
                (final(self)@, step@) == old(self)@.commanded(order, rules, now)
            }),
    {
        let command = match command {
            Some(command) => command,
            None => {
                if self.connected {
                    return self.proceed(now);
                }
                self.phase = Phase::Probing;
                return quietly(SupervisorAction::Probe);
            },
        };
        match command {
            BackendCommand::Shutdown => {
                self.phase = Phase::Stopped;
                return quietly(SupervisorAction::Stop);
            },
            BackendCommand::Detect => {
                self.forget_tablet(rules);
                self.detect_requested = true;
                self.detection.reset_after_explicit_detect(now);
            },
            BackendCommand::StartDaemon => {
                if !self.connected {
                    self.lifecycle.start_attempted(now);
                    self.phase = Phase::ManualStart { at: now };
                    return quietly(SupervisorAction::StartDaemon);
                }
                self.detect_requested = true;
                self.refresh_requested = true;
            },
            BackendCommand::TabletChanged { generation } => {
                if generation == self.active_generation {
                    self.forget_tablet(rules);
                    self.detect_requested = rules.query.restore_pipeline;
                }
            },
            BackendCommand::DriverDisconnected { generation, reason } => {
                if generation == self.active_generation {
                    self.drop_connection();
                    let mut step = tell("daemon-starting", SupervisorAction::NextCommand);
                    step.disconnect = true;
                    return step;
                }
            },
            BackendCommand::ApplyArea(request) => {
                self.queued_apply = Some(request);
            },
            BackendCommand::RefreshSettings => {
                self.memory.driver_settings = None;
                self.refresh_requested = true;
            },
        }
        quietly(SupervisorAction::NextCommand)
    }

    fn proceed(&mut self, now: Instant) -> (step: SupervisorStep)
        ensures
            (final(self)@, step@) == old(self)@.proceeding(now),
    {
        if self.detect_requested || self.refresh_requested {
            let detect = self.detect_requested;
            self.detect_requested = false;
            self.refresh_requested = false;
            self.phase = Phase::Querying { detect };
            return quietly(SupervisorAction::Query(detect));
        }
        self.apply(now)
    }

    fn apply(&mut self, now: Instant) -> (step: SupervisorStep)
        ensures
            (final(self)@, step@) == old(self)@.applying(now),
    {
        if self.queued_apply.is_none() {
            return self.idle(now);
        }
        if self.memory.driver_settings.is_none() {
            self.phase = Phase::ReadingSettings;
            return quietly(SupervisorAction::ReadSettings);
        }
        match self.queued_apply.take() {
            Some(request) => {
                self.phase = Phase::Applying;
                quietly(SupervisorAction::Apply(request))
            },
            None => self.idle(now),
        }
    }

    fn idle(&mut self, now: Instant) -> (step: SupervisorStep)
        ensures
            (final(self)@, step@) == old(self)@.idling(now),
    {
        let pause = if self.no_tablet {
            self.detection.wait_duration(now)
        } else {
            Duration::from_millis(TABLET_POLL_MILLIS)
        };
        self.phase = Phase::Idle;
        quietly(SupervisorAction::Wait(pause))
    }

    fn note_start(&mut self, at: Instant, started: bool) -> (state: &'static str)
        ensures
            (final(self)@, state@) == old(self)@.started(at, started),
    {
        if started {
            self.lifecycle.spawn_succeeded(at);
            "daemon-starting"
        } else {
            self.lifecycle.spawn_failed();
            "daemon-not-running"
        }
    }

    fn on_probe(&mut self, ipc: bool, owned: bool, now: Instant) -> (step: SupervisorStep)
        ensures
            (final(self)@, step@) == old(self)@.probed(ipc, owned, now),
    {
        match self.lifecycle.next_action(now, ipc, owned) {
            ConnectionAction::Connect => {
                self.phase = Phase::Connecting;
                quietly(SupervisorAction::Connect(self.next_generation))
            },
            ConnectionAction::StartOwnedDaemon => {
                self.lifecycle.start_attempted(now);
                self.phase = Phase::OwnedStart { at: now };
                quietly(SupervisorAction::StartDaemon)
            },
            ConnectionAction::WaitForIpc => {
                self.phase = Phase::Reconnecting;
                tell(
                    "daemon-starting",
                    SupervisorAction::Wait(Duration::from_millis(BACKEND_RECONNECT_MILLIS)),
                )
            },
            ConnectionAction::WaitForRetry => {
                self.phase = Phase::Reconnecting;
                quietly(SupervisorAction::Wait(self.lifecycle.retry_wait(now)))
            },
            ConnectionAction::RestartOwnedDaemon => {
                self.phase = Phase::Stopping;
                quietly(SupervisorAction::StopDaemon)
            },
        }
    }

    fn on_connected(&mut self, rules: SupervisorRules, now: Instant) -> (step: SupervisorStep)
        requires
            old(self).next_generation < u64::MAX,
        ensures
            ({
                let (next, output) = old(self)@.newly_connected(rules, now).proceeding(now);
                (final(self)@, step@) == (
                    next,
                    (Output { state: Some("daemon-starting"@), ..output }),
                )
            }),
    {
        self.connected = true;
        self.active_generation = self.next_generation;
        self.next_generation = self.next_generation + 1;
        self.lifecycle.connected();
        self.refresh_requested = true;
        self.detect_requested = self.detect_requested || rules.query.restore_pipeline;
        self.memory.driver_settings = None;
        self.detection = DetectionSchedule::new(now);
        let mut step = self.proceed(now);
        step.state = Some("daemon-starting");
        step
    }

    fn on_snapshot(&mut self, snapshot: BackendSnapshot, detect: bool, now: Instant) -> (
        step: SupervisorStep)
        requires
            now.can_add(20_000),
            old(self).detection.attempts <= 6,
        ensures
            ({
                let (next, output) = old(self)@.queried(snapshot@, detect, now).applying(now);
                (final(self)@, step@) == (
                    next,
                    (Output { publish: Some(News::Snapshot(snapshot@)), ..output }),
                )
            }),
    {
        self.no_tablet = text::same_text(snapshot.state, "no-tablet");
        if self.no_tablet {
            self.detection.no_tablet(now);
        } else {
            self.detection.tablet_found();
            if detect {
                self.last_pipeline_rebuild = now;
            }
        }
        let mut step = self.apply(now);
        step.publish = Some(Publication::Snapshot(snapshot));
        step
    }

    fn on_rest(&mut self, rules: SupervisorRules, now: Instant)
        ensures
            final(self)@ == old(self)@.rested(rules, now),
    {
        self.refresh_requested = true;
        let retry = self.no_tablet && self.detection.take_due(now);
        let rebuild = !self.no_tablet && rules.query.restore_pipeline
            && now.saturating_duration_since(self.last_pipeline_rebuild).nanos
            >= rules.rebuild_interval.nanos;
        if retry || rebuild {
            self.detect_requested = true;
        }
        self.phase = Phase::Commands;
    }

    /// Takes what happened, and says what to do next.
    pub fn step(&mut self, event: SupervisorEvent, rules: SupervisorRules, now: Instant) -> (
        step: SupervisorStep)
        requires
            old(self)@.sound(),
            expects(old(self)@.phase, event@),
            now.can_add(20_000),
            old(self).next_generation < u64::MAX,
        ensures
            (final(self)@, step@) == old(self)@.after(event@, rules, now),
            final(self)@.sound(),
    {
        match (self.phase, event) {
            (Phase::Commands, SupervisorEvent::Command(command)) => {
                self.on_command(command, rules, now)
            },
            (Phase::ManualStart { at }, SupervisorEvent::DaemonStarted(started)) => {
                let state = self.note_start(at, started);
                self.phase = Phase::Commands;
                tell(state, SupervisorAction::NextCommand)
            },
            (Phase::OwnedStart { at }, SupervisorEvent::DaemonStarted(started)) => {
                let state = self.note_start(at, started);
                self.phase = Phase::Reconnecting;
                tell(
                    state,
                    SupervisorAction::Wait(Duration::from_millis(BACKEND_RECONNECT_MILLIS)),
                )
            },
            (Phase::Probing, SupervisorEvent::Probed { ipc, owned }) => {
                self.on_probe(ipc, owned, now)
            },
            (Phase::Stopping, SupervisorEvent::DaemonStopped) => {
                self.lifecycle.owned_daemon_stopped();
                self.phase = Phase::Commands;
                tell("daemon-crashed", SupervisorAction::NextCommand)
            },
            (Phase::Connecting, SupervisorEvent::Connected(connected)) => {
                if connected {
                    return self.on_connected(rules, now);
                }
                self.lifecycle.disconnected();
                self.phase = Phase::Reconnecting;
                tell(
                    "daemon-starting",
                    SupervisorAction::Wait(Duration::from_millis(BACKEND_RECONNECT_MILLIS)),
                )
            },
            (Phase::Querying { detect }, SupervisorEvent::Queried(Some(snapshot))) => {
                self.on_snapshot(snapshot, detect, now)
            },
            (Phase::Querying { detect }, SupervisorEvent::Queried(None)) => self.give_up(),
            (Phase::ReadingSettings, SupervisorEvent::SettingsRead(Some(settings))) => {
                self.memory.driver_settings = Some(settings);
                self.phase = Phase::Applying;
                match self.queued_apply.take() {
                    Some(request) => quietly(SupervisorAction::Apply(request)),
                    None => quietly(SupervisorAction::Stop),
                }
            },
            (Phase::ReadingSettings, SupervisorEvent::SettingsRead(None)) => {
                self.drop_connection();
                self.phase = Phase::Commands;
                let mut step = quietly(SupervisorAction::NextCommand);
                step.disconnect = true;
                step
            },
            (Phase::Applying, SupervisorEvent::Applied(Some((area, settings)))) => {
                self.memory.driver_settings = Some(settings);
                let mut step = self.idle(now);
                step.publish = Some(Publication::Applied(area));
                step
            },
            (Phase::Applying, SupervisorEvent::Applied(None)) => self.give_up(),
            (Phase::Reconnecting, SupervisorEvent::Waited(_)) => {
                self.phase = Phase::Commands;
                quietly(SupervisorAction::NextCommand)
            },
            (Phase::Idle, SupervisorEvent::Waited(outcome)) => match outcome {
                WaitOutcome::Message => {
                    self.phase = Phase::Commands;
                    quietly(SupervisorAction::NextCommand)
                },
                WaitOutcome::Timeout => {
                    self.on_rest(rules, now);
                    quietly(SupervisorAction::NextCommand)
                },
                WaitOutcome::Closed => {
                    self.phase = Phase::Stopped;
                    quietly(SupervisorAction::Stop)
                },
            },
            _ => quietly(SupervisorAction::Stop),
        }
    }
}

// ---- laws ----

/// A shutdown stops the supervisor at once, whatever it was about to do; and then nothing is
/// waited for any more.
pub proof fn shutdown_stops(model: Model, rules: SupervisorRules, now: Instant)
    requires
        model.phase is Commands,
    ensures
        ({
            let (next, output) = model.after(
                Happening::Command(Some(Order::Shutdown)),
                rules,
                now,
            );
            &&& next.phase is Stopped
            &&& output == quiet(Doing::Stop)
            &&& forall|event: Happening| !expects(next.phase, event)
        }),
{
}

/// What an earlier connection still reports changes nothing.
pub proof fn stale_generations_are_ignored(
    model: Model,
    generation: u64,
    rules: SupervisorRules,
    now: Instant,
)
    requires
        model.phase is Commands,
        generation != model.active_generation,
    ensures
        model.after(
            Happening::Command(Some(Order::TabletChanged { generation })),
            rules,
            now,
        ) == (model, quiet(Doing::NextCommand)),
        model.after(
            Happening::Command(Some(Order::DriverDisconnected { generation })),
            rules,
            now,
        ) == (model, quiet(Doing::NextCommand)),
{
}

/// An area that waits to be applied is kept through every step, also when the connection is
/// lost, until it is applied or a newer one takes its place.
pub proof fn queued_area_is_kept(
    model: Model,
    event: Happening,
    rules: SupervisorRules,
    now: Instant,
)
    requires
        model.sound(),
        expects(model.phase, event),
        model.queued is Some,
    ensures
        ({
            let (next, output) = model.after(event, rules, now);
            ||| next.queued == model.queued
            ||| output.action == Doing::Apply(model.queued->0)
            ||| event matches Happening::Command(Some(Order::ApplyArea(newer))) && next.queued
                == Some(newer)
        }),
{
}

/// Every connection has a generation of its own, larger than those before it.
pub proof fn generations_increase(
    model: Model,
    event: Happening,
    rules: SupervisorRules,
    now: Instant,
)
    requires
        model.sound(),
        expects(model.phase, event),
        model.next_generation < u64::MAX,
    ensures
        ({
            let (next, output) = model.after(event, rules, now);
            &&& next.next_generation >= model.next_generation
            &&& next.active_generation >= model.active_generation
            &&& next.connected && !model.connected ==> next.active_generation
                == model.next_generation > model.active_generation
            &&& output.action matches Doing::Connect(generation) ==> generation
                == next.next_generation
        }),
{
}

/// The driver is asked for something only over a connection, and is started only without one.
pub proof fn driver_is_asked_over_a_connection(
    model: Model,
    event: Happening,
    rules: SupervisorRules,
    now: Instant,
)
    requires
        model.sound(),
        expects(model.phase, event),
        model.next_generation < u64::MAX,
    ensures
        ({
            let (next, output) = model.after(event, rules, now);
            &&& next.sound()
            &&& output.action is Query || output.action is ReadSettings || output.action is Apply
                ==> next.connected
            &&& output.action is StartDaemon || output.action is StopDaemon
                || output.action is Connect || output.action is Probe ==> !next.connected
            &&& output.disconnect ==> !next.connected
        }),
{
}

/// The user interface is told of an applied area only when the driver confirmed one, and of
/// that very area.
pub proof fn only_confirmed_areas_are_published(
    model: Model,
    event: Happening,
    rules: SupervisorRules,
    now: Instant,
)
    requires
        model.sound(),
        expects(model.phase, event),
    ensures
        model.after(event, rules, now).1.publish matches Some(News::Applied(area)) ==> event
            matches Happening::Applied(Some((actual, _))) && actual == area,
        event matches Happening::Applied(Some((actual, _))) ==> model.after(
            event,
            rules,
            now,
        ).1.publish == Some(News::Applied(actual)),
{
}

/// The first query of a connection is a detection where the pipeline is to be restored after
/// one, and where the user asked for one before.
pub proof fn first_query_detects(model: Model, rules: SupervisorRules, now: Instant)
    requires
        model.phase is Connecting,
    ensures
        model.after(Happening::Connected(true), rules, now).1.action == Doing::Query(
            model.detect || rules.query.restore_pipeline,
        ),
{
}

/// A driver that fails to answer a query or to take an area is given up: the connection is
/// dropped, its settings are forgotten, and the tablet is queried again once there is a new
/// one.
pub proof fn failures_start_over(model: Model, rules: SupervisorRules, now: Instant)
    ensures
        model.phase is Querying ==> {
            let (next, output) = model.after(Happening::Queried(None), rules, now);
            output.disconnect && !next.connected && next.memory.driver_settings is None
                && next.refresh && output.publish is None
        },
        model.phase is Applying ==> {
            let (next, output) = model.after(Happening::Applied(None), rules, now);
            output.disconnect && !next.connected && next.memory.driver_settings is None
                && next.refresh && output.publish is None
        },
{
}

/// The supervisor never sleeps longer than a second and a half.
pub proof fn pauses_are_short(
    model: Model,
    event: Happening,
    rules: SupervisorRules,
    now: Instant,
)
    requires
        model.sound(),
        expects(model.phase, event),
    ensures
        model.after(event, rules, now).1.action matches Doing::Wait(pause) ==> pause.nanos
            <= Duration::of_millis(1_500),
{
}

/// Of two areas that are asked for before one can be applied, the newer one counts.
pub proof fn newest_area_counts(
    model: Model,
    first: Request,
    second: Request,
    rules: SupervisorRules,
    now: Instant,
)
    requires
        model.phase is Commands,
    ensures
        ({
            let (one, _) = model.after(
                Happening::Command(Some(Order::ApplyArea(first))),
                rules,
                now,
            );
            let (two, _) = one.after(
                Happening::Command(Some(Order::ApplyArea(second))),
                rules,
                now,
            );
            two == Model { queued: Some(second), ..model }
        }),
{
}

// ---- looking for a missing tablet ----

/// What the supervisor knows after the first `n` of some events, each at its time.
pub open spec fn known_after(
    start: Model,
    events: Seq<(Happening, Instant)>,
    rules: SupervisorRules,
    n: nat,
) -> Model
    decreases n,
{
    if n == 0 {
        start
    } else {
        known_after(start, events, rules, (n - 1) as nat).after(
            events[n - 1].0,
            rules,
            events[n - 1].1,
        ).0
    }
}

/// What the supervisor does after one of some events.
pub open spec fn done_after(
    start: Model,
    events: Seq<(Happening, Instant)>,
    rules: SupervisorRules,
    i: nat,
) -> Doing {
    known_after(start, events, rules, i).after(
        events[i as int].0,
        rules,
        events[i as int].1,
    ).1.action
}

/// How often a detection was asked for after the first `n` events.
pub open spec fn detections(
    start: Model,
    events: Seq<(Happening, Instant)>,
    rules: SupervisorRules,
    n: nat,
) -> nat
    decreases n,
{
    if n == 0 {
        0
    } else {
        detections(start, events, rules, (n - 1) as nat) + if done_after(
            start,
            events,
            rules,
            (n - 1) as nat,
        ) == Doing::Query(true) {
            1nat
        } else {
            0
        }
    }
}

/// The last query that was asked for after the first `n` events was a detection.
pub open spec fn detecting(
    start: Model,
    events: Seq<(Happening, Instant)>,
    rules: SupervisorRules,
    n: nat,
) -> bool
    decreases n,
{
    if n == 0 {
        false
    } else {
        match done_after(start, events, rules, (n - 1) as nat) {
            Doing::Query(detect) => detect,
            _ => detecting(start, events, rules, (n - 1) as nat),
        }
    }
}

/// When the last detection was answered, among the first `n` events.
pub open spec fn answered_at(
    start: Model,
    events: Seq<(Happening, Instant)>,
    rules: SupervisorRules,
    n: nat,
) -> int
    decreases n,
{
    if n == 0 {
        0
    } else if events[n - 1].0 is Queried && detecting(start, events, rules, (n - 1) as nat) {
        events[n - 1].1.nanos as int
    } else {
        answered_at(start, events, rules, (n - 1) as nat)
    }
}

/// Nobody asks for a detection, no tablet is found, and there is no new connection.
pub open spec fn undisturbed(event: Happening) -> bool {
    match event {
        Happening::Command(Some(Order::Detect)) => false,
        Happening::Command(Some(Order::StartDaemon)) => false,
        Happening::Command(Some(Order::TabletChanged { .. })) => false,
        Happening::Connected(true) => false,
        Happening::Queried(Some(snapshot)) => snapshot.state == "no-tablet"@,
        _ => true,
    }
}

/// The events come as they are waited for, one after the other, and nothing disturbs the search.
pub open spec fn searching(
    start: Model,
    events: Seq<(Happening, Instant)>,
    rules: SupervisorRules,
) -> bool {
    &&& forall|i: int|
        0 <= i < events.len() ==> expects(
            known_after(start, events, rules, i as nat).phase,
            (#[trigger] events[i]).0,
        ) && undisturbed(events[i].0) && events[i].1.can_add(20_000)
    &&& forall|i: int, j: int|
        0 <= i < j < events.len() ==> (#[trigger] events[i]).1.nanos <= (
        #[trigger] events[j]).1.nanos
}

/// The least pause after the given number of detections that found nothing, in nanoseconds.
pub open spec fn search_pause(made: nat) -> int {
    if made == 0 {
        0
    } else if made == 1 {
        2_000_000_000
    } else if made == 2 {
        4_000_000_000
    } else if made == 3 {
        7_000_000_000
    } else if made == 4 {
        12_000_000_000
    } else if made == 5 {
        20_000_000_000
    } else {
        15_000_000_000
    }
}

/// What holds while a tablet is searched for: `made` detections were asked for, the last of them
/// was answered at `answered`, and the last event came at `latest`.
spec fn search_goes_on(
    model: Model,
    made: nat,
    detecting: bool,
    answered: int,
    latest: int,
) -> bool {
    &&& model.sound()
    &&& answered <= latest
    &&& model.connected ==> {
        &&& model.phase is Querying || model.no_tablet
        &&& model.phase is Querying ==> !model.detect
        &&& detecting ==> made > 0
        &&& if model.detect {
            &&& model.detection.attempts == if made < 6 {
                made + 1
            } else {
                6
            }
            &&& model.detection.next is None
            &&& made > 0 ==> latest >= answered + search_pause(made)
        } else {
            &&& model.detection.attempts == if made < 6 {
                made
            } else {
                6
            }
            &&& if model.phase is Querying && detecting {
                model.detection.next is None
            } else {
                made > 0 ==> (model.detection.next matches Some(due) ==> due.nanos >= answered
                    + search_pause(made))
            }
        }
    }
}

#[verifier::spinoff_prover]
#[verifier::rlimit(60)]
proof fn search_step(
    model: Model,
    event: Happening,
    rules: SupervisorRules,
    now: Instant,
    made: nat,
    detecting: bool,
    answered: int,
    latest: int,
)
    requires
        search_goes_on(model, made, detecting, answered, latest),
        expects(model.phase, event),
        undisturbed(event),
        now.can_add(20_000),
        latest <= now.nanos,
    ensures
        ({
            let (next, output) = model.after(event, rules, now);
            let asked = output.action == Doing::Query(true);
            &&& asked && made > 0 ==> now.nanos >= answered + search_pause(made)
            &&& search_goes_on(
                next,
                if asked {
                    made + 1
                } else {
                    made
                },
                match output.action {
                    Doing::Query(detect) => detect,
                    _ => detecting,
                },
                if event is Queried && detecting {
                    now.nanos as int
                } else {
                    answered
                },
                now.nanos as int,
            )
        }),
{
    let (next, output) = model.after(event, rules, now);
    match model.phase {
        Phase::Commands => {},
        Phase::Querying { detect } => {},
        Phase::Idle => {},
        Phase::Applying => {},
        Phase::ReadingSettings => {},
        Phase::Probing => {},
        _ => {},
    }
}

proof fn search_is_kept_up(
    base: Model,
    begun: Instant,
    events: Seq<(Happening, Instant)>,
    rules: SupervisorRules,
    n: nat,
)
    requires
        base.sound(),
        base.phase is Connecting,
        base.next_generation < u64::MAX,
        searching(base.after(Happening::Connected(true), rules, begun).0, events, rules),
        n <= events.len(),
    ensures
        ({
            let start = base.after(Happening::Connected(true), rules, begun).0;
            search_goes_on(
                known_after(start, events, rules, n),
                detections(start, events, rules, n),
                detecting(start, events, rules, n),
                answered_at(start, events, rules, n),
                if n == 0 {
                    0
                } else {
                    events[n - 1].1.nanos as int
                },
            )
        }),
    decreases n,
{
    let start = base.after(Happening::Connected(true), rules, begun).0;
    if n > 0 {
        let m = (n - 1) as nat;
        search_is_kept_up(base, begun, events, rules, m);
        let (event, now) = events[m as int];
        assert(events[m as int].0 == event);
        if m > 0 {
            assert(events[m - 1].1.nanos <= events[m as int].1.nanos);
        }
        search_step(
            known_after(start, events, rules, m),
            event,
            rules,
            now,
            detections(start, events, rules, m),
            detecting(start, events, rules, m),
            answered_at(start, events, rules, m),
            if m == 0 {
                0
            } else {
                events[m - 1].1.nanos as int
            },
        );
    }
}

/// While no tablet is found, the supervisor looks for one with growing pauses. From a new
/// connection on, whatever happens but for a command that asks for a detection: once the first
/// detection after the connection was answered, the second one is asked for 2 seconds later at
/// the earliest, and those after it 4, 7, 12, 20 and then always 15 seconds after the answer to
/// the one before.
pub proof fn detections_are_spaced(
    base: Model,
    begun: Instant,
    events: Seq<(Happening, Instant)>,
    rules: SupervisorRules,
    i: nat,
)
    requires
        base.sound(),
        base.phase is Connecting,
        base.next_generation < u64::MAX,
        searching(base.after(Happening::Connected(true), rules, begun).0, events, rules),
        i < events.len(),
        done_after(
            base.after(Happening::Connected(true), rules, begun).0,
            events,
            rules,
            i,
        ) == Doing::Query(true),
    ensures
        ({
            let start = base.after(Happening::Connected(true), rules, begun).0;
            let made = detections(start, events, rules, i);
            made > 0 ==> events[i as int].1.nanos >= answered_at(start, events, rules, i)
                + search_pause(made)
        }),
{
    let start = base.after(Happening::Connected(true), rules, begun).0;
    search_is_kept_up(base, begun, events, rules, i);
    let (event, now) = events[i as int];
    assert(events[i as int].0 == event);
    if i > 0 {
        assert(events[i - 1].1.nanos <= events[i as int].1.nanos);
    }
    search_step(
        known_after(start, events, rules, i),
        event,
        rules,
        now,
        detections(start, events, rules, i),
        detecting(start, events, rules, i),
        answered_at(start, events, rules, i),
        if i == 0 {
            0
        } else {
            events[i - 1].1.nanos as int
        },
    );
}

/// A pause that ends with its time while no tablet is there and a detection is due takes the
/// detection off the schedule, one more counts as made, and it is asked for next. Before it is
/// due the schedule stays, and the tablet is queried without a detection.
pub proof fn due_detections_are_made(
    model: Model,
    due: Instant,
    rules: SupervisorRules,
    now: Instant,
    later: Instant,
)
    requires
        model.sound(),
        model.phase is Idle,
        model.no_tablet,
        !model.detect,
        model.detection.next == Some(due),
    ensures
        ({
            let next = model.after(Happening::Waited(WaitOutcome::Timeout), rules, now).0;
            let asked = next.after(Happening::Command(None), rules, later).1.action;
            if now.nanos >= due.nanos {
                &&& next.detection.next is None
                &&& next.detection.attempts == if model.detection.attempts < 6 {
                    model.detection.attempts + 1
                } else {
                    6
                }
                &&& asked == Doing::Query(true)
            } else {
                next.detection == model.detection && asked == Doing::Query(false)
            }
        }),
{
}

/// Without a tablet the supervisor sleeps until the next detection, but at most 900 milliseconds;
/// with one it sleeps 900 milliseconds. A detection that found nothing puts the next one on the
/// schedule within 20 seconds.
pub proof fn rests_end_in_time(
    model: Model,
    detect: bool,
    snapshot: Snapshot,
    rules: SupervisorRules,
    now: Instant,
)
    requires
        model.sound(),
        model.phase == (Phase::Querying { detect }),
        model.queued is None,
        now.can_add(20_000),
    ensures
        ({
            let (next, output) = model.after(Happening::Queried(Some(snapshot)), rules, now);
            &&& next.phase is Idle
            &&& output.publish == Some(News::Snapshot(snapshot))
            &&& next.no_tablet == (snapshot.state == "no-tablet"@)
            &&& next.no_tablet ==> (next.detection.next matches Some(due) && now.nanos
                <= due.nanos <= now.nanos + 20_000_000_000 && (output.action matches Doing::Wait(
                pause,
            ) && (pause.nanos == due.nanos - now.nanos || (pause.nanos == 900_000_000 && now.nanos
                + 900_000_000 <= due.nanos))))
            &&& !next.no_tablet ==> next.detection.next is None && next.detection.attempts == 0
                && output.action == Doing::Wait(Duration { nanos: 900_000_000 })
            &&& next.last_rebuild == if detect && !next.no_tablet {
                now
            } else {
                model.last_rebuild
            }
        }),
{
}

/// A pause with a tablet that ends with its time is followed by a query. It is a detection where
/// the pipeline is to be restored by one and the last was so long ago, and else only where one
/// was asked for.
pub proof fn pipeline_is_rebuilt_in_time(
    model: Model,
    rules: SupervisorRules,
    now: Instant,
    later: Instant,
)
    requires
        model.sound(),
        model.phase is Idle,
        !model.no_tablet,
    ensures
        ({
            let next = model.after(Happening::Waited(WaitOutcome::Timeout), rules, now).0;
            let asked = next.after(Happening::Command(None), rules, later).1.action;
            let due = rules.query.restore_pipeline && ((now.nanos >= model.last_rebuild.nanos
                && now.nanos - model.last_rebuild.nanos >= rules.rebuild_interval.nanos)
                || rules.rebuild_interval.nanos == 0);
            &&& asked == Doing::Query(model.detect || due)
            &&& next.detection == model.detection
            &&& next.queued == model.queued
            &&& next.memory == model.memory
        }),
{
}

// ---- what commands do ----

/// The next query of a connected supervisor is what the user asked for: a detection after a
/// request for one, and also after one to start the driver, which runs already. A request to
/// detect forgets what is known of the tablet, and puts the next detection 2 seconds off.
pub proof fn detections_are_made_on_request(
    model: Model,
    rules: SupervisorRules,
    now: Instant,
    later: Instant,
)
    requires
        model.sound(),
        model.phase is Commands,
        model.connected,
        now.can_add(20_000),
    ensures
        ({
            let (next, output) = model.after(Happening::Command(Some(Order::Detect)), rules, now);
            &&& output == quiet(Doing::NextCommand)
            &&& next.after(Happening::Command(None), rules, later).1.action == Doing::Query(true)
            &&& next.memory.driver_settings is None
            &&& next.memory.mapping_attempted == !rules.query.auto_map
            &&& next.detection.attempts == 1
            &&& next.detection.next == Some(Instant { nanos: (now.nanos + 2_000_000_000) as u128 })
            &&& next.queued == model.queued
        }),
        ({
            let (next, output) = model.after(
                Happening::Command(Some(Order::StartDaemon)),
                rules,
                now,
            );
            &&& output == quiet(Doing::NextCommand)
            &&& next.after(Happening::Command(None), rules, later).1.action == Doing::Query(true)
            &&& next.memory == model.memory
        }),
        ({
            let (next, output) = model.after(
                Happening::Command(Some(Order::RefreshSettings)),
                rules,
                now,
            );
            &&& output == quiet(Doing::NextCommand)
            &&& next.after(Happening::Command(None), rules, later).1.action == Doing::Query(
                model.detect,
            )
            &&& next.memory.driver_settings is None
            &&& next.memory.mapping_attempted == model.memory.mapping_attempted
            &&& next.queued == model.queued
        }),
        ({
            let (next, output) = model.after(
                Happening::Command(
                    Some(Order::TabletChanged { generation: model.active_generation }),
                ),
                rules,
                now,
            );
            &&& output == quiet(Doing::NextCommand)
            &&& next.after(Happening::Command(None), rules, later).1.action == Doing::Query(
                rules.query.restore_pipeline,
            )
            &&& next.memory.driver_settings is None
            &&& next.memory.mapping_attempted == !rules.query.auto_map
        }),
{
}

/// An area that is asked for over a connection is applied next, once a query that is wanted was
/// made: at once where the driver's settings are known, and else after they were read. The
/// settings that were read are those that it is applied to.
pub proof fn areas_are_applied_on_request(
    model: Model,
    area: Request,
    settings: Tree,
    rules: SupervisorRules,
    now: Instant,
    later: Instant,
)
    requires
        model.sound(),
        model.phase is Commands,
        model.connected,
        !model.detect,
        !model.refresh,
    ensures
        ({
            let asked = model.after(
                Happening::Command(Some(Order::ApplyArea(area))),
                rules,
                now,
            ).0;
            let (next, output) = asked.after(Happening::Command(None), rules, now);
            if model.memory.driver_settings is Some {
                &&& output == quiet(Doing::Apply(area))
                &&& next.memory == model.memory
                &&& next.queued is None
            } else {
                let (last, done) = next.after(
                    Happening::SettingsRead(Some(settings)),
                    rules,
                    later,
                );
                &&& output == quiet(Doing::ReadSettings)
                &&& done == quiet(Doing::Apply(area))
                &&& last.memory.driver_settings == Some(settings)
                &&& last.queued is None
            }
        }),
{
}

/// An area that was applied is told to the user interface, and the settings that came with it are
/// the driver's; then there is a pause.
pub proof fn applied_areas_are_remembered(
    model: Model,
    area: Request,
    settings: Tree,
    rules: SupervisorRules,
    now: Instant,
)
    requires
        model.sound(),
        model.phase is Applying,
    ensures
        ({
            let (next, output) = model.after(
                Happening::Applied(Some((area, settings))),
                rules,
                now,
            );
            &&& output.publish == Some(News::Applied(area))
            &&& !output.disconnect
            &&& output.action is Wait
            &&& next.memory.driver_settings == Some(settings)
            &&& next.memory.mapping_attempted == model.memory.mapping_attempted
            &&& next.phase is Idle
        }),
{
}

// ---- the driver's process ----

/// Without a connection, the supervisor connects where the driver can be reached. A driver of its
/// own that cannot be reached is waited for, and stopped 180 seconds after its start. Where there
/// is none, one is started, but not within one and a half seconds of the last attempt.
pub proof fn the_driver_is_kept_running(
    model: Model,
    ipc: bool,
    owned: bool,
    rules: SupervisorRules,
    now: Instant,
)
    requires
        model.phase is Probing,
    ensures
        ({
            let (next, output) = model.after(Happening::Probed { ipc, owned }, rules, now);
            let overdue = model.lifecycle.startup_wait_started matches Some(started)
                && started.nanos + 180_000_000_000 <= now.nanos;
            let recent = model.lifecycle.last_start_attempt matches Some(attempt) && now.nanos
                < attempt.nanos + 1_500_000_000;
            &&& !output.disconnect
            &&& output.publish is None
            &&& ipc ==> output.action == Doing::Connect(model.next_generation)
            &&& !ipc && owned && overdue ==> output.action == Doing::StopDaemon
            &&& !ipc && owned && !overdue ==> output.action == Doing::Wait(
                Duration { nanos: 1_200_000_000 },
            ) && output.state == Some("daemon-starting"@)
            &&& !ipc && !owned && !recent ==> output.action == Doing::StartDaemon
                && next.lifecycle.last_start_attempt == Some(now)
            &&& !ipc && !owned && recent ==> (output.action matches Doing::Wait(pause)
                && pause.nanos <= 1_500_000_000 && (model.lifecycle.last_start_attempt->0.nanos
                <= now.nanos ==> now.nanos + pause.nanos
                == model.lifecycle.last_start_attempt->0.nanos + 1_500_000_000))
        }),
{
}

/// A start that succeeds is counted from when it was asked for, and told; one that fails is told
/// too. After one of its own accord the supervisor waits, after one that the user asked for it
/// goes on at once.
pub proof fn starts_are_told(
    model: Model,
    at: Instant,
    manual: bool,
    started: bool,
    rules: SupervisorRules,
    now: Instant,
)
    requires
        model.phase == if manual {
            (Phase::ManualStart { at })
        } else {
            (Phase::OwnedStart { at })
        },
    ensures
        ({
            let (next, output) = model.after(Happening::DaemonStarted(started), rules, now);
            &&& output.state == Some(
                if started {
                    "daemon-starting"@
                } else {
                    "daemon-not-running"@
                },
            )
            &&& next.lifecycle.startup_wait_started == if started {
                Some(at)
            } else {
                None
            }
            &&& next.lifecycle.last_start_attempt == model.lifecycle.last_start_attempt
            &&& output.action == if manual {
                Doing::NextCommand
            } else {
                Doing::Wait(Duration { nanos: 1_200_000_000 })
            }
        }),
{
}

/// A request to start the driver without a connection starts it, as of now.
pub proof fn starts_are_made_on_request(model: Model, rules: SupervisorRules, now: Instant)
    requires
        model.phase is Commands,
        !model.connected,
    ensures
        ({
            let (next, output) = model.after(
                Happening::Command(Some(Order::StartDaemon)),
                rules,
                now,
            );
            &&& output == quiet(Doing::StartDaemon)
            &&& next.phase == (Phase::ManualStart { at: now })
            &&& next.lifecycle.last_start_attempt == Some(now)
        }),
        model.after(Happening::Command(None), rules, now).1 == quiet(Doing::Probe),
{
}

/// A driver that had to be stopped is told as crashed, and is given its whole time again once it
/// is started. A connection that fails is tried again after 1200 milliseconds. One that succeeds
/// starts with what the driver says now: its settings are read anew, and the search for a tablet
/// begins at once.
pub proof fn connections_start_anew(model: Model, rules: SupervisorRules, now: Instant)
    requires
        model.sound(),
        model.next_generation < u64::MAX,
    ensures
        model.phase is Stopping ==> {
            let (next, output) = model.after(Happening::DaemonStopped, rules, now);
            output == telling("daemon-crashed"@, Doing::NextCommand)
                && next.lifecycle.startup_wait_started is None
        },
        model.phase is Connecting ==> {
            let (next, output) = model.after(Happening::Connected(false), rules, now);
            output == telling("daemon-starting"@, Doing::Wait(Duration { nanos: 1_200_000_000 }))
                && !next.connected
        },
        model.phase is Connecting ==> {
            let (next, output) = model.after(Happening::Connected(true), rules, now);
            &&& next.connected && next.lifecycle.connected
            &&& output.state == Some("daemon-starting"@)
            &&& next.memory.driver_settings is None
            &&& next.memory.mapping_attempted == model.memory.mapping_attempted
            &&& next.lifecycle.startup_wait_started is None
            &&& next.detection.attempts == 0
            &&& next.detection.next == Some(now)
            &&& next.queued == model.queued
        },
{
}

/// A connection that the driver gave up is dropped and told, its settings are forgotten, and the
/// tablet is queried again over the next one.
pub proof fn lost_connections_are_dropped(model: Model, rules: SupervisorRules, now: Instant)
    requires
        model.phase is Commands,
    ensures
        ({
            let (next, output) = model.after(
                Happening::Command(
                    Some(Order::DriverDisconnected { generation: model.active_generation }),
                ),
                rules,
                now,
            );
            &&& output.disconnect
            &&& output.state == Some("daemon-starting"@)
            &&& output.action == Doing::NextCommand
            &&& !next.connected
            &&& !next.lifecycle.connected
            &&& next.refresh
            &&& next.memory.driver_settings is None
            &&& next.queued == model.queued
        }),
{
}

// ---- what a step leaves alone ----

/// A step that tells nothing drops nothing either, and one that tells a state tells that one.
pub proof fn steps_tell_what_they_are_for(state: Seq<char>, action: Doing)
    ensures
        !quiet(action).disconnect,
        quiet(action).state is None,
        quiet(action).publish is None,
        quiet(action).action == action,
        !telling(state, action).disconnect,
        telling(state, action).state == Some(state),
        telling(state, action).publish is None,
        telling(state, action).action == action,
{
}

/// An event changes only what it concerns. The connection is dropped only where the driver gave it
/// up or did not answer, and comes only with a new one; the user interface is told only of an
/// answer or of an area that was applied; the schedule of detections moves only with a detection,
/// an answer, a new connection or a rest; and the rest stays as it was.
pub proof fn events_change_what_they_concern(
    model: Model,
    event: Happening,
    rules: SupervisorRules,
    now: Instant,
)
    requires
        model.sound(),
        expects(model.phase, event),
        model.next_generation < u64::MAX,
    ensures
        ({
            let (next, output) = model.after(event, rules, now);
            let unanswered = (event matches Happening::Queried(None)) || (
            event matches Happening::SettingsRead(None)) || (event matches Happening::Applied(
                None,
            ));
            let reads = event matches Happening::SettingsRead(Some(_));
            let applied = event matches Happening::Applied(Some(_));
            let asks = event matches Happening::Command(Some(Order::ApplyArea(_)));
            let dropped = unanswered || event == Happening::Command(
                Some(Order::DriverDisconnected { generation: model.active_generation }),
            );
            let connects = event == Happening::Connected(true);
            let answered = event matches Happening::Queried(Some(_));
            let rests = event == Happening::Waited(WaitOutcome::Timeout) && model.phase is Idle;
            &&& output.disconnect == dropped
            &&& next.connected == (connects || model.connected && !dropped)
            &&& output.publish is Some <==> answered || applied
            &&& next.queued == model.queued || output.action is Apply || asks
            &&& !connects ==> next.active_generation == model.active_generation
                && next.next_generation == model.next_generation
            &&& !answered ==> next.no_tablet == model.no_tablet && next.last_rebuild
                == model.last_rebuild
            &&& !answered && !connects && !rests && event != Happening::Command(
                Some(Order::Detect),
            ) ==> next.detection == model.detection
            &&& !connects && !dropped && !(event is DaemonStarted) && !(output.action
                is StartDaemon) && !(event is DaemonStopped) && event != Happening::Connected(false) ==> next.lifecycle == model.lifecycle
            &&& next.memory == model.memory || dropped || connects || reads || applied || event
                == Happening::Command(Some(Order::Detect)) || event == Happening::Command(
                Some(Order::RefreshSettings),
            ) || event == Happening::Command(
                Some(Order::TabletChanged { generation: model.active_generation }),
            )
        }),
{
}

/// What a query found is told. Where it found no tablet, the next detection is due after the
/// pause of the burst, by the detections that were made. A tablet that was found ends the burst,
/// and the pipeline counts as rebuilt where it was found by a detection.
pub proof fn answers_are_told(
    model: Model,
    detect: bool,
    snapshot: Snapshot,
    rules: SupervisorRules,
    now: Instant,
)
    requires
        model.phase == (Phase::Querying { detect }),
        now.can_add(20_000),
    ensures
        ({
            let (next, output) = model.after(Happening::Queried(Some(snapshot)), rules, now);
            let made = model.detection.attempts;
            &&& !output.disconnect && output.state is None
            &&& output.publish == Some(News::Snapshot(snapshot))
            &&& next.connected == model.connected
            &&& next.no_tablet == (snapshot.state == "no-tablet"@)
            &&& next.memory == model.memory
            &&& next.lifecycle == model.lifecycle
            &&& next.detect == model.detect && next.refresh == model.refresh
            &&& next.last_rebuild == if detect && snapshot.state != "no-tablet"@ {
                now
            } else {
                model.last_rebuild
            }
            &&& snapshot.state != "no-tablet"@ ==> next.detection.attempts == 0
                && next.detection.next is None
            &&& snapshot.state == "no-tablet"@ ==> next.detection.attempts == made && (
            next.detection.next matches Some(due) && due.nanos == now.nanos + search_pause(
                made as nat,
            ))
            &&& model.queued is None ==> output.action is Wait && next.phase is Idle
            &&& model.queued matches Some(area) ==> (model.memory.driver_settings is Some
                ==> output.action == Doing::Apply(area) && next.queued is None && next.phase
                is Applying)
            &&& model.queued is Some && model.memory.driver_settings is None ==> output.action
                is ReadSettings && next.queued == model.queued && next.phase is ReadingSettings
        }),
{
}

/// Where the driver does not answer a query, a request for its settings or an area, the connection
/// is dropped and looked for anew; the settings are read again then. It is told but where only the
/// settings were missing.
pub proof fn missing_answers_drop_the_connection(
    model: Model,
    rules: SupervisorRules,
    now: Instant,
    event: Happening,
)
    requires
        expects(model.phase, event),
        (event matches Happening::Queried(None)) || (event matches Happening::SettingsRead(None))
            || (event matches Happening::Applied(None)),
    ensures
        ({
            let (next, output) = model.after(event, rules, now);
            &&& output.disconnect
            &&& output.action is NextCommand
            &&& output.publish is None
            &&& event is SettingsRead ==> output.state is None
            &&& !(event is SettingsRead) ==> output.state == Some("daemon-starting"@)
            &&& next.phase is Commands
            &&& !next.connected
            &&& !next.lifecycle.connected
            &&& next.lifecycle.last_start_attempt == model.lifecycle.last_start_attempt
            &&& next.lifecycle.startup_wait_started == model.lifecycle.startup_wait_started
            &&& next.refresh
            &&& next.detect == model.detect
            &&& next.queued == model.queued
            &&& next.memory.driver_settings is None
            &&& next.memory.mapping_attempted == model.memory.mapping_attempted
        }),
{
}

/// A command ends a wait and changes nothing; the end of all commands ends the supervisor. A pause
/// without a connection goes on to the commands however it ends.
pub proof fn waits_end(model: Model, how: WaitOutcome, rules: SupervisorRules, now: Instant)
    ensures
        model.phase is Reconnecting ==> model.after(Happening::Waited(how), rules, now).1.action
            is NextCommand && model.after(Happening::Waited(how), rules, now).0 == (Model {
            phase: Phase::Commands,
            ..model
        }),
        model.phase is Idle ==> model.after(
            Happening::Waited(WaitOutcome::Message),
            rules,
            now,
        ).1.action is NextCommand && model.after(
            Happening::Waited(WaitOutcome::Message),
            rules,
            now,
        ).0 == (Model { phase: Phase::Commands, ..model }),
        model.phase is Idle ==> model.after(
            Happening::Waited(WaitOutcome::Closed),
            rules,
            now,
        ).1.action is Stop && model.after(
            Happening::Waited(WaitOutcome::Closed),
            rules,
            now,
        ).0.phase is Stopped,
{
}

/// With a connection and no command left, a query that is wanted comes first, then an area, then
/// a rest. Without a connection it is looked for a driver.
pub proof fn work_is_done_in_order(model: Model, rules: SupervisorRules, now: Instant)
    requires
        model.phase is Commands,
    ensures
        ({
            let (next, output) = model.after(Happening::Command(None), rules, now);
            &&& !output.disconnect && output.state is None && output.publish is None
            &&& !model.connected ==> output.action is Probe && next == Model {
                phase: Phase::Probing,
                ..model
            }
            &&& model.connected && (model.detect || model.refresh) ==> output.action
                == Doing::Query(model.detect) && next == Model {
                phase: Phase::Querying { detect: model.detect },
                detect: false,
                refresh: false,
                ..model
            }
            &&& model.connected && !model.detect && !model.refresh ==> match model.queued {
                None => output.action is Wait && next == Model { phase: Phase::Idle, ..model },
                Some(area) => if model.memory.driver_settings is Some {
                    output.action == Doing::Apply(area) && next == Model {
                        phase: Phase::Applying,
                        queued: None,
                        ..model
                    }
                } else {
                    output.action is ReadSettings && next == Model {
                        phase: Phase::ReadingSettings,
                        ..model
                    }
                },
            }
        }),
{
}

/// The supervisor begins without a connection and with a query to make, under the number one, and
/// nothing was started yet.
pub proof fn supervisors_begin_without_a_connection(rules: SupervisorRules, now: Instant)
    ensures
        ({
            let model = Model::initial(rules, now);
            &&& model.phase is Commands
            &&& !model.connected
            &&& model.refresh
            &&& !model.detect
            &&& !model.no_tablet
            &&& model.queued is None
            &&& model.memory.driver_settings is None
            &&& model.memory.mapping_attempted == !rules.query.auto_map
            &&& model.next_generation == 1
            &&& model.active_generation == 0
            &&& model.lifecycle.last_start_attempt is None
            &&& model.lifecycle.startup_wait_started is None
            &&& !model.lifecycle.connected
            &&& model.detection.attempts == 0
            &&& model.detection.next == Some(now)
            &&& model.last_rebuild == now
        }),
{
}

/// What is said of a step follows its fields, each for its own.
pub proof fn steps_are_what_their_fields_say(step: SupervisorStep)
    ensures
        step@.disconnect == step.disconnect,
        step@.state is Some <==> step.state is Some,
        step.state matches Some(name) ==> step@.state == Some(name@),
        step@.publish is Some <==> step.publish is Some,
        step.publish matches Some(Publication::Snapshot(shown)) ==> step@.publish == Some(
            News::Snapshot(shown@),
        ),
        step.publish matches Some(Publication::Applied(area)) ==> step@.publish == Some(
            News::Applied(area@),
        ),
        step@.action == step.action@,
        step.action is NextCommand <==> step.action@ is NextCommand,
        step.action is Probe <==> step.action@ is Probe,
        step.action is StartDaemon <==> step.action@ is StartDaemon,
        step.action is StopDaemon <==> step.action@ is StopDaemon,
        step.action is ReadSettings <==> step.action@ is ReadSettings,
        step.action is Stop <==> step.action@ is Stop,
        step.action matches SupervisorAction::Connect(number) ==> step.action@ == Doing::Connect(
            number,
        ),
        step.action matches SupervisorAction::Query(detect) ==> step.action@ == Doing::Query(
            detect,
        ),
        step.action matches SupervisorAction::Apply(area) ==> step.action@ == Doing::Apply(area@),
        step.action matches SupervisorAction::Wait(span) ==> step.action@ == Doing::Wait(span),
{
}

} // verus!
