use tabletflow::json::Json;
use tabletflow::models::{AreaRequest, BackendCommand, BackendSnapshot};
use tabletflow::query::QueryRules;
use tabletflow::supervisor::{
    Phase, Publication, Supervisor, SupervisorAction, SupervisorEvent, SupervisorRules,
    SupervisorStep, WaitOutcome,
};
use tabletflow::time::{Duration, Instant};

const MAPPING: SupervisorRules = SupervisorRules {
    query: QueryRules { restore_pipeline: false, auto_map: true },
    rebuild_interval: Duration { nanos: 60_000_000_000 },
};

const RESTORING: SupervisorRules = SupervisorRules {
    query: QueryRules { restore_pipeline: true, auto_map: false },
    rebuild_interval: Duration { nanos: 60_000_000_000 },
};

fn at(millis: u64) -> Instant {
    Instant { nanos: 0 }.after(Duration::from_millis(millis))
}

fn request(width: &str) -> AreaRequest {
    AreaRequest {
        tablet_name: "Pen".to_string(),
        width: width.to_string(),
        height: "1".to_string(),
        x: "1".to_string(),
        y: "1".to_string(),
        rotation: "0".to_string(),
        frequency: "500".to_string(),
        display: None,
    }
}

fn command(
    supervisor: &mut Supervisor,
    rules: SupervisorRules,
    command: BackendCommand,
    now: Instant,
) -> SupervisorStep {
    supervisor.step(SupervisorEvent::Command(Some(command)), rules, now)
}

fn no_command(supervisor: &mut Supervisor, rules: SupervisorRules, now: Instant) -> SupervisorStep {
    supervisor.step(SupervisorEvent::Command(None), rules, now)
}

/// A supervisor that asks for its first query.
fn connected(rules: SupervisorRules) -> Supervisor {
    let mut supervisor = Supervisor::new(rules, at(0));
    let step = no_command(&mut supervisor, rules, at(0));
    assert!(matches!(step.action, SupervisorAction::Probe));
    let step = supervisor.step(SupervisorEvent::Probed { ipc: true, owned: false }, rules, at(0));
    assert!(matches!(step.action, SupervisorAction::Connect(1)));
    let step = supervisor.step(SupervisorEvent::Connected(true), rules, at(0));
    assert_eq!(step.state, Some("daemon-starting"));
    match step.action {
        SupervisorAction::Query(detect) => assert_eq!(detect, rules.query.restore_pipeline),
        other => panic!("{other:?}"),
    }
    supervisor
}

/// A supervisor that rests with a tablet.
fn resting(rules: SupervisorRules) -> Supervisor {
    let mut supervisor = connected(rules);
    let step = supervisor.step(
        SupervisorEvent::Queried(Some(BackendSnapshot::bare("ready"))),
        rules,
        at(10),
    );
    assert!(matches!(step.publish, Some(Publication::Snapshot(_))));
    match step.action {
        SupervisorAction::Wait(span) => assert_eq!(span, Duration::from_millis(900)),
        other => panic!("{other:?}"),
    }
    supervisor
}

#[test]
fn a_missing_driver_is_started_and_waited_for() {
    let mut supervisor = Supervisor::new(MAPPING, at(0));
    no_command(&mut supervisor, MAPPING, at(0));
    let nothing = SupervisorEvent::Probed { ipc: false, owned: false };
    let step = supervisor.step(nothing, MAPPING, at(0));
    assert!(matches!(step.action, SupervisorAction::StartDaemon));
    let step = supervisor.step(SupervisorEvent::DaemonStarted(false), MAPPING, at(5));
    assert_eq!(step.state, Some("daemon-not-running"));
    match step.action {
        SupervisorAction::Wait(span) => assert_eq!(span, Duration::from_millis(1_200)),
        other => panic!("{other:?}"),
    }
    let step = supervisor.step(SupervisorEvent::Waited(WaitOutcome::Timeout), MAPPING, at(1_205));
    assert!(matches!(step.action, SupervisorAction::NextCommand));
    no_command(&mut supervisor, MAPPING, at(1_205));
    let nothing = SupervisorEvent::Probed { ipc: false, owned: false };
    match supervisor.step(nothing, MAPPING, at(1_205)).action {
        SupervisorAction::Wait(span) => assert_eq!(span, Duration::from_millis(295)),
        other => panic!("{other:?}"),
    }
}

#[test]
fn an_unreachable_driver_is_restarted() {
    let mut supervisor = Supervisor::new(MAPPING, at(0));
    no_command(&mut supervisor, MAPPING, at(0));
    supervisor.step(SupervisorEvent::Probed { ipc: false, owned: false }, MAPPING, at(0));
    let step = supervisor.step(SupervisorEvent::DaemonStarted(true), MAPPING, at(0));
    assert_eq!(step.state, Some("daemon-starting"));
    supervisor.step(SupervisorEvent::Waited(WaitOutcome::Timeout), MAPPING, at(1_200));
    no_command(&mut supervisor, MAPPING, at(1_200));
    let running = SupervisorEvent::Probed { ipc: false, owned: true };
    let step = supervisor.step(running, MAPPING, at(1_200));
    assert_eq!(step.state, Some("daemon-starting"));
    assert!(matches!(step.action, SupervisorAction::Wait(_)));
    supervisor.step(SupervisorEvent::Waited(WaitOutcome::Message), MAPPING, at(180_000));
    no_command(&mut supervisor, MAPPING, at(180_000));
    let running = SupervisorEvent::Probed { ipc: false, owned: true };
    let step = supervisor.step(running, MAPPING, at(180_000));
    assert!(matches!(step.action, SupervisorAction::StopDaemon));
    let step = supervisor.step(SupervisorEvent::DaemonStopped, MAPPING, at(180_000));
    assert_eq!(step.state, Some("daemon-crashed"));
    assert!(matches!(step.action, SupervisorAction::NextCommand));
}

#[test]
fn the_user_can_start_the_driver() {
    let mut supervisor = Supervisor::new(MAPPING, at(0));
    let step = command(&mut supervisor, MAPPING, BackendCommand::StartDaemon, at(0));
    assert!(matches!(step.action, SupervisorAction::StartDaemon));
    let step = supervisor.step(SupervisorEvent::DaemonStarted(true), MAPPING, at(0));
    assert_eq!(step.state, Some("daemon-starting"));
    assert!(matches!(step.action, SupervisorAction::NextCommand));
    let mut supervisor = resting(MAPPING);
    supervisor.step(SupervisorEvent::Waited(WaitOutcome::Message), MAPPING, at(20));
    let step = command(&mut supervisor, MAPPING, BackendCommand::StartDaemon, at(20));
    assert!(matches!(step.action, SupervisorAction::NextCommand));
    let step = no_command(&mut supervisor, MAPPING, at(20));
    assert!(matches!(step.action, SupervisorAction::Query(true)));
}

#[test]
fn shutdown_ends_the_supervisor() {
    let mut supervisor = resting(MAPPING);
    supervisor.step(SupervisorEvent::Waited(WaitOutcome::Message), MAPPING, at(20));
    let step = command(&mut supervisor, MAPPING, BackendCommand::Shutdown, at(20));
    assert!(matches!(step.action, SupervisorAction::Stop));
    assert_eq!(supervisor.phase, Phase::Stopped);
    let mut supervisor = resting(MAPPING);
    let step = supervisor.step(SupervisorEvent::Waited(WaitOutcome::Closed), MAPPING, at(20));
    assert!(matches!(step.action, SupervisorAction::Stop));
}

#[test]
fn news_of_an_old_connection_is_ignored() {
    let mut supervisor = resting(MAPPING);
    supervisor.step(SupervisorEvent::Waited(WaitOutcome::Message), MAPPING, at(20));
    let stale = BackendCommand::DriverDisconnected { generation: 0, reason: String::new() };
    let step = command(&mut supervisor, MAPPING, stale, at(20));
    assert!(!step.disconnect);
    assert_eq!(step.state, None);
    let stale = BackendCommand::TabletChanged { generation: 7 };
    command(&mut supervisor, MAPPING, stale, at(20));
    assert!(!supervisor.refresh_requested);
    let news = BackendCommand::DriverDisconnected { generation: 1, reason: String::new() };
    let step = command(&mut supervisor, MAPPING, news, at(20));
    assert!(step.disconnect);
    assert_eq!(step.state, Some("daemon-starting"));
    let step = no_command(&mut supervisor, MAPPING, at(20));
    assert!(matches!(step.action, SupervisorAction::Probe));
    supervisor.step(SupervisorEvent::Probed { ipc: true, owned: false }, MAPPING, at(20));
    supervisor.step(SupervisorEvent::Connected(true), MAPPING, at(20));
    assert_eq!(supervisor.active_generation, 2);
}

#[test]
fn a_changed_tablet_is_queried() {
    let mut supervisor = resting(RESTORING);
    supervisor.memory.driver_settings = Some(Json::Null);
    supervisor.step(SupervisorEvent::Waited(WaitOutcome::Message), RESTORING, at(20));
    let news = BackendCommand::TabletChanged { generation: 1 };
    command(&mut supervisor, RESTORING, news, at(20));
    assert!(supervisor.memory.driver_settings.is_none());
    let step = no_command(&mut supervisor, RESTORING, at(20));
    assert!(matches!(step.action, SupervisorAction::Query(true)));
}

#[test]
fn a_missing_tablet_is_looked_for_again() {
    let mut supervisor = connected(MAPPING);
    let step = supervisor.step(
        SupervisorEvent::Queried(Some(BackendSnapshot::bare("no-tablet"))),
        MAPPING,
        at(0),
    );
    match step.action {
        SupervisorAction::Wait(span) => assert_eq!(span, Duration::from_millis(0)),
        other => panic!("{other:?}"),
    }
    supervisor.step(SupervisorEvent::Waited(WaitOutcome::Timeout), MAPPING, at(0));
    let step = no_command(&mut supervisor, MAPPING, at(0));
    assert!(matches!(step.action, SupervisorAction::Query(true)));
}

#[test]
fn the_pipeline_is_rebuilt_now_and_then() {
    let mut supervisor = resting(RESTORING);
    supervisor.step(SupervisorEvent::Waited(WaitOutcome::Timeout), RESTORING, at(910));
    let step = no_command(&mut supervisor, RESTORING, at(910));
    assert!(matches!(step.action, SupervisorAction::Query(false)));
    supervisor.step(
        SupervisorEvent::Queried(Some(BackendSnapshot::bare("ready"))),
        RESTORING,
        at(920),
    );
    supervisor.step(SupervisorEvent::Waited(WaitOutcome::Timeout), RESTORING, at(60_010));
    let step = no_command(&mut supervisor, RESTORING, at(60_010));
    assert!(matches!(step.action, SupervisorAction::Query(true)));
}

#[test]
fn a_failed_query_starts_over() {
    let mut supervisor = connected(MAPPING);
    let step = supervisor.step(SupervisorEvent::Queried(None), MAPPING, at(0));
    assert!(step.disconnect);
    assert_eq!(step.state, Some("daemon-starting"));
    let step = no_command(&mut supervisor, MAPPING, at(0));
    assert!(matches!(step.action, SupervisorAction::Probe));
    supervisor.step(SupervisorEvent::Probed { ipc: true, owned: true }, MAPPING, at(0));
    let step = supervisor.step(SupervisorEvent::Connected(false), MAPPING, at(0));
    assert_eq!(step.state, Some("daemon-starting"));
    assert!(matches!(step.action, SupervisorAction::Wait(_)));
}

#[test]
fn only_a_confirmed_area_is_published() {
    let mut supervisor = resting(MAPPING);
    supervisor.step(SupervisorEvent::Waited(WaitOutcome::Message), MAPPING, at(20));
    command(&mut supervisor, MAPPING, BackendCommand::ApplyArea(request("1")), at(20));
    command(&mut supervisor, MAPPING, BackendCommand::ApplyArea(request("2")), at(20));
    let step = no_command(&mut supervisor, MAPPING, at(20));
    assert!(matches!(step.action, SupervisorAction::ReadSettings));
    let step = supervisor.step(SupervisorEvent::SettingsRead(Some(Json::Null)), MAPPING, at(30));
    match step.action {
        SupervisorAction::Apply(area) => assert_eq!(area.width, "2"),
        other => panic!("{other:?}"),
    }
    let confirmed = SupervisorEvent::Applied(Some((request("2.00"), Json::Null)));
    let step = supervisor.step(confirmed, MAPPING, at(40));
    match step.publish {
        Some(Publication::Applied(area)) => assert_eq!(area.width, "2.00"),
        other => panic!("{other:?}"),
    }
    supervisor.step(SupervisorEvent::Waited(WaitOutcome::Message), MAPPING, at(50));
    command(&mut supervisor, MAPPING, BackendCommand::ApplyArea(request("3")), at(50));
    let step = no_command(&mut supervisor, MAPPING, at(50));
    assert!(matches!(step.action, SupervisorAction::Apply(_)));
    let step = supervisor.step(SupervisorEvent::Applied(None), MAPPING, at(60));
    assert!(step.publish.is_none() && step.disconnect);
    assert_eq!(step.state, Some("daemon-starting"));
}

#[test]
fn an_area_outlives_settings_that_cannot_be_read() {
    let mut supervisor = resting(MAPPING);
    supervisor.step(SupervisorEvent::Waited(WaitOutcome::Message), MAPPING, at(20));
    command(&mut supervisor, MAPPING, BackendCommand::ApplyArea(request("1")), at(20));
    no_command(&mut supervisor, MAPPING, at(20));
    let step = supervisor.step(SupervisorEvent::SettingsRead(None), MAPPING, at(30));
    assert!(step.disconnect);
    assert_eq!(step.state, None);
    assert_eq!(supervisor.queued_apply.as_ref().unwrap().width, "1");
}

#[test]
fn settings_are_read_again_on_request() {
    let mut supervisor = resting(MAPPING);
    supervisor.memory.driver_settings = Some(Json::Null);
    supervisor.memory.mapping_attempted = true;
    supervisor.step(SupervisorEvent::Waited(WaitOutcome::Message), MAPPING, at(20));
    command(&mut supervisor, MAPPING, BackendCommand::RefreshSettings, at(20));
    assert!(supervisor.memory.driver_settings.is_none());
    assert!(supervisor.memory.mapping_attempted);
    command(&mut supervisor, MAPPING, BackendCommand::Detect, at(20));
    assert!(!supervisor.memory.mapping_attempted);
    let step = no_command(&mut supervisor, MAPPING, at(20));
    assert!(matches!(step.action, SupervisorAction::Query(true)));
}
