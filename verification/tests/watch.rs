use tabletflow::json::Json;
use tabletflow::models::{AreaRequest, BackendSnapshot};
use tabletflow::recovery::{RecoveryRules, StartOutcome};
use tabletflow::supervisor::{Publication, WaitOutcome};
use tabletflow::time::{Duration, Instant};
use tabletflow::watch::{
    WatchAction, WatchCommand, WatchEvent, WatchPhase, WatchRules, WatchStep, Watcher,
};

const PATIENT: WatchRules = WatchRules {
    recovery: RecoveryRules { restart_limit: None, tells_crashes: false },
    detect_on_change: false,
    auto_map: true,
    poll_with_tablet: true,
    forget_detection_on_connect: false,
};

const BOUNDED: WatchRules = WatchRules {
    recovery: RecoveryRules { restart_limit: Some(3), tells_crashes: true },
    detect_on_change: true,
    auto_map: false,
    poll_with_tablet: false,
    forget_detection_on_connect: true,
};

fn at(millis: u64) -> Instant {
    Instant { nanos: 0 }.after(Duration::from_millis(millis))
}

fn request(width: &str) -> AreaRequest {
    AreaRequest {
        tablet_name: "Pen".to_string(),
        width: width.to_string(),
        height: "1".to_string(),
        x: "1".to_string(),
        y: "1".to_string(),
        rotation: "0".to_string(),
        frequency: "500".to_string(),
        display: None,
    }
}

fn waits(step: &WatchStep) -> Option<Duration> {
    match &step.action {
        WatchAction::Wait(limit) => *limit,
        other => panic!("{other:?}"),
    }
}

/// A watcher that rests with a tablet.
fn resting(rules: WatchRules) -> Watcher {
    let mut watcher = Watcher::new(rules, at(0));
    let step = watcher.step(WatchEvent::Command(None), rules, at(0));
    assert!(matches!(step.action, WatchAction::Probe));
    let step = watcher.step(WatchEvent::Running(true), rules, at(0));
    assert!(matches!(step.action, WatchAction::Look));
    let step = watcher.step(WatchEvent::Looked { owned: false, ipc: true }, rules, at(0));
    assert!(matches!(step.action, WatchAction::Connect(1)));
    let step = watcher.step(WatchEvent::Connected(true), rules, at(0));
    assert_eq!(step.state, Some("daemon-starting"));
    assert!(matches!(step.action, WatchAction::Query(false)));
    let ready = BackendSnapshot::bare("ready");
    let step = watcher.step(WatchEvent::Queried(Some(ready)), rules, at(5));
    assert!(matches!(step.publish, Some(Publication::Snapshot(_))));
    let wanted = if rules.poll_with_tablet { Some(Duration::from_millis(900)) } else { None };
    assert_eq!(waits(&step), wanted);
    watcher
}

#[test]
fn starts_in_vain_end() {
    let mut watcher = Watcher::new(BOUNDED, at(0));
    for attempt in 0..3 {
        let now = at(attempt * 2_000);
        watcher.step(WatchEvent::Command(None), BOUNDED, now);
        let step = watcher.step(WatchEvent::Running(false), BOUNDED, now);
        assert!(matches!(step.action, WatchAction::StartDaemon));
        let step = watcher.step(WatchEvent::Started(StartOutcome::Failed), BOUNDED, now);
        assert_eq!(step.state, Some("daemon-crashed"));
        assert_eq!(waits(&step), Some(Duration::from_millis(1_500)));
        watcher.step(WatchEvent::Waited(WaitOutcome::Timeout), BOUNDED, now);
    }
    watcher.step(WatchEvent::Command(None), BOUNDED, at(90_000));
    let step = watcher.step(WatchEvent::Running(false), BOUNDED, at(90_000));
    assert_eq!(step.state, Some("daemon-crashed"));
    assert_eq!(waits(&step), Some(Duration::from_millis(1_500)));
    watcher.step(WatchEvent::Waited(WaitOutcome::Message), BOUNDED, at(90_000));
    let detect = WatchEvent::Command(Some(WatchCommand::Detect));
    watcher.step(detect, BOUNDED, at(90_000));
    watcher.step(WatchEvent::Command(None), BOUNDED, at(90_000));
    let step = watcher.step(WatchEvent::Running(false), BOUNDED, at(90_000));
    assert!(matches!(step.action, WatchAction::StartDaemon));
}

#[test]
fn an_overdue_driver_is_stopped() {
    let mut watcher = Watcher::new(PATIENT, at(0));
    watcher.step(WatchEvent::Command(None), PATIENT, at(0));
    watcher.step(WatchEvent::Running(false), PATIENT, at(0));
    let step = watcher.step(WatchEvent::Started(StartOutcome::Started), PATIENT, at(0));
    assert_eq!(step.state, Some("daemon-starting"));
    assert!(matches!(step.action, WatchAction::Look));
    watcher.step(WatchEvent::Looked { owned: true, ipc: false }, PATIENT, at(0));
    let step = watcher.step(WatchEvent::Connected(false), PATIENT, at(0));
    assert_eq!(waits(&step), Some(Duration::from_millis(1_200)));
    watcher.step(WatchEvent::Waited(WaitOutcome::Timeout), PATIENT, at(180_000));
    watcher.step(WatchEvent::Command(None), PATIENT, at(180_000));
    watcher.step(WatchEvent::Running(true), PATIENT, at(180_000));
    let look = WatchEvent::Looked { owned: true, ipc: false };
    let step = watcher.step(look, PATIENT, at(180_000));
    assert!(matches!(step.action, WatchAction::StopDaemon));
    let step = watcher.step(WatchEvent::DaemonStopped, PATIENT, at(180_000));
    assert_eq!(step.state, Some("daemon-crashed"));
    assert_eq!(watcher.phase, WatchPhase::Commands);
}

#[test]
fn the_area_that_was_sent_is_told() {
    let mut watcher = resting(PATIENT);
    watcher.step(WatchEvent::Waited(WaitOutcome::Message), PATIENT, at(10));
    let area = WatchEvent::Command(Some(WatchCommand::ApplyArea(request("7"))));
    watcher.step(area, PATIENT, at(10));
    let step = watcher.step(WatchEvent::Command(None), PATIENT, at(10));
    assert!(matches!(step.action, WatchAction::ReadSettings));
    let step = watcher.step(WatchEvent::SettingsRead(Some(Json::Null)), PATIENT, at(10));
    assert!(matches!(step.action, WatchAction::Apply(_)));
    let step = watcher.step(WatchEvent::Applied(Some(Json::Null)), PATIENT, at(10));
    match step.publish {
        Some(Publication::Applied(area)) => assert_eq!(area.width, "7"),
        other => panic!("{other:?}"),
    }
}

#[test]
fn an_unsent_area_is_kept() {
    for rules in [PATIENT, BOUNDED] {
        let mut watcher = resting(rules);
        watcher.step(WatchEvent::Waited(WaitOutcome::Message), rules, at(10));
        let area = WatchEvent::Command(Some(WatchCommand::ApplyArea(request("7"))));
        watcher.step(area, rules, at(10));
        watcher.step(WatchEvent::Command(None), rules, at(10));
        let step = watcher.step(WatchEvent::SettingsRead(None), rules, at(10));
        assert!(step.disconnect);
        assert_eq!(step.state, Some("daemon-starting"));
        assert_eq!(watcher.queued_apply.map(|area| area.width), Some("7".to_string()));
    }
}

#[test]
fn news_of_the_tablet_depend_on_the_rules() {
    for rules in [PATIENT, BOUNDED] {
        let mut watcher = resting(rules);
        watcher.step(WatchEvent::Waited(WaitOutcome::Message), rules, at(10));
        let stale = WatchEvent::Command(Some(WatchCommand::TabletChanged { generation: 4 }));
        watcher.step(stale, rules, at(10));
        assert!(!watcher.refresh_requested);
        let news = WatchEvent::Command(Some(WatchCommand::TabletChanged { generation: 1 }));
        watcher.step(news, rules, at(10));
        assert_eq!(watcher.memory.mapping_attempted, !rules.auto_map);
        match watcher.step(WatchEvent::Command(None), rules, at(10)).action {
            WatchAction::Query(detect) => assert_eq!(detect, rules.detect_on_change),
            other => panic!("{other:?}"),
        }
        let step = watcher.step(WatchEvent::Queried(None), rules, at(20));
        assert!(step.disconnect);
        assert_eq!(watcher.recovery.startup_wait_started, Some(at(20)));
    }
}

#[test]
fn a_missing_tablet_is_watched_for() {
    let mut watcher = resting(BOUNDED);
    watcher.step(WatchEvent::Waited(WaitOutcome::Message), BOUNDED, at(10));
    let detect = WatchEvent::Command(Some(WatchCommand::Detect));
    watcher.step(detect, BOUNDED, at(10));
    watcher.step(WatchEvent::Command(None), BOUNDED, at(10));
    let nothing = BackendSnapshot::bare("no-tablet");
    let step = watcher.step(WatchEvent::Queried(Some(nothing)), BOUNDED, at(10));
    assert_eq!(waits(&step), Some(Duration::from_millis(900)));
    watcher.step(WatchEvent::Waited(WaitOutcome::Timeout), BOUNDED, at(910));
    let step = watcher.step(WatchEvent::Command(None), BOUNDED, at(910));
    assert!(matches!(step.action, WatchAction::Query(false)));
    let mut watcher = resting(BOUNDED);
    let step = watcher.step(WatchEvent::Waited(WaitOutcome::Closed), BOUNDED, at(10));
    assert!(matches!(step.action, WatchAction::Stop));
}
