use tabletflow::recovery::{
    Recovery, RecoveryRules, RecoveryStep, StartOutcome, MAX_AUTOMATIC_RESTARTS,
};
use tabletflow::time::{Duration, Instant};

const BOUNDED: RecoveryRules = RecoveryRules {
    restart_limit: Some(MAX_AUTOMATIC_RESTARTS),
    tells_crashes: true,
};

const PATIENT: RecoveryRules = RecoveryRules { restart_limit: None, tells_crashes: false };

fn at(millis: u64) -> Instant {
    Instant { nanos: 0 }.after(Duration::from_millis(millis))
}

#[test]
fn automatic_restarts_are_bounded() {
    let mut recovery = Recovery::new(at(0));
    for attempt in 0..3u64 {
        let now = at(attempt * 2_000);
        assert_eq!(recovery.step(false, BOUNDED, now), RecoveryStep::Start);
        assert_eq!(recovery.started(StartOutcome::Failed, BOUNDED, now), Some("daemon-crashed"));
        assert_eq!(recovery.restarts as u64, attempt + 1);
    }
    assert_eq!(recovery.step(false, BOUNDED, at(60_000)), RecoveryStep::GiveUp);
    recovery.forgive();
    assert_eq!(recovery.step(false, BOUNDED, at(60_000)), RecoveryStep::Start);
}

#[test]
fn unbounded_recovery_only_spaces_its_starts() {
    let mut recovery = Recovery::new(at(0));
    assert_eq!(recovery.step(false, PATIENT, at(100)), RecoveryStep::Start);
    assert_eq!(
        recovery.started(StartOutcome::Failed, PATIENT, at(100)),
        Some("daemon-not-running")
    );
    assert_eq!(recovery.restarts, 0);
    assert_eq!(
        recovery.step(false, PATIENT, at(600)),
        RecoveryStep::Pause(Duration::from_millis(1_000))
    );
    assert_eq!(recovery.step(false, PATIENT, at(1_600)), RecoveryStep::Start);
}

#[test]
fn a_running_driver_is_left_alone() {
    let mut recovery = Recovery::new(at(0));
    recovery.restarts = 9;
    assert_eq!(recovery.step(true, BOUNDED, at(0)), RecoveryStep::Proceed);
}

#[test]
fn outcomes_of_a_start_are_told_apart() {
    let mut recovery = Recovery::new(at(0));
    assert_eq!(
        recovery.started(StartOutcome::Started, BOUNDED, at(10)),
        Some("daemon-starting")
    );
    assert_eq!(recovery.startup_wait_started, Some(at(10)));
    assert_eq!(recovery.started(StartOutcome::AlreadyStarting, BOUNDED, at(20)), None);
    assert_eq!(recovery.startup_wait_started, Some(at(10)));
    assert_eq!(recovery.started(StartOutcome::AlreadyConnected, BOUNDED, at(30)), None);
    assert_eq!(recovery.startup_wait_started, None);
    assert_eq!(recovery.started(StartOutcome::AlreadyStarting, BOUNDED, at(40)), None);
    assert_eq!(recovery.startup_wait_started, Some(at(40)));
    assert_eq!(
        recovery.started(StartOutcome::Missing, BOUNDED, at(50)),
        Some("daemon-not-running")
    );
    assert_eq!(recovery.restarts, 2);
}

#[test]
fn only_an_own_unreachable_driver_is_overdue() {
    let mut recovery = Recovery::new(at(0));
    assert!(!recovery.overdue(true, false, at(179_999)));
    assert!(recovery.overdue(true, false, at(180_000)));
    assert!(!recovery.overdue(false, false, at(180_000)));
    assert!(!recovery.overdue(true, true, at(180_000)));
    recovery.startup_over();
    assert!(!recovery.overdue(true, false, at(999_000)));
    recovery.connection_lost(at(999_000));
    assert!(!recovery.overdue(true, false, at(1_000_000)));
    assert!(recovery.overdue(true, false, at(1_179_000)));
}
