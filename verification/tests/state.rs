use tabletflow::state::{
    ConnectionAction, DaemonLifecycle, DetectionSchedule, DETECT_RETRY_MILLIS, IPC_STARTUP_MILLIS,
    START_RETRY_MILLIS, STEADY_STATE_DETECT_MILLIS, TABLET_POLL_MILLIS,
};
use tabletflow::time::{Duration, Instant};

fn start() -> Instant {
    Instant { nanos: 5_000_000_000 }
}

fn later(instant: Instant, millis: u64) -> Instant {
    instant.after(Duration::from_millis(millis))
}

fn retries_back_off() {
    let start = start();
    let mut schedule = DetectionSchedule::new(start);
    for delay in DETECT_RETRY_MILLIS {
        let due = later(start, delay);
        schedule.next = Some(due);
        assert!(schedule.take_due(due));
        schedule.no_tablet(due);
    }
    let due = later(later(start, STEADY_STATE_DETECT_MILLIS), 30_000);
    schedule.next = Some(due);
    assert!(schedule.take_due(due));
}

#[test]
fn backend_detection_retries_back_off_then_enter_steady_state() {
    retries_back_off();
}

#[test]
fn state_detection_retries_back_off_then_enter_steady_state() {
    retries_back_off();
}

#[test]
fn backend_finding_a_tablet_stops_detection_retries() {
    let now = start();
    let mut schedule = DetectionSchedule::new(now);
    schedule.tablet_found();
    assert!(!schedule.take_due(later(now, 300_000)));
}

#[test]
fn state_finding_a_tablet_stops_detection_retries() {
    let now = start();
    let mut schedule = DetectionSchedule::new(now);
    schedule.tablet_found();
    assert!(!schedule.take_due(later(now, 300_000)));
}

#[test]
fn windows_backend_finding_a_tablet_stops_detection_retries() {
    let now = start();
    let mut schedule = DetectionSchedule::new(now);
    schedule.tablet_found();
    assert!(!schedule.take_due(later(now, 300_000)));
    assert_eq!(schedule.wait_duration(now), Duration::from_millis(TABLET_POLL_MILLIS));
}

#[test]
fn detection_burst_is_bounded_and_backed_off() {
    let start = start();
    let mut schedule = DetectionSchedule::new(start);
    for attempt in 0..DETECT_RETRY_MILLIS.len() {
        let mut sum = 0;
        for delay in &DETECT_RETRY_MILLIS[..=attempt] {
            sum += delay;
        }
        let due = later(start, sum);
        schedule.next = Some(due);
        assert!(schedule.take_due(due));
        schedule.no_tablet(due);
    }
    assert!(!schedule.take_due(later(start, 1_000)));
    schedule.no_tablet(later(start, 1_000));
    let steady_state_due = later(later(start, 1_000), STEADY_STATE_DETECT_MILLIS);
    assert!(schedule.take_due(steady_state_due));
    schedule.no_tablet(steady_state_due);
    assert!(schedule.take_due(later(steady_state_due, STEADY_STATE_DETECT_MILLIS)));
}

#[test]
fn ipc_already_available_connects_without_spawn() {
    let lifecycle = DaemonLifecycle::new();
    assert_eq!(lifecycle.next_action(start(), true, false), ConnectionAction::Connect);
}

#[test]
fn no_daemon_spawns_and_connects_when_ipc_appears() {
    let now = start();
    let mut lifecycle = DaemonLifecycle::new();
    assert_eq!(lifecycle.next_action(now, false, false), ConnectionAction::StartOwnedDaemon);
    lifecycle.start_attempted(now);
    lifecycle.spawn_succeeded(now);
    assert_eq!(lifecycle.next_action(later(now, 10), true, true), ConnectionAction::Connect);
}

#[test]
fn spawn_failure_is_bounded_by_retry_interval() {
    let now = start();
    let mut lifecycle = DaemonLifecycle::new();
    lifecycle.start_attempted(now);
    lifecycle.spawn_failed();
    assert_eq!(
        lifecycle.next_action(later(now, 100), false, false),
        ConnectionAction::WaitForRetry
    );
    assert_eq!(
        lifecycle.next_action(later(now, START_RETRY_MILLIS), false, false),
        ConnectionAction::StartOwnedDaemon
    );
}

#[test]
fn owned_daemon_waits_for_ipc_then_restarts_after_deadline() {
    let now = start();
    let mut lifecycle = DaemonLifecycle::new();
    lifecycle.start_attempted(now);
    lifecycle.spawn_succeeded(now);
    assert_eq!(
        lifecycle.next_action(later(now, 1_000), false, true),
        ConnectionAction::WaitForIpc
    );
    assert_eq!(
        lifecycle.next_action(later(now, IPC_STARTUP_MILLIS), false, true),
        ConnectionAction::RestartOwnedDaemon
    );
}

#[test]
fn disconnect_returns_to_reconnect_flow() {
    let now = start();
    let mut lifecycle = DaemonLifecycle::new();
    lifecycle.connected();
    assert!(lifecycle.is_connected());
    lifecycle.disconnected();
    assert!(!lifecycle.is_connected());
    assert_eq!(lifecycle.next_action(now, true, false), ConnectionAction::Connect);
}

#[test]
fn healthy_external_daemon_is_reused() {
    let lifecycle = DaemonLifecycle::new();
    assert_eq!(lifecycle.next_action(start(), true, false), ConnectionAction::Connect);
}

#[test]
fn stale_external_process_without_ipc_cannot_block_startup() {
    let lifecycle = DaemonLifecycle::new();
    // Whether another process runs is deliberately not an input: only a driver that can be
    // reached, or one of its own, counts.
    assert_eq!(lifecycle.next_action(start(), false, false), ConnectionAction::StartOwnedDaemon);
}

#[test]
fn retry_wait_is_what_is_left_of_the_interval() {
    let now = start();
    let mut lifecycle = DaemonLifecycle::new();
    assert_eq!(lifecycle.retry_wait(now), Duration::from_millis(0));
    lifecycle.start_attempted(now);
    assert_eq!(lifecycle.retry_wait(later(now, 100)), Duration::from_millis(1_400));
    assert_eq!(lifecycle.retry_wait(later(now, 9_000)), Duration::from_millis(0));
}

#[test]
fn a_stopped_daemon_may_be_started_again() {
    let now = start();
    let mut lifecycle = DaemonLifecycle::new();
    lifecycle.start_attempted(now);
    lifecycle.spawn_succeeded(now);
    lifecycle.owned_daemon_stopped();
    assert_eq!(lifecycle.startup_wait_started, None);
    assert_eq!(
        lifecycle.next_action(later(now, 1_500), false, false),
        ConnectionAction::StartOwnedDaemon
    );
}

#[test]
fn explicit_detection_delays_the_next_automatic_one() {
    let now = start();
    let mut schedule = DetectionSchedule::new(now);
    schedule.reset_after_explicit_detect(now);
    assert!(!schedule.take_due(later(now, 1_999)));
    assert!(schedule.take_due(later(now, 2_000)));
}

#[test]
fn waits_never_exceed_the_poll_interval() {
    let now = start();
    let mut schedule = DetectionSchedule::new(now);
    assert_eq!(schedule.wait_duration(now), Duration::from_millis(0));
    schedule.next = Some(later(now, 300));
    assert_eq!(schedule.wait_duration(now), Duration::from_millis(300));
    schedule.next = Some(later(now, 60_000));
    assert_eq!(schedule.wait_duration(now), Duration::from_millis(TABLET_POLL_MILLIS));
}

#[test]
fn spans_of_time_saturate() {
    let now = start();
    assert_eq!(now.saturating_duration_since(later(now, 1)), Duration::from_millis(0));
    assert_eq!(later(now, 7).saturating_duration_since(now), Duration::from_millis(7));
    assert_eq!(Duration::from_secs(2), Duration::from_millis(2_000));
    assert_eq!(
        Duration::from_millis(5).saturating_sub(Duration::from_millis(7)),
        Duration::from_millis(0)
    );
    assert_eq!(
        Duration::from_millis(5).min(Duration::from_millis(7)),
        Duration::from_millis(5)
    );
    assert!(Duration::from_millis(0).is_zero());
}
