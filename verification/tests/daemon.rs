use tabletflow::daemon::{
    architecture, backend_state, candidates_on_linux, candidates_on_mac, candidates_on_windows,
    daemon_candidates, daemon_is_running, daemon_path, embedded_daemon_path, judge, needs_dotnet,
    owned_is_running, plain_path, process_ids, required_file, run_self_test, same_executable,
    start, start_daemon, stop, validate_bundle, validate_daemon_bundle, Architecture, Argument, BundleError,
    ChildState, OwnedDaemon, PackageFacts, SelfTest, SelfTestCall, SelfTestStep, SelfTestVerdict,
    ShortTestCall, ShortTestVerdict, StartPlan, StartResult, UnixSystem, REQUIRED_COUNT,
    SELF_TEST_CALL_MILLIS, SELF_TEST_MILLIS, SHORT_SELF_TEST_MILLIS,
};
use tabletflow::json::Json;
use tabletflow::platform::{persisted_settings_path, Base, Environment};
use tabletflow::time::{Duration, Instant};

const EVERYTHING: PackageFacts = PackageFacts {
    executable_directory: true,
    contents_directory: true,
    resource_directory: true,
    named_daemon: true,
};

const NOTHING: PackageFacts = PackageFacts {
    executable_directory: false,
    contents_directory: false,
    resource_directory: false,
    named_daemon: false,
};

const HOME: Environment = Environment {
    home: true,
    config_home: false,
    data_home: false,
    user_profile: false,
    app_data: false,
    local_app_data: false,
};

fn at(millis: u64) -> Instant {
    Instant { nanos: 0 }.after(Duration::from_millis(millis))
}

#[test]
fn builds_are_named_by_architecture() {
    assert_eq!(architecture("aarch64"), Architecture::Arm64);
    assert_eq!(architecture("x86"), Architecture::X86);
    assert_eq!(architecture("x86_64"), Architecture::X64);
    assert_eq!(architecture("riscv64"), Architecture::Other);
    let built = candidates_on_linux(NOTHING, Architecture::Arm64);
    assert_eq!(built.len(), 2);
    assert_eq!(built[0].relative, "target/otd/linux-arm64/OpenTabletDriver.Daemon");
    assert_eq!(built[1].relative, "target/otd/linux-arm64/OpenTabletDriver.Daemon.dll");
    let built = candidates_on_mac(NOTHING, Architecture::X86);
    assert_eq!(built[0].relative, "target/otd/osx-x64/OpenTabletDriver.Daemon");
    let built = candidates_on_windows(NOTHING, Architecture::Other);
    assert_eq!(built.len(), 1);
    assert_eq!(built[0].relative, "target/otd/win-x64/OpenTabletDriver.Daemon.exe");
    assert_eq!(built[0].base, Base::SourceDirectory);
}

#[test]
fn a_package_offers_its_own_daemon() {
    let linux = candidates_on_linux(EVERYTHING, Architecture::Other);
    assert_eq!(linux.len(), 8);
    assert_eq!(linux[2].base, Base::ExecutableDirectory);
    assert_eq!(linux[7].base, Base::ResourceDirectory);
    let mac = candidates_on_mac(EVERYTHING, Architecture::Arm64);
    assert_eq!(mac.len(), 10);
    assert_eq!(mac[0].base, Base::ExecutableDirectory);
    assert_eq!(mac[4].relative, "Resources/OpenTabletDriver.Daemon");
    assert_eq!(mac[9].base, Base::SourceDirectory);
    let windows = candidates_on_windows(EVERYTHING, Architecture::Other);
    assert_eq!(windows.len(), 5);
    assert_eq!(windows[0].base, Base::NamedDaemon);
    assert_eq!(windows[2].relative, "resources/OpenTabletDriver.Daemon.exe");
}

#[test]
fn the_first_daemon_that_is_there_is_taken() {
    assert_eq!(daemon_path(&vec![false, true, true]), Some(1));
    assert_eq!(daemon_path(&vec![false, false]), None);
    assert_eq!(embedded_daemon_path(&vec![true]), Some(0));
    assert!(needs_dotnet("OpenTabletDriver.Daemon.dll"));
    assert!(!needs_dotnet("OpenTabletDriver.Daemon"));
    assert!(!needs_dotnet("dll"));
}

#[test]
fn missing_parts_are_named() {
    let mut present = vec![true; REQUIRED_COUNT];
    assert!(validate_daemon_bundle(&present).is_ok());
    assert!(matches!(validate_bundle(&vec![false, true], &present), Ok(1)));
    present[0] = false;
    present[12] = false;
    match validate_daemon_bundle(&present) {
        Err(BundleError::Incomplete(names)) => {
            assert_eq!(names, format!("{}, coreclr.dll", required_file(0)))
        }
        other => panic!("{other:?}"),
    }
    assert!(matches!(
        validate_bundle(&vec![false], &present),
        Err(BundleError::DaemonMissing)
    ));
    let message = validate_bundle(&vec![true], &present).unwrap_err().message();
    assert!(message.contains("OpenTabletDriver.Daemon.exe, coreclr.dll"));
}

#[test]
fn a_second_daemon_is_not_started() {
    assert_eq!(start_daemon(true, true, true), StartResult::AlreadyConnected);
    assert_eq!(start_daemon(false, true, false), StartResult::AlreadyStarting);
    assert_eq!(start_daemon(false, false, true), StartResult::AlreadyStarting);
    assert_eq!(start_daemon(false, false, false), StartResult::Started);
    assert!(daemon_is_running(false, true, false));
    assert!(!daemon_is_running(false, false, false));
    assert_eq!(backend_state(true), "daemon-running");
    assert_eq!(backend_state(false), "daemon-not-running");
}

#[test]
fn processes_are_read_from_a_listing() {
    assert_eq!(process_ids(" 12\nx\n4294967296\n+7 \n"), vec![12, 7]);
    assert!(process_ids("").is_empty());
}

#[test]
fn paths_of_executables_are_compared_loosely() {
    assert_eq!(plain_path("\\\\?\\C:/a/B.exe"), "C:\\a\\B.exe");
    assert!(same_executable("\\\\?\\C:\\A\\b.EXE", "c:/a/B.exe"));
    assert!(same_executable("C:/\u{c4}.exe", "c:/\u{e4}.exe"));
    assert!(!same_executable("C:/a.exe", "C:/b.exe"));
}

#[test]
fn self_tests_end() {
    let test = SelfTest::new(false, true, at(0), SELF_TEST_MILLIS);
    assert_eq!(test.step(false, true, at(10)), SelfTestStep::Pause);
    assert_eq!(test.step(true, true, at(10)), SelfTestStep::Reachable);
    assert_eq!(test.step(false, false, at(10)), SelfTestStep::Exited);
    assert_eq!(test.step(false, true, at(SELF_TEST_MILLIS)), SelfTestStep::TimedOut);
    let other = SelfTest::new(true, true, at(0), SELF_TEST_MILLIS);
    assert_eq!(other.step(false, false, at(10)), SelfTestStep::Pause);
    assert_eq!(test.call_budget(at(0)), Some(Duration::from_millis(SELF_TEST_CALL_MILLIS)));
    assert_eq!(test.call_budget(at(59_000)), Some(Duration::from_secs(1)));
    assert_eq!(test.call_budget(at(60_000)), None);
}

#[test]
fn replies_are_judged_in_order() {
    assert_eq!(
        judge(SelfTestCall::DetectTablets, &Json::Array(Vec::new())),
        SelfTestVerdict::Next(SelfTestCall::GetSettings)
    );
    assert_eq!(
        judge(SelfTestCall::DetectTablets, &Json::Null),
        SelfTestVerdict::TabletsNotAList
    );
    assert_eq!(judge(SelfTestCall::GetSettings, &Json::Null), SelfTestVerdict::SettingsNull);
    assert_eq!(
        judge(SelfTestCall::GetSettings, &Json::Bool(true)),
        SelfTestVerdict::Next(SelfTestCall::SetSettings)
    );
    assert_eq!(
        judge(SelfTestCall::SetSettings, &Json::Null),
        SelfTestVerdict::Next(SelfTestCall::GetSettingsAgain)
    );
    assert_eq!(
        judge(SelfTestCall::GetSettingsAgain, &Json::Null),
        SelfTestVerdict::SettingsNullAfterSet
    );
    assert_eq!(
        judge(SelfTestCall::GetSettingsAgain, &Json::Bool(true)),
        SelfTestVerdict::Passed
    );
}

#[test]
fn a_daemon_that_ended_is_forgotten() {
    let mut daemon = OwnedDaemon { held: true };
    assert!(owned_is_running(&mut daemon, ChildState::Running));
    assert!(!owned_is_running(&mut daemon, ChildState::Exited));
    assert!(!owned_is_running(&mut daemon, ChildState::Running));
    assert!(!stop(&mut daemon));
    let mut daemon = OwnedDaemon { held: true };
    assert!(stop(&mut daemon));
    assert!(!stop(&mut daemon));
    let mut daemon = OwnedDaemon { held: true };
    assert!(!owned_is_running(&mut daemon, ChildState::Unknown));
    assert!(!daemon.held);
}

#[test]
fn a_packaged_daemon_is_started_where_none_runs() {
    let files = vec![false, true];
    assert!(matches!(start(true, false, &files, false, HOME), StartPlan::Nothing));
    assert!(matches!(start(false, true, &files, false, HOME), StartPlan::Nothing));
    assert!(matches!(start(false, false, &files, true, HOME), StartPlan::Nothing));
    assert!(matches!(start(false, false, &files, false, HOME), StartPlan::Spawn(1, _)));
    assert!(matches!(start(false, false, &vec![false], true, HOME), StartPlan::Missing));
}

#[test]
fn a_started_daemon_is_told_where_its_settings_are() {
    for (data_home, base) in [(false, Base::Home), (true, Base::DataHome)] {
        let env = Environment { data_home, ..HOME };
        let arguments = match start(false, false, &vec![true], false, env) {
            StartPlan::Spawn(0, arguments) => arguments,
            other => panic!("{other:?}"),
        };
        assert_eq!(arguments.len(), 2);
        assert!(matches!(arguments[0], Argument::Word("--appdata")));
        match &arguments[1] {
            Argument::Path(directory) => {
                assert_eq!(directory.base, base);
                let file = persisted_settings_path(env);
                assert_eq!(file.base, base);
                assert_eq!(file.relative, format!("{}/settings.json", directory.relative));
            }
            other => panic!("{other:?}"),
        }
    }
}

#[test]
fn builds_come_first_whatever_the_system() {
    let list = daemon_candidates(EVERYTHING, UnixSystem::Mac, Architecture::X64);
    assert_eq!(list.len(), 10);
    assert_eq!(list[0].relative, "target/otd/osx-x64/OpenTabletDriver.Daemon");
    assert_eq!(list[6].base, Base::ContentsDirectory);
    let list = daemon_candidates(EVERYTHING, UnixSystem::Mac, Architecture::X86);
    assert_eq!(list[0].base, Base::ExecutableDirectory);
    let list = daemon_candidates(NOTHING, UnixSystem::Linux, Architecture::X86);
    assert_eq!(list[1].relative, "target/otd/linux-x86/OpenTabletDriver.Daemon.dll");
    assert!(daemon_candidates(NOTHING, UnixSystem::Other, Architecture::X64).is_empty());
}

#[test]
fn the_short_test_minds_its_deadline_first() {
    let test = SelfTest::new(false, true, at(0), SHORT_SELF_TEST_MILLIS);
    assert_eq!(test.strict_step(false, false, at(180_000)), SelfTestStep::TimedOut);
    assert_eq!(test.step(false, false, at(180_000)), SelfTestStep::Exited);
    assert_eq!(test.strict_step(false, false, at(10)), SelfTestStep::Exited);
    assert_eq!(test.strict_step(false, true, at(10)), SelfTestStep::Pause);
    assert_eq!(test.strict_step(true, true, at(180_000)), SelfTestStep::Reachable);
    assert_eq!(
        run_self_test(ShortTestCall::GetTablets, &Json::Array(Vec::new())),
        ShortTestVerdict::Next(ShortTestCall::GetSettings)
    );
    assert_eq!(
        run_self_test(ShortTestCall::GetTablets, &Json::Null),
        ShortTestVerdict::TabletsNotAList
    );
    assert_eq!(
        run_self_test(ShortTestCall::GetSettings, &Json::Null),
        ShortTestVerdict::SettingsNull
    );
    assert_eq!(
        run_self_test(ShortTestCall::GetSettings, &Json::Bool(false)),
        ShortTestVerdict::Passed
    );
}
