use tabletflow::platform::{
    acquire_instance_guard, daemon_console_log_path, driver_settings_path, instance_name,
    local_data_root, local_data_root_from, otd_appdata_dir, persisted_settings_path,
    settings_sources, supervisor_log_path, temporary_driver_settings, windows_appdata_dir, Base,
    Environment, InstanceEvent, InstanceStep, LinuxPlatform, Location, MacOsPlatform,
    MacPermission, WindowsPlatform,
};
use tabletflow::time::Duration;

const NOTHING: Environment = Environment {
    home: false,
    config_home: false,
    data_home: false,
    user_profile: false,
    app_data: false,
    local_app_data: false,
};

/// The path of a location, with these directories for its base.
fn path(location: &Location) -> String {
    let base = match location.base {
        Base::DataHome => "/custom/data",
        Base::Home => "/home/test",
        Base::Temporary => "/tmp",
        _ => "/elsewhere",
    };
    location.path_in(base)
}

#[test]
fn prefers_xdg_data_home_when_set() {
    let root = local_data_root_from(true, true);
    assert_eq!(
        path(&root.join("OpenTabletDriver")),
        "/custom/data/TabletFlow/OpenTabletDriver"
    );
}

#[test]
fn falls_back_to_home_local_share() {
    let root = local_data_root_from(false, true);
    assert_eq!(
        path(&root.join("OpenTabletDriver")),
        "/home/test/.local/share/TabletFlow/OpenTabletDriver"
    );
}

#[test]
fn missing_everything_falls_back_to_temp_dir_instead_of_panicking() {
    let root = local_data_root_from(false, false);
    assert_eq!(root.base, Base::Temporary);
    assert!(path(&root).starts_with("/tmp"));
    assert!(path(&root).ends_with("TabletFlow"));
}

#[test]
fn the_driver_keeps_its_settings_below_the_data_directory() {
    let env = Environment { home: true, ..NOTHING };
    assert_eq!(
        path(&otd_appdata_dir(env)),
        "/home/test/.local/share/TabletFlow/OpenTabletDriver"
    );
    assert_eq!(
        path(&persisted_settings_path(env)),
        "/home/test/.local/share/TabletFlow/OpenTabletDriver/settings.json"
    );
    assert_eq!(temporary_driver_settings(), "settings.json.tmp");
    assert_eq!(
        path(&windows_appdata_dir(NOTHING).join("settings.json")),
        path(&driver_settings_path(NOTHING))
    );
}

#[test]
fn linux_settings_have_their_place() {
    let platform = LinuxPlatform;
    assert_eq!(platform.name(), "Linux");
    assert!(!platform.default_close_to_tray());
    assert!(platform.settings_path(NOTHING).is_none());
    let home = Environment { home: true, ..NOTHING };
    let found = platform.settings_path(home).unwrap();
    assert_eq!((found.base, found.relative.as_str()), (Base::Home, ".config/tabletflow/settings.conf"));
    let both = Environment { config_home: true, ..home };
    let found = platform.settings_path(both).unwrap();
    assert_eq!((found.base, found.relative.as_str()), (Base::ConfigHome, "tabletflow/settings.conf"));
    let legacy = platform.legacy_settings_paths(both);
    assert_eq!(legacy.len(), 3);
    assert_eq!(legacy[0].relative, ".tabletflow/settings.conf");
    assert_eq!(legacy[2].base, Base::ConfigHome);
    assert!(platform.rules().auto_map);
    assert_eq!(platform.rpc_timeout("SetSettings"), Duration::from_secs(15));
}

#[test]
fn mac_settings_have_their_place() {
    let platform = MacOsPlatform;
    assert_eq!(platform.name(), "macOS");
    let home = Environment { home: true, ..NOTHING };
    assert_eq!(
        platform.settings_path(home).unwrap().relative,
        "Library/Application Support/TabletFlow/settings.conf"
    );
    assert_eq!(platform.legacy_settings_paths(home).len(), 1);
    assert!(platform.legacy_settings_paths(NOTHING).is_empty());
    assert!(!platform.rules().restore_pipeline);
    assert_eq!(platform.rpc_timeout("GetTablets"), Duration::from_secs(15));
}

#[test]
fn mac_permissions_are_asked_for_one_after_the_other() {
    let platform = MacOsPlatform;
    assert_eq!(
        platform.missing_permission(false, false),
        Some(MacPermission::InputMonitoring)
    );
    assert_eq!(platform.missing_permission(true, false), Some(MacPermission::Accessibility));
    assert_eq!(platform.missing_permission(true, true), None);
    assert_eq!(
        MacPermission::Accessibility.preferences_url(),
        "x-apple.systempreferences:com.apple.preference.security?Privacy_Accessibility"
    );
}

#[test]
fn windows_settings_have_their_place() {
    let platform = WindowsPlatform;
    assert_eq!(platform.name(), "Windows");
    assert!(platform.default_close_to_tray());
    let profile = Environment { user_profile: true, ..NOTHING };
    assert_eq!(platform.settings_path(profile).unwrap().base, Base::UserProfile);
    let data = Environment { app_data: true, ..profile };
    assert_eq!(platform.settings_path(data).unwrap().base, Base::AppData);
    assert_eq!(platform.legacy_settings_paths(profile).len(), 1);
    assert!(platform.rules().restore_pipeline);
    assert_eq!(platform.rpc_timeout("DetectTablets"), Duration::from_secs(180));
    assert_eq!(platform.rpc_timeout("SetSettings"), Duration::from_secs(180));
    assert_eq!(platform.rpc_timeout("GetSettings"), Duration::from_secs(30));
    let local = Environment { local_app_data: true, ..NOTHING };
    assert_eq!(local_data_root(local).base, Base::LocalAppData);
    assert_eq!(local_data_root(NOTHING).base, Base::Temporary);
    assert_eq!(supervisor_log_path(local).relative, "TabletFlow/Logs/tabletflow-windows.log");
    assert_eq!(
        daemon_console_log_path(local).relative,
        "TabletFlow/Logs/opentabletdriver-console.log"
    );
    assert_eq!(driver_settings_path(local).relative, "TabletFlow/OpenTabletDriver/settings.json");
}

#[test]
fn settings_are_looked_for_where_they_were_before() {
    let primary = Location::new(Base::Home, "a");
    let legacy = vec![
        Location::new(Base::Home, "b"),
        Location::new(Base::Home, "a"),
        Location::new(Base::ConfigHome, "a"),
    ];
    let sources = settings_sources(Some(primary), legacy);
    assert_eq!(sources.len(), 3);
    assert_eq!(sources[0].relative, "a");
    assert_eq!(sources[1].relative, "b");
    assert_eq!(sources[2].base, Base::ConfigHome);
    let sources = settings_sources(None, vec![Location::new(Base::Home, "b")]);
    assert_eq!(sources.len(), 1);
}

#[test]
fn a_left_over_name_is_reclaimed_once() {
    assert_eq!(acquire_instance_guard(InstanceEvent::Bound, false), InstanceStep::Hold);
    assert_eq!(acquire_instance_guard(InstanceEvent::InUse, false), InstanceStep::Ask);
    assert_eq!(acquire_instance_guard(InstanceEvent::Answered(true), false), InstanceStep::Leave);
    assert_eq!(
        acquire_instance_guard(InstanceEvent::Answered(false), false),
        InstanceStep::Reclaim
    );
    assert_eq!(acquire_instance_guard(InstanceEvent::InUse, true), InstanceStep::Leave);
    assert_eq!(acquire_instance_guard(InstanceEvent::Bound, true), InstanceStep::Hold);
    assert_eq!(acquire_instance_guard(InstanceEvent::Failed, false), InstanceStep::Leave);
    assert_eq!(instance_name("501"), "tabletflow-501.sock");
}
