use tabletflow::autostart::AutostartSettings;
use tabletflow::display::DisplayInfo;
use tabletflow::models::{AreaRequest, BackendCommand};
use tabletflow::ui::{
    applied_display, asks_for_permissions, clears_tablet, close_ends, display_preview,
    is_self_test_argument, permission_platform, picked_display, starts_minimized, theme_mode, wire, UiEvent, GITHUB_URL,
};

fn display(index: i32, width: f32) -> DisplayInfo {
    DisplayInfo {
        index,
        label: format!("Display {index}"),
        width: width.to_bits(),
        height: 1080f32.to_bits(),
        x: 0,
        y: 0,
        detected: true,
        primary: false,
    }
}

#[test]
fn themes_have_modes() {
    assert_eq!(theme_mode("Light"), "light");
    assert_eq!(theme_mode("Dark"), "dark");
    assert_eq!(theme_mode("System"), "system");
    assert_eq!(theme_mode("light"), "system");
}

#[test]
fn only_one_platform_has_permissions() {
    assert_eq!(permission_platform("macOS"), "macOS");
    assert_eq!(permission_platform("Windows"), "other");
    assert!(asks_for_permissions("macOS", true, false));
    assert!(asks_for_permissions("macOS", false, true));
    assert!(!asks_for_permissions("macOS", true, true));
    assert!(!asks_for_permissions("Linux", false, false));
}

#[test]
fn arguments_are_recognized() {
    assert!(is_self_test_argument("--driver-self-test"));
    assert!(is_self_test_argument("--windows-driver-self-test"));
    assert!(!is_self_test_argument("--start-minimized"));
    assert!(starts_minimized(true, false, false));
    assert!(starts_minimized(false, true, true));
    assert!(!starts_minimized(false, false, true));
    assert!(!starts_minimized(false, true, false));
    assert!(close_ends(false));
    assert!(!close_ends(true));
}

#[test]
fn displays_are_picked_by_index() {
    let list = vec![display(3, 800.0), display(1, 1920.0)];
    assert_eq!(picked_display(&list, 1).unwrap().label, "Display 1");
    assert!(picked_display(&list, 0).is_none());
    let (width, height) = display_preview(&list[1]);
    assert_eq!(f32::from_bits(width), 192.0);
    assert_eq!(f32::from_bits(height), 108.0);
}

const OFF: AutostartSettings = AutostartSettings { enabled: false, start_minimized: false };

#[test]
fn the_user_commands_the_backend() {
    let session = wire(vec![display(3, 800.0), display(1, 1920.0)], OFF);
    let reaction = session.react(UiEvent::RetryBackend);
    assert!(matches!(reaction.command, Some(BackendCommand::Detect)));
    assert_eq!(reaction.state, Some("unknown"));
    let reaction = session.react(UiEvent::StartDaemon);
    assert!(matches!(reaction.command, Some(BackendCommand::StartDaemon)));
    let reaction = session.react(UiEvent::RefreshArea);
    assert!(matches!(reaction.command, Some(BackendCommand::RefreshSettings)));
    let area = |monitor: i32| UiEvent::ApplyArea {
        tablet: "Pen".to_string(),
        width: "1".to_string(),
        height: "2".to_string(),
        x: "3".to_string(),
        y: "4".to_string(),
        rotation: "5".to_string(),
        frequency: "6".to_string(),
        monitor,
    };
    match session.react(area(1)).command {
        Some(BackendCommand::ApplyArea(request)) => {
            assert_eq!(request.tablet_name, "Pen");
            assert_eq!(request.height, "2");
            assert_eq!(request.frequency, "6");
            assert_eq!(request.display.unwrap().label, "Display 1");
        }
        other => panic!("{other:?}"),
    }
    match session.react(area(9)).command {
        Some(BackendCommand::ApplyArea(request)) => assert!(request.display.is_none()),
        other => panic!("{other:?}"),
    }
}

#[test]
fn closing_goes_to_the_tray_or_ends() {
    let session = wire(Vec::new(), OFF);
    let reaction = session.react(UiEvent::CloseRequested { close_to_tray: true });
    assert!(reaction.hide_window && !reaction.quit);
    let reaction = session.react(UiEvent::CloseRequested { close_to_tray: false });
    assert!(reaction.hide_window && reaction.quit);
    assert!(session.react(UiEvent::TrayQuit).quit);
    assert!(session.react(UiEvent::TrayOpened).show_window);
    assert_eq!(session.react(UiEvent::OpenGithub).open_url, Some(GITHUB_URL));
    assert!(session.react(UiEvent::CheckPermissions).refresh_permissions);
    let reaction = session.react(UiEvent::RequestPermissions);
    assert!(reaction.request_permissions && reaction.refresh_permissions);
}

#[test]
fn autostart_is_configured_once_for_a_change() {
    let mut session = wire(Vec::new(), OFF);
    let on = AutostartSettings { enabled: true, start_minimized: false };
    let reaction = session.react(UiEvent::SettingsChanged { autostart: OFF, close_to_tray: true });
    assert!(reaction.save_settings && reaction.configure_autostart.is_none());
    assert_eq!(reaction.tray, Some(true));
    let change = UiEvent::SettingsChanged { autostart: on, close_to_tray: false };
    assert_eq!(session.react(change).configure_autostart, Some(on));
    let change = UiEvent::SettingsChanged { autostart: on, close_to_tray: false };
    assert_eq!(session.react(change).configure_autostart, Some(on));
    session.autostart_configured(on);
    let change = UiEvent::SettingsChanged { autostart: on, close_to_tray: false };
    assert_eq!(session.react(change).configure_autostart, None);
}

#[test]
fn an_applied_area_shows_its_display() {
    let mut area = AreaRequest {
        tablet_name: String::new(),
        width: String::new(),
        height: String::new(),
        x: String::new(),
        y: String::new(),
        rotation: String::new(),
        frequency: String::new(),
        display: None,
    };
    assert_eq!(applied_display(&area), None);
    area.display = Some(display(4, 2560.0));
    assert_eq!(
        applied_display(&area),
        Some((4, 256f32.to_bits(), 108f32.to_bits()))
    );
}

#[test]
fn only_a_ready_tablet_is_shown() {
    assert!(!clears_tablet("ready"));
    assert!(clears_tablet("no-tablet"));
    assert!(clears_tablet("daemon-starting"));
}
