use tabletflow::autostart::{
    autostart_changed, configure, desktop_entry, desktop_entry_path, desktop_exec_quote,
    indented_launch_agent, launch_agent, launch_agent_path, launch_domain, quote, run_command, uid,
    AutostartSettings, FilePlan,
};
use tabletflow::platform::{Base, Environment};

#[test]
fn desktop_exec_paths_are_quoted_and_escaped() {
    assert_eq!(
        desktop_exec_quote(r#"/tmp/Tablet Flow/$test\"#),
        r#"\"/tmp/Tablet Flow/\$test\\\""#
    );
}

#[test]
fn executable_paths_are_quoted() {
    assert_eq!(
        quote(r#"/tmp/Tablet Flow/$test\"#),
        r#"\"/tmp/Tablet Flow/\$test\\\""#
    );
}

#[test]
fn every_special_character_is_escaped() {
    assert_eq!(quote("a`b\"c"), "\\\"a\\`b\\\"c\\\"");
    assert_ne!(quote("a\\"), quote("a"));
}

#[test]
fn desktop_entries_start_the_application() {
    assert_eq!(
        desktop_entry("/opt/x", true),
        "[Desktop Entry]\nType=Application\nName=TabletFlow\nExec=\\\"/opt/x\\\" \
         --start-minimized\nX-GNOME-Autostart-enabled=true\n"
    );
    assert!(!desktop_entry("/opt/x", false).contains("minimized"));
}

#[test]
fn launch_agents_start_the_application() {
    let agent = launch_agent("/Applications/A & B <x>", true);
    assert!(agent.contains("<string>/Applications/A &amp; B &lt;x&gt;</string>"));
    assert!(agent.contains("</string><string>--start-minimized</string></array>"));
    assert!(!launch_agent("/x", false).contains("minimized"));
    let lines = indented_launch_agent("/x", true);
    assert!(lines.contains("<array>\n            <string>/x</string>\n            <string>--start"));
    assert!(lines.ends_with("<key>RunAtLoad</key><true/>\n</dict></plist>\n"));
    assert_eq!(launch_domain("501"), "gui/501");
    assert_eq!(uid(Some(" 502\n"), "501"), "502");
    assert_eq!(uid(Some(" \n"), "501"), "501");
    assert_eq!(uid(None, "501"), "501");
}

#[test]
fn registry_commands_start_the_application() {
    assert_eq!(run_command("C:\\T F\\a.exe", true), "\"C:\\T F\\a.exe\" --start-minimized");
    assert_eq!(run_command("a.exe", false), "\"a.exe\"");
}

#[test]
fn autostart_is_configured_when_it_changes() {
    let off = AutostartSettings { enabled: false, start_minimized: false };
    assert!(!autostart_changed(off, off));
    assert!(autostart_changed(off, AutostartSettings { enabled: true, ..off }));
    assert!(autostart_changed(off, AutostartSettings { start_minimized: true, ..off }));
}

#[test]
fn the_file_is_written_or_removed() {
    let nothing = Environment {
        home: false,
        config_home: false,
        data_home: false,
        user_profile: false,
        app_data: false,
        local_app_data: false,
    };
    assert!(desktop_entry_path(nothing).is_none());
    assert!(launch_agent_path(nothing).is_none());
    let home = Environment { home: true, ..nothing };
    assert_eq!(
        desktop_entry_path(home).unwrap().relative,
        ".config/autostart/TabletFlow.desktop"
    );
    assert_eq!(
        launch_agent_path(home).unwrap().relative,
        "Library/LaunchAgents/com.underweek.tabletflow.plist"
    );
    let config = Environment { config_home: true, ..home };
    assert_eq!(desktop_entry_path(config).unwrap().base, Base::ConfigHome);
    assert_eq!(configure(false, true, true), FilePlan::Nothing);
    assert_eq!(configure(true, true, false), FilePlan::Write);
    assert_eq!(configure(true, false, true), FilePlan::Remove);
    assert_eq!(configure(true, false, false), FilePlan::Nothing);
}
