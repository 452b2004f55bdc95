//! What the user interface decides by itself.

use crate::autostart;
use crate::autostart::AutostartSettings;
use crate::binary;
use crate::display;
use crate::display::{Display, DisplayInfo};
use crate::models::{AreaRequest, BackendCommand, Request};
use crate::query;
use crate::query::TEN32;
use crate::supervisor::Order;
use crate::text;
use vstd::prelude::*;

verus! {

/// The page of the project.
pub const GITHUB_URL: &'static str = "https://github.com/UnderWeek/TabletFlow";

/// The mode of the theme with some name.
pub open spec fn mode_of(theme: Seq<char>) -> Seq<char> {
    if theme == "Light"@ {
        "light"@
    } else if theme == "Dark"@ {
        "dark"@
    } else {
        "system"@
    }
}

/// The mode of the theme with some name.
pub fn theme_mode(theme: &str) -> (mode: &'static str)
    ensures
        mode@ == mode_of(theme@),
{
    if text::same_text(theme, "Light") {
        "light"
    } else if text::same_text(theme, "Dark") {
        "dark"
    } else {
        "system"
    }
}

/// The platform, as far as permissions go.
pub fn permission_platform(name: &str) -> (platform: &'static str)
    ensures
        platform@ == if name@ == "macOS"@ {
            "macOS"@
        } else {
            "other"@
        },
{
    if text::same_text(name, "macOS") {
        "macOS"
    } else {
        "other"
    }
}

/// Whether the user is to be asked for permissions when the application starts.
pub fn asks_for_permissions(name: &str, input_monitoring: bool, accessibility: bool) -> (asks: bool)
    ensures
        asks == (name@ == "macOS"@ && !(input_monitoring && accessibility)),
{
    !(input_monitoring && accessibility) && text::same_text(name, "macOS")
}

/// Whether the application is started to test its driver.
pub fn is_self_test_argument(argument: &str) -> (is: bool)
    ensures
        is == (argument@ == "--driver-self-test"@ || argument@ == "--windows-driver-self-test"@),
{
    text::same_text(argument, "--driver-self-test") || text::same_text(
        argument,
        "--windows-driver-self-test",
    )
}

/// Whether the window starts minimized.
pub fn starts_minimized(argument: bool, start_with_system: bool, start_minimized: bool) -> (
    minimized: bool)
    ensures
        minimized == (argument || (start_with_system && start_minimized)),
{
    argument || (start_with_system && start_minimized)
}

/// Whether closing the window ends the application.
pub fn close_ends(close_to_tray: bool) -> (ends: bool)
    ensures
        ends == !close_to_tray,
{
    !close_to_tray
}

/// Whether a state of the connection leaves no tablet to show: its name and its data are
/// cleared then.
pub fn clears_tablet(state: &str) -> (clears: bool)
    ensures
        clears == (state@ != "ready"@),
{
    !text::same_text(state, "ready")
}

/// The first display with some index, from `from` on.
pub open spec fn display_at(list: Seq<Display>, index: i32, from: int) -> Option<Display>
    decreases list.len() - from,
{
    if from < 0 || from >= list.len() {
        None
    } else if list[from].index == index {
        Some(list[from])
    } else {
        display_at(list, index, from + 1)
    }
}

/// The display that the user picked.
pub fn picked_display(list: &Vec<DisplayInfo>, index: i32) -> (picked: Option<DisplayInfo>)
    ensures
        match picked {
            Some(found) => display_at(display::displays(list@), index, 0) == Some(found@),
            None => display_at(display::displays(list@), index, 0) is None,
        },
{
    let ghost all = display::displays(list@);
    let mut i: usize = 0;
    while i < list.len()
        invariant
            i <= list@.len(),
            all == display::displays(list@),
            display_at(all, index, 0) == display_at(all, index, i as int),
        decreases list@.len() - i,
    {
        assert(all[i as int] == list@[i as int]@);
        if list[i].index == index {
            return Some(list[i].clone());
        }
        i = i + 1;
    }
    None
}

/// The size of the preview of an area on a display: a tenth of the display's.
pub fn display_preview(display: &DisplayInfo) -> (size: (u32, u32))
    ensures
        size == (
            binary::quotient32(display.width, TEN32),
            binary::quotient32(display.height, TEN32),
        ),
{
    (binary::div32(display.width, TEN32), binary::div32(display.height, TEN32))
}

/// What an applied area shows of its display, where it has one: the display's index and the
/// size of the preview.
pub open spec fn shown_display(area: Request) -> Option<(i32, u32, u32)> {
    match area.display {
        Some(display) => Some(
            (
                display.index,
                binary::quotient32(display.width, TEN32),
                binary::quotient32(display.height, TEN32),
            ),
        ),
        None => None,
    }
}

/// What an applied area shows of its display, where it has one.
pub fn applied_display(area: &AreaRequest) -> (shown: Option<(i32, u32, u32)>)
    ensures
        shown == shown_display(area@),
{
    match &area.display {
        Some(display) => {
            let (width, height) = display_preview(display);
            Some((display.index, width, height))
        },
        None => None,
    }
}

// ---- what the user does ----

/// What the user does.
#[derive(Debug)]
pub enum UiEvent {
    /// Opens the window from the tray.
    TrayOpened,
    /// Quits from the tray.
    TrayQuit,
    /// Closes the window.
    CloseRequested { close_to_tray: bool },
    /// Asks to look for the tablet again.
    RetryBackend,
    StartDaemon,
    /// Asks for an area: its texts, and the index of its display.
    ApplyArea {
        tablet: String,
        width: String,
        height: String,
        x: String,
        y: String,
        rotation: String,
        frequency: String,
        monitor: i32,
    },
    RefreshArea,
    /// Changes a setting; these are the settings that more than the window depends on.
    SettingsChanged { autostart: AutostartSettings, close_to_tray: bool },
    OpenGithub,
    CheckPermissions,
    RequestPermissions,
}

/// What follows, in this order.
#[derive(Debug)]
pub struct UiReaction {
    /// Send this to the backend.
    pub command: Option<BackendCommand>,
    /// Show this state of the backend.
    pub state: Option<&'static str>,
    pub show_window: bool,
    pub hide_window: bool,
    pub quit: bool,
    /// Save the settings, and bring the theme in line with them.
    pub save_settings: bool,
    /// Configure autostart so.
    pub configure_autostart: Option<AutostartSettings>,
    /// Show the tray, or hide it.
    pub tray: Option<bool>,
    pub open_url: Option<&'static str>,
    pub request_permissions: bool,
    pub refresh_permissions: bool,
}

/// What the user does, without its texts' places in memory.
pub enum Gesture {
    TrayOpened,
    TrayQuit,
    CloseRequested { close_to_tray: bool },
    RetryBackend,
    StartDaemon,
    /// The area, but for its display.
    ApplyArea { area: Request, monitor: i32 },
    RefreshArea,
    SettingsChanged { autostart: AutostartSettings, close_to_tray: bool },
    OpenGithub,
    CheckPermissions,
    RequestPermissions,
}

/// What follows.
pub struct Reaction {
    pub command: Option<Order>,
    pub state: Option<Seq<char>>,
    pub show_window: bool,
    pub hide_window: bool,
    pub quit: bool,
    pub save_settings: bool,
    pub configure_autostart: Option<AutostartSettings>,
    pub tray: Option<bool>,
    pub open_url: Option<Seq<char>>,
    pub request_permissions: bool,
    pub refresh_permissions: bool,
}

impl View for UiEvent {
    type V = Gesture;

    open spec fn view(&self) -> Gesture {
        match self {
            UiEvent::TrayOpened => Gesture::TrayOpened,
            UiEvent::TrayQuit => Gesture::TrayQuit,
            UiEvent::CloseRequested { close_to_tray } => Gesture::CloseRequested {
                close_to_tray: *close_to_tray,
            },
            UiEvent::RetryBackend => Gesture::RetryBackend,
            UiEvent::StartDaemon => Gesture::StartDaemon,
            UiEvent::ApplyArea {
                tablet,
                width,
                height,
                x,
                y,
                rotation,
                frequency,
                monitor,
            } => Gesture::ApplyArea {
                area: Request {
                    tablet_name: tablet@,
                    width: width@,
                    height: height@,
                    x: x@,
                    y: y@,
                    rotation: rotation@,
                    frequency: frequency@,
                    display: None,
                },
                monitor: *monitor,
            },
            UiEvent::RefreshArea => Gesture::RefreshArea,
            UiEvent::SettingsChanged { autostart, close_to_tray } => Gesture::SettingsChanged {
                autostart: *autostart,
                close_to_tray: *close_to_tray,
            },
            UiEvent::OpenGithub => Gesture::OpenGithub,
            UiEvent::CheckPermissions => Gesture::CheckPermissions,
            UiEvent::RequestPermissions => Gesture::RequestPermissions,
        }
    }
}

impl View for UiReaction {
    type V = Reaction;

    open spec fn view(&self) -> Reaction {
        Reaction {
            command: match self.command {
                Some(command) => Some(command@),
                None => None,
            },
            state: match self.state {
                Some(name) => Some(name@),
                None => None,
            },
            show_window: self.show_window,
            hide_window: self.hide_window,
            quit: self.quit,
            save_settings: self.save_settings,
            configure_autostart: self.configure_autostart,
            tray: self.tray,
            open_url: match self.open_url {
                Some(url) => Some(url@),
                None => None,
            },
            request_permissions: self.request_permissions,
            refresh_permissions: self.refresh_permissions,
        }
    }
}

impl Reaction {
    /// Nothing follows.
    pub open spec fn nothing() -> Reaction {
        Reaction {
            command: None,
            state: None,
            show_window: false,
            hide_window: false,
            quit: false,
            save_settings: false,
            configure_autostart: None,
            tray: None,
            open_url: None,
            request_permissions: false,
            refresh_permissions: false,
        }
    }
}

impl UiReaction {
    fn nothing() -> (reaction: UiReaction)
        ensures
            reaction@ == Reaction::nothing(),
    {
        UiReaction {
            command: None,
            state: None,
            show_window: false,
            hide_window: false,
            quit: false,
            save_settings: false,
            configure_autostart: None,
            tray: None,
            open_url: None,
            request_permissions: false,
            refresh_permissions: false,
        }
    }
}

/// What the user interface remembers.
#[derive(Debug)]
pub struct UiSession {
    /// The displays to pick from.
    pub displays: Vec<DisplayInfo>,
    /// The settings that autostart was last configured with.
    pub last_autostart: AutostartSettings,
}

/// What the user interface remembers.
pub struct Session {
    pub displays: Seq<Display>,
    pub last_autostart: AutostartSettings,
}

impl View for UiSession {
    type V = Session;

    open spec fn view(&self) -> Session {
        Session {
            displays: display::displays(self.displays@),
            last_autostart: self.last_autostart,
        }
    }
}

impl Session {
    /// What follows something that the user does.
    pub open spec fn reaction_to(self, gesture: Gesture) -> Reaction {
        let nothing = Reaction::nothing();
        match gesture {
            Gesture::TrayOpened => Reaction { show_window: true, ..nothing },
            Gesture::TrayQuit => Reaction { quit: true, ..nothing },
            Gesture::CloseRequested { close_to_tray } => Reaction {
                hide_window: true,
                quit: !close_to_tray,
                ..nothing
            },
            Gesture::RetryBackend => Reaction {
                command: Some(Order::Detect),
                state: Some("unknown"@),
                ..nothing
            },
            Gesture::StartDaemon => Reaction { command: Some(Order::StartDaemon), ..nothing },
            Gesture::ApplyArea { area, monitor } => Reaction {
                command: Some(
                    Order::ApplyArea(
                        Request { display: display_at(self.displays, monitor, 0), ..area },
                    ),
                ),
                ..nothing
            },
            Gesture::RefreshArea => Reaction {
                command: Some(Order::RefreshSettings),
                ..nothing
            },
            Gesture::SettingsChanged { autostart, close_to_tray } => Reaction {
                save_settings: true,
                configure_autostart: if autostart != self.last_autostart {
                    Some(autostart)
                } else {
                    None
                },
                tray: Some(close_to_tray),
                ..nothing
            },
            Gesture::OpenGithub => Reaction { open_url: Some(GITHUB_URL@), ..nothing },
            Gesture::CheckPermissions => Reaction { refresh_permissions: true, ..nothing },
            Gesture::RequestPermissions => Reaction {
                request_permissions: true,
                refresh_permissions: true,
                ..nothing
            },
        }
    }
}

/// The user interface, with the displays to pick from. Autostart was configured with these
/// settings when the application started.
pub fn wire(displays: Vec<DisplayInfo>, autostart: AutostartSettings) -> (session: UiSession)
    ensures
        session@ == (Session {
            displays: display::displays(displays@),
            last_autostart: autostart,
        }),
{
    UiSession { displays, last_autostart: autostart }
}

impl UiSession {
    /// What follows something that the user does.
    pub fn react(&self, event: UiEvent) -> (reaction: UiReaction)
        ensures
            reaction@ == self@.reaction_to(event@),
    {
        let mut reaction = UiReaction::nothing();
        match event {
            UiEvent::TrayOpened => {
                reaction.show_window = true;
            },
            UiEvent::TrayQuit => {
                reaction.quit = true;
            },
            UiEvent::CloseRequested { close_to_tray } => {
                reaction.hide_window = true;
                reaction.quit = close_ends(close_to_tray);
            },
            UiEvent::RetryBackend => {
                reaction.command = Some(BackendCommand::Detect);
                reaction.state = Some("unknown");
            },
            UiEvent::StartDaemon => {
                reaction.command = Some(BackendCommand::StartDaemon);
            },
            UiEvent::ApplyArea { tablet, width, height, x, y, rotation, frequency, monitor } => {
                let display = picked_display(&self.displays, monitor);
                reaction.command = Some(
                    BackendCommand::ApplyArea(
                        AreaRequest {
                            tablet_name: tablet,
                            width,
                            height,
                            x,
                            y,
                            rotation,
                            frequency,
                            display,
                        },
                    ),
                );
            },
            UiEvent::RefreshArea => {
                reaction.command = Some(BackendCommand::RefreshSettings);
            },
            UiEvent::SettingsChanged { autostart, close_to_tray } => {
                reaction.save_settings = true;
                if autostart::autostart_changed(self.last_autostart, autostart) {
                    reaction.configure_autostart = Some(autostart);
                }
                reaction.tray = Some(close_to_tray);
            },
            UiEvent::OpenGithub => {
                reaction.open_url = Some(GITHUB_URL);
            },
            UiEvent::CheckPermissions => {
                reaction.refresh_permissions = true;
            },
            UiEvent::RequestPermissions => {
                reaction.request_permissions = true;
                reaction.refresh_permissions = true;
            },
        }
        reaction
    }

    /// Autostart was configured with these settings.
    pub fn autostart_configured(&mut self, autostart: AutostartSettings)
        ensures
            final(self)@ == (Session { last_autostart: autostart, ..old(self)@ }),
    {
        self.last_autostart = autostart;
    }
}

// ---- laws ----

/// Autostart is configured only when a setting that it depends on changed, and not again once
/// that succeeded; where it failed, the next change of any setting tries again.
pub proof fn autostart_follows_its_settings(
    session: Session,
    autostart: AutostartSettings,
    close_to_tray: bool,
)
    ensures
        ({
            let reaction = session.reaction_to(
                Gesture::SettingsChanged { autostart, close_to_tray },
            );
            let configured = Session { last_autostart: autostart, ..session };
            &&& reaction.configure_autostart is Some <==> autostart != session.last_autostart
            &&& configured.reaction_to(
                Gesture::SettingsChanged { autostart, close_to_tray },
            ).configure_autostart is None
            &&& session.reaction_to(
                Gesture::SettingsChanged { autostart, close_to_tray: !close_to_tray },
            ).configure_autostart == reaction.configure_autostart
        }),
{
}

/// The application ends only where the user quits, or closes a window that has no tray to go
/// to; and the backend is sent no more than what the user asked for.
pub proof fn only_the_user_quits(session: Session, gesture: Gesture)
    ensures
        session.reaction_to(gesture).quit <==> (gesture is TrayQuit || gesture
            == (Gesture::CloseRequested { close_to_tray: false })),
        session.reaction_to(gesture).command is Some <==> (gesture is RetryBackend || gesture
            is StartDaemon || gesture is ApplyArea || gesture is RefreshArea),
        !(session.reaction_to(gesture).command matches Some(Order::Shutdown)),
{
}

/// The display of an area that the user asks for is one of those that there are, and the one
/// with the index that was picked.
pub proof fn picked_display_is_listed(list: Seq<Display>, index: i32, from: int)
    requires
        0 <= from,
    ensures
        display_at(list, index, from) matches Some(found) ==> found.index == index
            && list.contains(found),
        display_at(list, index, from) is None ==> forall|i: int|
            from <= i < list.len() ==> (#[trigger] list[i]).index != index,
    decreases list.len() - from,
{
    if from < list.len() && list[from].index != index {
        picked_display_is_listed(list, index, from + 1);
    }
}

/// Each part of what follows comes with the gesture that it is for, and with no other.
pub proof fn gestures_have_their_own_reactions(session: Session, gesture: Gesture)
    ensures
        ({
            let reaction = session.reaction_to(gesture);
            &&& reaction.show_window <==> gesture is TrayOpened
            &&& reaction.hide_window <==> gesture is CloseRequested
            &&& reaction.save_settings <==> gesture is SettingsChanged
            &&& reaction.request_permissions <==> gesture is RequestPermissions
            &&& reaction.refresh_permissions <==> gesture is CheckPermissions || gesture
                is RequestPermissions
            &&& reaction.state is Some <==> gesture is RetryBackend
            &&& gesture is RetryBackend ==> reaction.command == Some(Order::Detect)
                && reaction.state == Some("unknown"@)
            &&& gesture is StartDaemon ==> reaction.command == Some(Order::StartDaemon)
            &&& gesture is RefreshArea ==> reaction.command == Some(Order::RefreshSettings)
            &&& reaction.tray is Some <==> gesture is SettingsChanged
            &&& gesture matches Gesture::SettingsChanged { autostart, close_to_tray } ==> {
                &&& reaction.tray == Some(close_to_tray)
                &&& autostart != session.last_autostart ==> reaction.configure_autostart == Some(
                    autostart,
                )
            }
            &&& reaction.configure_autostart is Some ==> gesture is SettingsChanged
            &&& reaction.open_url is Some <==> gesture is OpenGithub
            &&& gesture is OpenGithub ==> reaction.open_url == Some(
                "https://github.com/UnderWeek/TabletFlow"@,
            )
        }),
{
}

/// The area that is sent is the one that the user wrote, field by field, on the first display with
/// the index that was picked, or on none where no display has it.
pub proof fn areas_are_sent_as_written(session: Session, area: Request, monitor: i32, i: int)
    ensures
        session.reaction_to(Gesture::ApplyArea { area, monitor }).command matches Some(
            Order::ApplyArea(sent),
        ) && {
            &&& sent.tablet_name == area.tablet_name
            &&& sent.width == area.width
            &&& sent.height == area.height
            &&& sent.x == area.x
            &&& sent.y == area.y
            &&& sent.rotation == area.rotation
            &&& sent.frequency == area.frequency
            &&& 0 <= i < session.displays.len() && session.displays[i].index == monitor && (forall|
                k: int,
            |
                0 <= k < i ==> (#[trigger] session.displays[k]).index != monitor) ==> sent.display
                == Some(session.displays[i])
            &&& (forall|k: int|
                0 <= k < session.displays.len() ==> (#[trigger] session.displays[k]).index
                    != monitor) ==> sent.display is None
        },
{
    first_display_is_picked(session.displays, monitor, 0);
}

proof fn first_display_is_picked(list: Seq<Display>, index: i32, from: int)
    requires
        0 <= from,
    ensures
        match display_at(list, index, from) {
            Some(found) => exists|i: int|
                from <= i < list.len() && #[trigger] list[i] == found && found.index == index
                    && forall|k: int| from <= k < i ==> (#[trigger] list[k]).index != index,
            None => forall|k: int| from <= k < list.len() ==> (#[trigger] list[k]).index != index,
        },
    decreases list.len() - from,
{
    if from < list.len() {
        if list[from].index == index {
            assert(list[from] == display_at(list, index, from)->0);
        } else {
            first_display_is_picked(list, index, from + 1);
            if let Some(found) = display_at(list, index, from + 1) {
                let i = choose|i: int|
                    from + 1 <= i < list.len() && #[trigger] list[i] == found && found.index
                        == index && forall|k: int|
                        from + 1 <= k < i ==> (#[trigger] list[k]).index != index;
                assert(list[i] == found);
            }
        }
    }
}

/// What the user writes is what the gesture holds, each text in its own field.
pub proof fn gestures_hold_what_was_written(event: UiEvent)
    ensures
        event matches UiEvent::ApplyArea {
            tablet,
            width,
            height,
            x,
            y,
            rotation,
            frequency,
            monitor,
        } ==> (event@ matches Gesture::ApplyArea { area, monitor: picked } && {
            &&& area.tablet_name == tablet@
            &&& area.width == width@
            &&& area.height == height@
            &&& area.x == x@
            &&& area.y == y@
            &&& area.rotation == rotation@
            &&& area.frequency == frequency@
            &&& picked == monitor
        }),
        event is TrayOpened <==> event@ is TrayOpened,
        event is TrayQuit <==> event@ is TrayQuit,
        event is RetryBackend <==> event@ is RetryBackend,
        event is StartDaemon <==> event@ is StartDaemon,
        event is RefreshArea <==> event@ is RefreshArea,
        event is OpenGithub <==> event@ is OpenGithub,
        event is CheckPermissions <==> event@ is CheckPermissions,
        event is RequestPermissions <==> event@ is RequestPermissions,
        event matches UiEvent::CloseRequested { close_to_tray } ==> event@ == (
        Gesture::CloseRequested { close_to_tray }),
        event matches UiEvent::SettingsChanged { autostart, close_to_tray } ==> event@ == (
        Gesture::SettingsChanged { autostart, close_to_tray }),
{
}

/// What is said of a reaction follows its fields, each for its own.
pub proof fn reactions_are_what_their_fields_say(reaction: UiReaction)
    ensures
        reaction@.show_window == reaction.show_window,
        reaction@.hide_window == reaction.hide_window,
        reaction@.quit == reaction.quit,
        reaction@.save_settings == reaction.save_settings,
        reaction@.configure_autostart == reaction.configure_autostart,
        reaction@.tray == reaction.tray,
        reaction@.request_permissions == reaction.request_permissions,
        reaction@.refresh_permissions == reaction.refresh_permissions,
        reaction@.command is Some <==> reaction.command is Some,
        reaction.command matches Some(command) ==> reaction@.command == Some(command@),
        reaction@.state is Some <==> reaction.state is Some,
        reaction.state matches Some(name) ==> reaction@.state == Some(name@),
        reaction@.open_url is Some <==> reaction.open_url is Some,
        reaction.open_url matches Some(url) ==> reaction@.open_url == Some(url@),
{
}

/// An applied area shows its display: the index, and a tenth of the size where that is in tens.
pub proof fn applied_areas_show_their_display(area: Request, m: int, n: int)
    ensures
        shown_display(area) is Some <==> area.display is Some,
        area.display matches Some(display) ==> (shown_display(area) matches Some(
            (index, width, height),
        ) && index == display.index && (binary::is_finite32(display.width) && binary::is_finite32(
            display.height,
        ) && binary::value32(display.width) == 10 * m * binary::one() && binary::value32(
            display.height,
        ) == 10 * n * binary::one() && 0 < m < 0x100_0000 && 0 < n < 0x100_0000
            ==> binary::value32(width) == m * binary::one() && binary::value32(height) == n
            * binary::one())),
{
    if let Some(display) = area.display {
        if binary::is_finite32(display.width) && binary::is_finite32(display.height)
            && binary::value32(display.width) == 10 * m * binary::one() && binary::value32(
            display.height,
        ) == 10 * n * binary::one() && 0 < m < 0x100_0000 && 0 < n < 0x100_0000 {
            query::tenth_is_exact32(display.width, m);
            query::tenth_is_exact32(display.height, n);
        }
    }
}

/// Each theme has a mode of its own, and every other name has that of the system.
pub proof fn themes_have_their_modes(theme: Seq<char>)
    ensures
        theme == "Light"@ ==> mode_of(theme) == "light"@,
        theme == "Dark"@ ==> mode_of(theme) == "dark"@,
        theme != "Light"@ && theme != "Dark"@ ==> mode_of(theme) == "system"@,
{
    reveal_strlit("Light");
    reveal_strlit("Dark");
    assert("Light"@.len() == 5 && "Dark"@.len() == 4);
}

} // verus!
