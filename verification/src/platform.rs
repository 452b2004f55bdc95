//! Where the platforms keep things, and what they ask of the backend.

use crate::query::QueryRules;
use crate::text;
use crate::time::Duration;
use vstd::prelude::*;

verus! {

/// A directory that only the running system knows.
#[derive(Clone, Copy, Debug, PartialEq, Eq, Structural)]
pub enum Base {
    Home,
    ConfigHome,
    DataHome,
    UserProfile,
    AppData,
    LocalAppData,
    Temporary,
    /// The directory of the running executable.
    ExecutableDirectory,
    /// The directory above that.
    ContentsDirectory,
    /// The directory that the resources were put in.
    ResourceDirectory,
    /// The directory that the application was built in.
    SourceDirectory,
    /// The daemon that the user named.
    NamedDaemon,
}

/// Which of the directories the environment gives.
#[derive(Clone, Copy, Debug, PartialEq, Eq, Structural)]
pub struct Environment {
    pub home: bool,
    pub config_home: bool,
    pub data_home: bool,
    pub user_profile: bool,
    pub app_data: bool,
    pub local_app_data: bool,
}

/// A file or a directory.
#[derive(Debug)]
pub struct Location {
    pub base: Base,
    pub relative: String,
}

/// A file or a directory.
pub struct Place {
    pub base: Base,
    pub relative: Seq<char>,
}

impl View for Location {
    type V = Place;

    open spec fn view(&self) -> Place {
        Place { base: self.base, relative: self.relative@ }
    }
}

/// What some locations are.
pub open spec fn places(list: Seq<Location>) -> Seq<Place> {
    list.map_values(|location: Location| location@)
}

impl Place {
    /// What lies below this directory.
    pub open spec fn below(self, name: Seq<char>) -> Place {
        Place { base: self.base, relative: self.relative + seq!['/'] + name }
    }
}

impl Location {
    pub fn new(base: Base, relative: &str) -> (location: Location)
        ensures
            location@ == (Place { base, relative: relative@ }),
    {
        Location { base, relative: relative.to_owned() }
    }

    /// What lies below this directory.
    pub fn join(&self, name: &str) -> (location: Location)
        ensures
            location@ == self@.below(name@),
    {
        let mut relative = self.relative.clone();
        relative.push('/');
        relative.append(name);
        assert(relative@ =~= self.relative@ + seq!['/'] + name@);
        Location { base: self.base, relative }
    }

    /// The path of this location, where the path of its base is known.
    pub fn path_in(&self, base: &str) -> (path: String)
        ensures
            path@ == base@ + seq!['/'] + self.relative@,
    {
        let mut path = base.to_owned();
        path.push('/');
        path.append(self.relative.as_str());
        assert(path@ =~= base@ + seq!['/'] + self.relative@);
        path
    }
}

/// The name that a file is written under before it takes another one's place.
pub fn temporary_driver_settings() -> (name: &'static str)
    ensures
        name@ == "settings.json.tmp"@,
{
    "settings.json.tmp"
}

// ---- where settings are read ----

/// The locations that differ from another one.
pub open spec fn others(list: Seq<Place>, primary: Place) -> Seq<Place>
    decreases list.len(),
{
    if list.len() == 0 {
        Seq::empty()
    } else if list.last() == primary {
        others(list.drop_last(), primary)
    } else {
        others(list.drop_last(), primary).push(list.last())
    }
}

/// Where settings are read, in order: at their place, and then where they were kept before.
pub open spec fn sources(primary: Option<Place>, legacy: Seq<Place>) -> Seq<Place> {
    match primary {
        Some(place) => seq![place] + others(legacy, place),
        None => legacy,
    }
}

fn same_location(a: &Location, b: &Location) -> (same: bool)
    ensures
        same == (a@ == b@),
{
    a.base == b.base && text::same_text(a.relative.as_str(), b.relative.as_str())
}

/// Where settings are read, in order.
pub fn settings_sources(primary: Option<Location>, legacy: Vec<Location>) -> (list: Vec<Location>)
    ensures
        places(list@) == sources(
            match primary {
                Some(location) => Some(location@),
                None => None,
            },
            places(legacy@),
        ),
{
    let first = match primary {
        Some(location) => location,
        None => return legacy,
    };
    let ghost old_places = places(legacy@);
    let ghost place = first@;
    let mut list: Vec<Location> = Vec::new();
    list.push(Location { base: first.base, relative: first.relative.clone() });
    assert(places(list@) =~= seq![place] + others(old_places.take(0), place));
    let mut i: usize = 0;
    while i < legacy.len()
        invariant
            i <= legacy@.len(),
            old_places == places(legacy@),
            place == first@,
            places(list@) == seq![place] + others(old_places.take(i as int), place),
        decreases legacy@.len() - i,
    {
        let ghost before = places(list@);
        assert(old_places.take(i + 1).drop_last() =~= old_places.take(i as int));
        assert(old_places.take(i + 1).last() == legacy@[i as int]@);
        if !same_location(&legacy[i], &first) {
            list.push(Location { base: legacy[i].base, relative: legacy[i].relative.clone() });
            assert(places(list@) =~= before.push(legacy@[i as int]@));
            assert(before.push(legacy@[i as int]@) =~= seq![place] + others(
                old_places.take(i + 1),
                place,
            ));
        }
        i = i + 1;
    }
    assert(old_places.take(i as int) =~= old_places);
    list
}

// ---- one instance ----

/// How an attempt to become the only instance went.
#[derive(Clone, Copy, Debug, PartialEq, Eq, Structural)]
pub enum InstanceEvent {
    /// The name was free, and is ours now.
    Bound,
    /// Somebody has the name.
    InUse,
    /// Whoever has the name answers, or does not.
    Answered(bool),
    /// The name could not be had for another reason.
    Failed,
}

/// What follows.
#[derive(Clone, Copy, Debug, PartialEq, Eq, Structural)]
pub enum InstanceStep {
    /// This is the only instance.
    Hold,
    /// See whether whoever has the name answers.
    Ask,
    /// The name is left over: remove it, and try once more to have it.
    Reclaim,
    /// There is another instance, or there is no way to know.
    Leave,
}

/// What follows an attempt to become the only instance. `again` says that the name was
/// removed before.
pub fn acquire_instance_guard(event: InstanceEvent, again: bool) -> (step: InstanceStep)
    ensures
        step == match event {
            InstanceEvent::Bound => InstanceStep::Hold,
            InstanceEvent::InUse => if again {
                InstanceStep::Leave
            } else {
                InstanceStep::Ask
            },
            InstanceEvent::Answered(true) => InstanceStep::Leave,
            InstanceEvent::Answered(false) => InstanceStep::Reclaim,
            InstanceEvent::Failed => InstanceStep::Leave,
        },
{
    match event {
        InstanceEvent::Bound => InstanceStep::Hold,
        InstanceEvent::InUse => if again {
            InstanceStep::Leave
        } else {
            InstanceStep::Ask
        },
        InstanceEvent::Answered(answers) => if answers {
            InstanceStep::Leave
        } else {
            InstanceStep::Reclaim
        },
        InstanceEvent::Failed => InstanceStep::Leave,
    }
}

/// The name that a user's only instance has.
pub fn instance_name(uid: &str) -> (name: String)
    ensures
        name@ == "tabletflow-"@ + uid@ + ".sock"@,
{
    "tabletflow-".to_owned().concat(uid).concat(".sock")
}

// ---- Linux ----

pub struct LinuxPlatform;

/// The settings on Linux.
pub open spec fn linux_settings(env: Environment) -> Option<Place> {
    if env.config_home {
        Some(Place { base: Base::ConfigHome, relative: "tabletflow/settings.conf"@ })
    } else if env.home {
        Some(Place { base: Base::Home, relative: ".config/tabletflow/settings.conf"@ })
    } else {
        None
    }
}

/// Where settings were kept on Linux before.
pub open spec fn linux_legacy_settings(env: Environment) -> Seq<Place> {
    (if env.home {
        seq![
            Place { base: Base::Home, relative: ".tabletflow/settings.conf"@ },
            Place { base: Base::Home, relative: ".config/TabletFlow/settings.conf"@ },
        ]
    } else {
        Seq::empty()
    }) + (if env.config_home {
        seq![Place { base: Base::ConfigHome, relative: "TabletFlow/settings.conf"@ }]
    } else {
        Seq::empty()
    })
}

/// The directory of the application's data on Linux.
pub open spec fn linux_data_root(data_home: bool, home: bool) -> Place {
    if data_home {
        Place { base: Base::DataHome, relative: "TabletFlow"@ }
    } else if home {
        Place { base: Base::Home, relative: ".local/share/TabletFlow"@ }
    } else {
        Place { base: Base::Temporary, relative: "TabletFlow"@ }
    }
}

/// The directory of the application's data on Linux.
pub fn local_data_root_from(data_home: bool, home: bool) -> (root: Location)
    ensures
        root@ == linux_data_root(data_home, home),
{
    if data_home {
        Location::new(Base::DataHome, "TabletFlow")
    } else if home {
        Location::new(Base::Home, ".local/share/TabletFlow")
    } else {
        Location::new(Base::Temporary, "TabletFlow")
    }
}

/// The directory that the driver keeps its settings in.
pub open spec fn appdata(env: Environment) -> Place {
    linux_data_root(env.data_home, env.home).below("OpenTabletDriver"@)
}

/// The directory that the driver keeps its settings in.
pub fn otd_appdata_dir(env: Environment) -> (directory: Location)
    ensures
        directory@ == appdata(env),
{
    local_data_root_from(env.data_home, env.home).join("OpenTabletDriver")
}

/// The file that the driver's settings are written to.
pub open spec fn persisted_settings(env: Environment) -> Place {
    appdata(env).below("settings.json"@)
}

/// The file that the driver's settings are written to.
pub fn persisted_settings_path(env: Environment) -> (path: Location)
    ensures
        path@ == persisted_settings(env),
{
    otd_appdata_dir(env).join("settings.json")
}

/// The rules of the platforms that map a new tablet themselves.
pub open spec fn mapping_rules() -> QueryRules {
    QueryRules { restore_pipeline: false, auto_map: true }
}

/// The rules of the platforms that restore the driver's pipeline.
pub open spec fn restoring_rules() -> QueryRules {
    QueryRules { restore_pipeline: true, auto_map: false }
}

impl LinuxPlatform {
    pub fn name(&self) -> (name: &'static str)
        ensures
            name@ == "Linux"@,
    {
        "Linux"
    }

    pub fn default_close_to_tray(&self) -> (close: bool)
        ensures
            !close,
    {
        false
    }

    pub fn settings_path(&self, env: Environment) -> (path: Option<Location>)
        ensures
            match path {
                Some(location) => linux_settings(env) == Some(location@),
                None => linux_settings(env) is None,
            },
    {
        if env.config_home {
            Some(Location::new(Base::ConfigHome, "tabletflow/settings.conf"))
        } else if env.home {
            Some(Location::new(Base::Home, ".config/tabletflow/settings.conf"))
        } else {
            None
        }
    }

    pub fn legacy_settings_paths(&self, env: Environment) -> (paths: Vec<Location>)
        ensures
            places(paths@) == linux_legacy_settings(env),
    {
        let mut paths: Vec<Location> = Vec::new();
        if env.home {
            paths.push(Location::new(Base::Home, ".tabletflow/settings.conf"));
            paths.push(Location::new(Base::Home, ".config/TabletFlow/settings.conf"));
        }
        if env.config_home {
            paths.push(Location::new(Base::ConfigHome, "TabletFlow/settings.conf"));
        }
        assert(places(paths@) =~= linux_legacy_settings(env));
        paths
    }

    pub fn rules(&self) -> (rules: QueryRules)
        ensures
            rules == mapping_rules(),
    {
        QueryRules { restore_pipeline: false, auto_map: true }
    }

    pub fn rpc_timeout(&self, method: &str) -> (timeout: Duration)
        ensures
            timeout.nanos == Duration::of_millis(15_000),
    {
        Duration::from_secs(15)
    }
}

// ---- macOS ----

pub struct MacOsPlatform;

/// The settings on macOS.
pub open spec fn mac_settings(env: Environment) -> Option<Place> {
    if env.home {
        Some(
            Place {
                base: Base::Home,
                relative: "Library/Application Support/TabletFlow/settings.conf"@,
            },
        )
    } else {
        None
    }
}

/// Where settings were kept on macOS before.
pub open spec fn mac_legacy_settings(env: Environment) -> Seq<Place> {
    if env.home {
        seq![Place { base: Base::Home, relative: ".tabletflow/settings.conf"@ }]
    } else {
        Seq::empty()
    }
}

impl MacOsPlatform {
    pub fn name(&self) -> (name: &'static str)
        ensures
            name@ == "macOS"@,
    {
        "macOS"
    }

    pub fn default_close_to_tray(&self) -> (close: bool)
        ensures
            !close,
    {
        false
    }

    pub fn settings_path(&self, env: Environment) -> (path: Option<Location>)
        ensures
            match path {
                Some(location) => mac_settings(env) == Some(location@),
                None => mac_settings(env) is None,
            },
    {
        if env.home {
            Some(
                Location::new(
                    Base::Home,
                    "Library/Application Support/TabletFlow/settings.conf",
                ),
            )
        } else {
            None
        }
    }

    pub fn legacy_settings_paths(&self, env: Environment) -> (paths: Vec<Location>)
        ensures
            places(paths@) == mac_legacy_settings(env),
    {
        let mut paths: Vec<Location> = Vec::new();
        if env.home {
            paths.push(Location::new(Base::Home, ".tabletflow/settings.conf"));
        }
        assert(places(paths@) =~= mac_legacy_settings(env));
        paths
    }

    pub fn rules(&self) -> (rules: QueryRules)
        ensures
            rules == mapping_rules(),
    {
        QueryRules { restore_pipeline: false, auto_map: true }
    }

    pub fn rpc_timeout(&self, method: &str) -> (timeout: Duration)
        ensures
            timeout.nanos == Duration::of_millis(15_000),
    {
        Duration::from_secs(15)
    }

    /// Which of the two permissions to ask for next, where one is missing.
    pub fn missing_permission(&self, input_monitoring: bool, accessibility: bool) -> (
        missing: Option<MacPermission>)
        ensures
            missing == if !input_monitoring {
                Some(MacPermission::InputMonitoring)
            } else if !accessibility {
                Some(MacPermission::Accessibility)
            } else {
                None
            },
    {
        if !input_monitoring {
            Some(MacPermission::InputMonitoring)
        } else if !accessibility {
            Some(MacPermission::Accessibility)
        } else {
            None
        }
    }
}

/// What macOS must allow.
#[derive(Clone, Copy, Debug, PartialEq, Eq, Structural)]
pub enum MacPermission {
    InputMonitoring,
    Accessibility,
}

impl MacPermission {
    /// The page of the system's preferences that grants it.
    pub open spec fn page(self) -> Seq<char> {
        match self {
            MacPermission::InputMonitoring => {
                "x-apple.systempreferences:com.apple.preference.security?Privacy_ListenEvent"@
            },
            MacPermission::Accessibility => {
                "x-apple.systempreferences:com.apple.preference.security?Privacy_Accessibility"@
            },
        }
    }

    /// The page of the system's preferences that grants it.
    pub fn preferences_url(self) -> (url: &'static str)
        ensures
            url@ == self.page(),
    {
        match self {
            MacPermission::InputMonitoring => {
                "x-apple.systempreferences:com.apple.preference.security?Privacy_ListenEvent"
            },
            MacPermission::Accessibility => {
                "x-apple.systempreferences:com.apple.preference.security?Privacy_Accessibility"
            },
        }
    }
}

// ---- Windows ----

pub struct WindowsPlatform;

/// The settings on Windows.
pub open spec fn windows_settings(env: Environment) -> Option<Place> {
    if env.app_data {
        Some(Place { base: Base::AppData, relative: "TabletFlow/settings.conf"@ })
    } else if env.user_profile {
        Some(Place { base: Base::UserProfile, relative: "TabletFlow/settings.conf"@ })
    } else {
        None
    }
}

/// Where settings were kept on Windows before.
pub open spec fn windows_legacy_settings(env: Environment) -> Seq<Place> {
    if env.user_profile {
        seq![Place { base: Base::UserProfile, relative: ".tabletflow/settings.conf"@ }]
    } else {
        Seq::empty()
    }
}

/// The directory of the application's data on Windows.
pub open spec fn windows_data_root(env: Environment) -> Place {
    Place {
        base: if env.local_app_data {
            Base::LocalAppData
        } else {
            Base::Temporary
        },
        relative: "TabletFlow"@,
    }
}

/// The directory of the application's data on Windows.
pub fn local_data_root(env: Environment) -> (root: Location)
    ensures
        root@ == windows_data_root(env),
{
    Location::new(
        if env.local_app_data {
            Base::LocalAppData
        } else {
            Base::Temporary
        },
        "TabletFlow",
    )
}

/// The log of the application.
pub fn supervisor_log_path(env: Environment) -> (path: Location)
    ensures
        path@ == windows_data_root(env).below("Logs/tabletflow-windows.log"@),
{
    local_data_root(env).join("Logs/tabletflow-windows.log")
}

/// The log of the driver.
pub fn daemon_console_log_path(env: Environment) -> (path: Location)
    ensures
        path@ == windows_data_root(env).below("Logs/opentabletdriver-console.log"@),
{
    local_data_root(env).join("Logs/opentabletdriver-console.log")
}

/// The directory that the driver keeps its settings in on Windows.
pub open spec fn windows_appdata(env: Environment) -> Place {
    windows_data_root(env).below("OpenTabletDriver"@)
}

/// The directory that the driver keeps its settings in on Windows.
pub fn windows_appdata_dir(env: Environment) -> (directory: Location)
    ensures
        directory@ == windows_appdata(env),
{
    local_data_root(env).join("OpenTabletDriver")
}

/// The driver's settings on Windows.
pub open spec fn windows_driver_settings(env: Environment) -> Place {
    windows_data_root(env).below("OpenTabletDriver/settings.json"@)
}

/// The driver's settings on Windows.
pub fn driver_settings_path(env: Environment) -> (path: Location)
    ensures
        path@ == windows_driver_settings(env),
{
    local_data_root(env).join("OpenTabletDriver/settings.json")
}

impl WindowsPlatform {
    pub fn name(&self) -> (name: &'static str)
        ensures
            name@ == "Windows"@,
    {
        "Windows"
    }

    pub fn default_close_to_tray(&self) -> (close: bool)
        ensures
            close,
    {
        true
    }

    pub fn settings_path(&self, env: Environment) -> (path: Option<Location>)
        ensures
            match path {
                Some(location) => windows_settings(env) == Some(location@),
                None => windows_settings(env) is None,
            },
    {
        if env.app_data {
            Some(Location::new(Base::AppData, "TabletFlow/settings.conf"))
        } else if env.user_profile {
            Some(Location::new(Base::UserProfile, "TabletFlow/settings.conf"))
        } else {
            None
        }
    }

    pub fn legacy_settings_paths(&self, env: Environment) -> (paths: Vec<Location>)
        ensures
            places(paths@) == windows_legacy_settings(env),
    {
        let mut paths: Vec<Location> = Vec::new();
        if env.user_profile {
            paths.push(Location::new(Base::UserProfile, ".tabletflow/settings.conf"));
        }
        assert(places(paths@) =~= windows_legacy_settings(env));
        paths
    }

    pub fn rules(&self) -> (rules: QueryRules)
        ensures
            rules == restoring_rules(),
    {
        QueryRules { restore_pipeline: true, auto_map: false }
    }

    /// A detection and a change of the settings may take long: the driver looks at every
    /// device then.
    pub fn rpc_timeout(&self, method: &str) -> (timeout: Duration)
        ensures
            timeout.nanos == Duration::of_millis(
                if method@ == "DetectTablets"@ || method@ == "SetSettings"@ {
                    180_000
                } else {
                    30_000
                },
            ),
    {
        if text::same_text(method, "DetectTablets") || text::same_text(method, "SetSettings") {
            Duration::from_secs(180)
        } else {
            Duration::from_secs(30)
        }
    }
}

// ---- laws ----

/// A place is at a path below a base.
pub open spec fn is_at(place: Place, base: Base, path: Seq<char>) -> bool {
    place.base == base && place.relative == path
}

/// The settings are in a directory that the environment gives: the one for settings where there
/// is one, else the one of the user. Without both there are none.
pub proof fn settings_are_in_given_directories(env: Environment)
    ensures
        env.config_home ==> (linux_settings(env) matches Some(place) && is_at(
            place,
            Base::ConfigHome,
            "tabletflow/settings.conf"@,
        )),
        !env.config_home && env.home ==> (linux_settings(env) matches Some(place) && is_at(
            place,
            Base::Home,
            ".config/tabletflow/settings.conf"@,
        )),
        linux_settings(env) is None <==> !env.config_home && !env.home,
        env.home ==> (mac_settings(env) matches Some(place) && is_at(
            place,
            Base::Home,
            "Library/Application Support/TabletFlow/settings.conf"@,
        )),
        mac_settings(env) is None <==> !env.home,
        env.app_data ==> (windows_settings(env) matches Some(place) && is_at(
            place,
            Base::AppData,
            "TabletFlow/settings.conf"@,
        )),
        !env.app_data && env.user_profile ==> (windows_settings(env) matches Some(place) && is_at(
            place,
            Base::UserProfile,
            "TabletFlow/settings.conf"@,
        )),
        windows_settings(env) is None <==> !env.app_data && !env.user_profile,
{
}

/// Settings were kept before in these places, below the directories that the environment gives.
pub proof fn earlier_settings_are_in_given_directories(env: Environment)
    ensures
        ({
            let list = linux_legacy_settings(env);
            let own = if env.home {
                2int
            } else {
                0
            };
            &&& list.len() == own + if env.config_home {
                1int
            } else {
                0
            }
            &&& env.home ==> is_at(list[0], Base::Home, ".tabletflow/settings.conf"@) && is_at(
                list[1],
                Base::Home,
                ".config/TabletFlow/settings.conf"@,
            )
            &&& env.config_home ==> is_at(list[own], Base::ConfigHome, "TabletFlow/settings.conf"@)
        }),
        mac_legacy_settings(env).len() == if env.home {
            1int
        } else {
            0
        },
        env.home ==> is_at(mac_legacy_settings(env)[0], Base::Home, ".tabletflow/settings.conf"@),
        windows_legacy_settings(env).len() == if env.user_profile {
            1int
        } else {
            0
        },
        env.user_profile ==> is_at(
            windows_legacy_settings(env)[0],
            Base::UserProfile,
            ".tabletflow/settings.conf"@,
        ),
{
}

/// The driver's settings are below the directory of the application's data: the one for data where
/// the environment gives it, else the one of the user, else the one for temporary files.
pub proof fn driver_settings_are_below_the_data(env: Environment)
    ensures
        ({
            let base = if env.data_home {
                Base::DataHome
            } else if env.home {
                Base::Home
            } else {
                Base::Temporary
            };
            let root = if !env.data_home && env.home {
                ".local/share/TabletFlow"@
            } else {
                "TabletFlow"@
            };
            &&& is_at(appdata(env), base, root + seq!['/'] + "OpenTabletDriver"@)
            &&& is_at(
                persisted_settings(env),
                base,
                root + seq!['/'] + "OpenTabletDriver"@ + seq!['/'] + "settings.json"@,
            )
        }),
        ({
            let base = if env.local_app_data {
                Base::LocalAppData
            } else {
                Base::Temporary
            };
            &&& is_at(windows_data_root(env), base, "TabletFlow"@)
            &&& is_at(
                windows_appdata(env),
                base,
                "TabletFlow"@ + seq!['/'] + "OpenTabletDriver"@,
            )
            &&& is_at(
                windows_driver_settings(env),
                base,
                "TabletFlow"@ + seq!['/'] + "OpenTabletDriver/settings.json"@,
            )
        }),
{
}

/// The platforms that map a tablet themselves do not restore the pipeline, and the other way
/// around.
pub proof fn tablets_are_mapped_or_restored()
    ensures
        mapping_rules().auto_map && !mapping_rules().restore_pipeline,
        restoring_rules().restore_pipeline && !restoring_rules().auto_map,
{
}

/// Each permission has its own page.
pub proof fn permissions_have_their_pages()
    ensures
        MacPermission::InputMonitoring.page()
            == "x-apple.systempreferences:com.apple.preference.security?Privacy_ListenEvent"@,
        MacPermission::Accessibility.page()
            == "x-apple.systempreferences:com.apple.preference.security?Privacy_Accessibility"@,
{
}

/// Settings are read at their place first, and then where they were kept before, in order; each
/// of those places is read, and the first one is not read twice.
pub proof fn settings_are_read_at_their_place_first(
    primary: Place,
    legacy: Seq<Place>,
    place: Place,
)
    ensures
        sources(None, legacy) == legacy,
        sources(Some(primary), legacy).len() > 0,
        sources(Some(primary), legacy)[0] == primary,
        sources(Some(primary), Seq::empty()).len() == 1,
        place == primary ==> sources(Some(primary), legacy.push(place)) == sources(
            Some(primary),
            legacy,
        ),
        place != primary ==> sources(Some(primary), legacy.push(place)) == sources(
            Some(primary),
            legacy,
        ).push(place),
{
    assert(legacy.push(place).drop_last() =~= legacy);
    let rest = others(legacy, primary);
    assert(seq![primary] + rest.push(place) =~= (seq![primary] + rest).push(place));
}

/// What is said of a location follows its fields, each for its own.
pub proof fn locations_are_what_their_fields_say(location: Location)
    ensures
        location@.base == location.base,
        location@.relative == location.relative@,
{
}

} // verus!
