//! The driver's daemon: where it may be, whether it is complete, when to start it, and how
//! a package is tested with it.

use crate::decimal;
use crate::json::{Json, Tree};
use crate::platform;
use crate::platform::{Base, Environment, Location, Place};
use crate::text;
use crate::time;
use crate::time::{Duration, Instant};
use vstd::prelude::*;

verus! {

// ---- where the daemon may be ----

/// What is known of the package.
#[derive(Clone, Copy, Debug, PartialEq, Eq, Structural)]
pub struct PackageFacts {
    /// The directory of the running executable is known.
    pub executable_directory: bool,
    /// So is the one above it.
    pub contents_directory: bool,
    /// There is a directory that the resources were put in.
    pub resource_directory: bool,
    /// The user named a daemon.
    pub named_daemon: bool,
}

/// The architectures that the driver is built for.
#[derive(Clone, Copy, Debug, PartialEq, Eq, Structural)]
pub enum Architecture {
    Arm64,
    X64,
    X86,
    Other,
}

/// The architecture with the name that the compiler gives it.
pub open spec fn architecture_named(name: Seq<char>) -> Architecture {
    if name == "aarch64"@ {
        Architecture::Arm64
    } else if name == "x86_64"@ {
        Architecture::X64
    } else if name == "x86"@ {
        Architecture::X86
    } else {
        Architecture::Other
    }
}

/// The architecture with the name that the compiler gives it.
pub fn architecture(name: &str) -> (found: Architecture)
    ensures
        found == architecture_named(name@),
{
    if text::same_text(name, "aarch64") {
        Architecture::Arm64
    } else if text::same_text(name, "x86_64") {
        Architecture::X64
    } else if text::same_text(name, "x86") {
        Architecture::X86
    } else {
        Architecture::Other
    }
}

/// The driver's name for a Linux build.
pub open spec fn linux_runtime(architecture: Architecture) -> Seq<char> {
    match architecture {
        Architecture::Arm64 => "target/otd/linux-arm64"@,
        Architecture::X86 => "target/otd/linux-x86"@,
        _ => "target/otd/linux-x64"@,
    }
}

/// The driver's name for a macOS build.
pub open spec fn mac_runtime(architecture: Architecture) -> Seq<char> {
    match architecture {
        Architecture::Arm64 => "target/otd/osx-arm64"@,
        _ => "target/otd/osx-x64"@,
    }
}

/// The driver's name for a Windows build.
pub open spec fn windows_runtime(architecture: Architecture) -> Seq<char> {
    match architecture {
        Architecture::Arm64 => "target/otd/win-arm64"@,
        Architecture::X86 => "target/otd/win-x86"@,
        _ => "target/otd/win-x64"@,
    }
}

/// The daemon in a directory: as a program, or to be run by another one.
pub open spec fn both_forms(base: Base, program: Seq<char>, library: Seq<char>) -> Seq<Place> {
    seq![Place { base, relative: program }, Place { base, relative: library }]
}

/// The daemon below a directory of the source.
pub open spec fn built_forms(directory: Seq<char>) -> Seq<Place> {
    let root = Place { base: Base::SourceDirectory, relative: directory };
    seq![root.below("OpenTabletDriver.Daemon"@), root.below("OpenTabletDriver.Daemon.dll"@)]
}

/// The daemon next to the executable.
pub open spec fn packaged_forms(facts: PackageFacts) -> Seq<Place> {
    if facts.executable_directory {
        both_forms(
            Base::ExecutableDirectory,
            "OpenTabletDriver.Daemon"@,
            "OpenTabletDriver.Daemon.dll"@,
        ) + both_forms(
            Base::ExecutableDirectory,
            "resources/OpenTabletDriver.Daemon"@,
            "resources/OpenTabletDriver.Daemon.dll"@,
        )
    } else {
        Seq::empty()
    }
}

/// The daemon among the resources.
pub open spec fn resource_forms(facts: PackageFacts) -> Seq<Place> {
    if facts.resource_directory {
        both_forms(
            Base::ResourceDirectory,
            "OpenTabletDriver.Daemon"@,
            "OpenTabletDriver.Daemon.dll"@,
        )
    } else {
        Seq::empty()
    }
}

/// The daemon in the bundle above the executable.
pub open spec fn bundle_forms(facts: PackageFacts) -> Seq<Place> {
    if facts.executable_directory && facts.contents_directory {
        both_forms(
            Base::ContentsDirectory,
            "Resources/OpenTabletDriver.Daemon"@,
            "Resources/OpenTabletDriver.Daemon.dll"@,
        )
    } else {
        Seq::empty()
    }
}

/// Where the daemon may be on Linux, the first place first.
pub open spec fn linux_candidates(facts: PackageFacts, architecture: Architecture) -> Seq<Place> {
    built_forms(linux_runtime(architecture)) + packaged_forms(facts) + resource_forms(facts)
}

/// Where the daemon may be on macOS. What comes with the application comes before what was
/// built with it: a packaged application runs its own daemon.
pub open spec fn mac_candidates(facts: PackageFacts, architecture: Architecture) -> Seq<Place> {
    packaged_forms(facts) + bundle_forms(facts) + resource_forms(facts) + built_forms(
        mac_runtime(architecture),
    )
}

/// Where the daemon may be on Windows.
pub open spec fn windows_candidates(facts: PackageFacts, architecture: Architecture) -> Seq<
    Place,
> {
    (if facts.named_daemon {
        seq![Place { base: Base::NamedDaemon, relative: ""@ }]
    } else {
        Seq::empty()
    }) + (if facts.executable_directory {
        both_forms(
            Base::ExecutableDirectory,
            "OpenTabletDriver.Daemon.exe"@,
            "resources/OpenTabletDriver.Daemon.exe"@,
        )
    } else {
        Seq::empty()
    }) + (if facts.resource_directory {
        seq![Place { base: Base::ResourceDirectory, relative: "OpenTabletDriver.Daemon.exe"@ }]
    } else {
        Seq::empty()
    }) + seq![
        Place {
            base: Base::SourceDirectory,
            relative: windows_runtime(architecture),
        }.below("OpenTabletDriver.Daemon.exe"@),
    ]
}

fn push_one(list: &mut Vec<Location>, location: Location)
    ensures
        platform::places(final(list)@) == platform::places(old(list)@).push(location@),
{
    let ghost before = platform::places(list@);
    list.push(location);
    assert(platform::places(list@) =~= before.push(location@));
}

fn push_both(list: &mut Vec<Location>, base: Base, program: &str, library: &str)
    ensures
        platform::places(final(list)@) == platform::places(old(list)@) + both_forms(
            base,
            program@,
            library@,
        ),
{
    let ghost before = platform::places(list@);
    list.push(Location::new(base, program));
    list.push(Location::new(base, library));
    assert(platform::places(list@) =~= before + both_forms(base, program@, library@));
}

fn push_built(list: &mut Vec<Location>, directory: &str)
    ensures
        platform::places(final(list)@) == platform::places(old(list)@) + built_forms(directory@),
{
    let ghost before = platform::places(list@);
    let root = Location::new(Base::SourceDirectory, directory);
    list.push(root.join("OpenTabletDriver.Daemon"));
    list.push(root.join("OpenTabletDriver.Daemon.dll"));
    assert(platform::places(list@) =~= before + built_forms(directory@));
}

fn push_packaged(list: &mut Vec<Location>, facts: PackageFacts)
    ensures
        platform::places(final(list)@) == platform::places(old(list)@) + packaged_forms(facts),
{
    let ghost before = platform::places(list@);
    if facts.executable_directory {
        push_both(
            list,
            Base::ExecutableDirectory,
            "OpenTabletDriver.Daemon",
            "OpenTabletDriver.Daemon.dll",
        );
        push_both(
            list,
            Base::ExecutableDirectory,
            "resources/OpenTabletDriver.Daemon",
            "resources/OpenTabletDriver.Daemon.dll",
        );
    }
    assert(platform::places(list@) =~= before + packaged_forms(facts));
}

fn push_resources(list: &mut Vec<Location>, facts: PackageFacts)
    ensures
        platform::places(final(list)@) == platform::places(old(list)@) + resource_forms(facts),
{
    let ghost before = platform::places(list@);
    if facts.resource_directory {
        push_both(
            list,
            Base::ResourceDirectory,
            "OpenTabletDriver.Daemon",
            "OpenTabletDriver.Daemon.dll",
        );
    }
    assert(platform::places(list@) =~= before + resource_forms(facts));
}

/// Where the daemon may be on Linux.
pub fn candidates_on_linux(facts: PackageFacts, architecture: Architecture) -> (list: Vec<Location>)
    ensures
        platform::places(list@) == linux_candidates(facts, architecture),
{
    let mut list: Vec<Location> = Vec::new();
    match architecture {
        Architecture::Arm64 => push_built(&mut list, "target/otd/linux-arm64"),
        Architecture::X86 => push_built(&mut list, "target/otd/linux-x86"),
        _ => push_built(&mut list, "target/otd/linux-x64"),
    }
    push_packaged(&mut list, facts);
    push_resources(&mut list, facts);
    assert(platform::places(list@) =~= linux_candidates(facts, architecture));
    list
}

/// Where the daemon may be on macOS.
pub fn candidates_on_mac(facts: PackageFacts, architecture: Architecture) -> (list: Vec<Location>)
    ensures
        platform::places(list@) == mac_candidates(facts, architecture),
{
    let mut list: Vec<Location> = Vec::new();
    push_packaged(&mut list, facts);
    if facts.executable_directory && facts.contents_directory {
        push_both(
            &mut list,
            Base::ContentsDirectory,
            "Resources/OpenTabletDriver.Daemon",
            "Resources/OpenTabletDriver.Daemon.dll",
        );
    }
    push_resources(&mut list, facts);
    match architecture {
        Architecture::Arm64 => push_built(&mut list, "target/otd/osx-arm64"),
        _ => push_built(&mut list, "target/otd/osx-x64"),
    }
    assert(platform::places(list@) =~= mac_candidates(facts, architecture));
    list
}

/// Where the daemon may be on Windows.
pub fn candidates_on_windows(facts: PackageFacts, architecture: Architecture) -> (list: Vec<
    Location,
>)
    ensures
        platform::places(list@) == windows_candidates(facts, architecture),
{
    let mut list: Vec<Location> = Vec::new();
    if facts.named_daemon {
        push_one(&mut list, Location::new(Base::NamedDaemon, ""));
    }
    if facts.executable_directory {
        push_both(
            &mut list,
            Base::ExecutableDirectory,
            "OpenTabletDriver.Daemon.exe",
            "resources/OpenTabletDriver.Daemon.exe",
        );
    }
    if facts.resource_directory {
        push_one(
            &mut list,
            Location::new(Base::ResourceDirectory, "OpenTabletDriver.Daemon.exe"),
        );
    }
    let directory = match architecture {
        Architecture::Arm64 => "target/otd/win-arm64",
        Architecture::X86 => "target/otd/win-x86",
        _ => "target/otd/win-x64",
    };
    push_one(
        &mut list,
        Location::new(Base::SourceDirectory, directory).join("OpenTabletDriver.Daemon.exe"),
    );
    assert(platform::places(list@) =~= windows_candidates(facts, architecture));
    list
}

/// The systems that the driver is built for, but for Windows.
#[derive(Clone, Copy, Debug, PartialEq, Eq, Structural)]
pub enum UnixSystem {
    Mac,
    Linux,
    Other,
}

/// Where a build for some system and architecture is, where there is one.
pub open spec fn unix_build(system: UnixSystem, architecture: Architecture) -> Option<Seq<char>> {
    match (system, architecture) {
        (UnixSystem::Mac, Architecture::Arm64) => Some("target/otd/osx-arm64"@),
        (UnixSystem::Mac, Architecture::X64) => Some("target/otd/osx-x64"@),
        (UnixSystem::Linux, Architecture::Arm64) => Some("target/otd/linux-arm64"@),
        (UnixSystem::Linux, Architecture::X64) => Some("target/otd/linux-x64"@),
        (UnixSystem::Linux, Architecture::X86) => Some("target/otd/linux-x86"@),
        _ => None,
    }
}

/// Where the daemon may be, whatever the system: what was built comes first.
pub open spec fn unix_candidates(
    facts: PackageFacts,
    system: UnixSystem,
    architecture: Architecture,
) -> Seq<Place> {
    (match unix_build(system, architecture) {
        Some(directory) => built_forms(directory),
        None => Seq::empty(),
    }) + packaged_forms(facts) + bundle_forms(facts) + resource_forms(facts)
}

/// Where the daemon may be, whatever the system.
pub fn daemon_candidates(facts: PackageFacts, system: UnixSystem, architecture: Architecture) -> (
    list: Vec<Location>)
    ensures
        platform::places(list@) == unix_candidates(facts, system, architecture),
{
    let mut list: Vec<Location> = Vec::new();
    match (system, architecture) {
        (UnixSystem::Mac, Architecture::Arm64) => push_built(&mut list, "target/otd/osx-arm64"),
        (UnixSystem::Mac, Architecture::X64) => push_built(&mut list, "target/otd/osx-x64"),
        (UnixSystem::Linux, Architecture::Arm64) => push_built(&mut list, "target/otd/linux-arm64"),
        (UnixSystem::Linux, Architecture::X64) => push_built(&mut list, "target/otd/linux-x64"),
        (UnixSystem::Linux, Architecture::X86) => push_built(&mut list, "target/otd/linux-x86"),
        _ => {},
    }
    push_packaged(&mut list, facts);
    if facts.executable_directory && facts.contents_directory {
        push_both(
            &mut list,
            Base::ContentsDirectory,
            "Resources/OpenTabletDriver.Daemon",
            "Resources/OpenTabletDriver.Daemon.dll",
        );
    }
    push_resources(&mut list, facts);
    assert(platform::places(list@) =~= unix_candidates(facts, system, architecture));
    list
}

/// The first candidate from `from` on that is a file.
pub open spec fn first_file(is_file: Seq<bool>, from: int) -> Option<int>
    decreases is_file.len() - from,
{
    if from < 0 || from >= is_file.len() {
        None
    } else if is_file[from] {
        Some(from)
    } else {
        first_file(is_file, from + 1)
    }
}

/// The first candidate that is a file.
pub fn daemon_path(is_file: &Vec<bool>) -> (place: Option<usize>)
    ensures
        match place {
            Some(i) => i < is_file@.len() && first_file(is_file@, 0) == Some(i as int),
            None => first_file(is_file@, 0) is None,
        },
{
    let mut i: usize = 0;
    while i < is_file.len()
        invariant
            i <= is_file@.len(),
            first_file(is_file@, 0) == first_file(is_file@, i as int),
        decreases is_file@.len() - i,
    {
        if is_file[i] {
            return Some(i);
        }
        i = i + 1;
    }
    None
}

/// The first candidate that is a file.
pub fn embedded_daemon_path(is_file: &Vec<bool>) -> (place: Option<usize>)
    ensures
        match place {
            Some(i) => i < is_file@.len() && first_file(is_file@, 0) == Some(i as int),
            None => first_file(is_file@, 0) is None,
        },
{
    daemon_path(is_file)
}

/// The name of a file ends in `.dll`, after something.
pub open spec fn is_library(name: Seq<char>) -> bool {
    let n = name.len() as int;
    n > 4 && name[n - 4] == '.' && name[n - 3] == 'd' && name[n - 2] == 'l' && name[n - 1] == 'l'
}

/// Whether a daemon must be run by `dotnet`, by the name of its file.
pub fn needs_dotnet(name: &str) -> (needs: bool)
    ensures
        needs == is_library(name@),
{
    let chars = text::chars_of(name);
    let n: usize = chars.len();
    n > 4 && chars[n - 4] == '.' && chars[n - 3] == 'd' && chars[n - 2] == 'l' && chars[n - 1]
        == 'l'
}

// ---- the parts of the Windows package ----

/// The number of files that the daemon needs.
pub const REQUIRED_COUNT: usize = 13;

/// The files that the daemon needs.
pub open spec fn required(i: int) -> Seq<char> {
    if i == 0 {
        "OpenTabletDriver.Daemon.exe"@
    } else if i == 1 {
        "OpenTabletDriver.Daemon.dll"@
    } else if i == 2 {
        "OpenTabletDriver.Daemon.deps.json"@
    } else if i == 3 {
        "OpenTabletDriver.Daemon.runtimeconfig.json"@
    } else if i == 4 {
        "OpenTabletDriver.dll"@
    } else if i == 5 {
        "OpenTabletDriver.Configurations.dll"@
    } else if i == 6 {
        "OpenTabletDriver.Desktop.dll"@
    } else if i == 7 {
        "OpenTabletDriver.Native.dll"@
    } else if i == 8 {
        "OpenTabletDriver.Plugin.dll"@
    } else if i == 9 {
        "HidSharpCore.dll"@
    } else if i == 10 {
        "hostfxr.dll"@
    } else if i == 11 {
        "hostpolicy.dll"@
    } else {
        "coreclr.dll"@
    }
}

/// One of the files that the daemon needs.
pub fn required_file(i: usize) -> (name: &'static str)
    ensures
        name@ == required(i as int),
{
    match i {
        0 => "OpenTabletDriver.Daemon.exe",
        1 => "OpenTabletDriver.Daemon.dll",
        2 => "OpenTabletDriver.Daemon.deps.json",
        3 => "OpenTabletDriver.Daemon.runtimeconfig.json",
        4 => "OpenTabletDriver.dll",
        5 => "OpenTabletDriver.Configurations.dll",
        6 => "OpenTabletDriver.Desktop.dll",
        7 => "OpenTabletDriver.Native.dll",
        8 => "OpenTabletDriver.Plugin.dll",
        9 => "HidSharpCore.dll",
        10 => "hostfxr.dll",
        11 => "hostpolicy.dll",
        _ => "coreclr.dll",
    }
}

/// The names of the first `n` files that are missing, with commas between them.
pub open spec fn missing_names(present: Seq<bool>, n: nat) -> Seq<char>
    decreases n,
{
    if n == 0 {
        Seq::empty()
    } else {
        let before = missing_names(present, (n - 1) as nat);
        if present[n - 1] {
            before
        } else if none_missing(present, n - 1) {
            required(n - 1)
        } else {
            before + ", "@ + required(n - 1)
        }
    }
}

/// None of the first `n` files is missing.
pub open spec fn none_missing(present: Seq<bool>, n: int) -> bool {
    forall|i: int| 0 <= i < n ==> #[trigger] present[i]
}

/// Why the daemon of a package cannot be run.
#[derive(Debug)]
pub enum BundleError {
    /// None of the candidates is a file.
    DaemonMissing,
    /// These files are missing next to it.
    Incomplete(String),
}

impl BundleError {
    /// What to tell the user.
    pub open spec fn says(self) -> Seq<char> {
        match self {
            BundleError::DaemonMissing => {
                "OpenTabletDriver.Daemon.exe is missing from the TabletFlow directory"@
            },
            BundleError::Incomplete(names) => "incomplete OpenTabletDriver runtime; missing: "@
                + names@,
        }
    }

    /// What to tell the user.
    pub fn message(&self) -> (text: String)
        ensures
            text@ == self.says(),
    {
        match self {
            BundleError::DaemonMissing => {
                "OpenTabletDriver.Daemon.exe is missing from the TabletFlow directory".to_owned()
            },
            BundleError::Incomplete(names) => {
                "incomplete OpenTabletDriver runtime; missing: ".to_owned().concat(names.as_str())
            },
        }
    }
}

/// Whether the files next to the daemon are complete.
pub fn validate_daemon_bundle(present: &Vec<bool>) -> (complete: Result<(), BundleError>)
    requires
        present@.len() == REQUIRED_COUNT,
    ensures
        match complete {
            Ok(_) => none_missing(present@, 13),
            Err(BundleError::Incomplete(names)) => !none_missing(present@, 13) && names@
                == missing_names(present@, 13),
            Err(_) => false,
        },
{
    let mut names = String::new();
    let mut any = false;
    let mut i: usize = 0;
    while i < REQUIRED_COUNT
        invariant
            i <= REQUIRED_COUNT == 13,
            present@.len() == REQUIRED_COUNT,
            any == !none_missing(present@, i as int),
            names@ == missing_names(present@, i as nat),
        decreases REQUIRED_COUNT - i,
    {
        if !present[i] {
            if any {
                names.append(", ");
                names.append(required_file(i));
            } else {
                names = required_file(i).to_owned();
            }
            any = true;
            assert(!present@[i as int]);
        }
        i = i + 1;
        proof {
            assert(names@ =~= missing_names(present@, i as nat));
        }
    }
    if any {
        Err(BundleError::Incomplete(names))
    } else {
        Ok(())
    }
}

/// The daemon of a package: the first candidate that is a file. `present` says which of the
/// files that it needs are next to it.
pub fn validate_bundle(is_file: &Vec<bool>, present: &Vec<bool>) -> (daemon: Result<
    usize,
    BundleError,
>)
    requires
        present@.len() == REQUIRED_COUNT,
    ensures
        match daemon {
            Ok(i) => first_file(is_file@, 0) == Some(i as int) && none_missing(present@, 13),
            Err(BundleError::DaemonMissing) => first_file(is_file@, 0) is None,
            Err(BundleError::Incomplete(names)) => first_file(is_file@, 0) is Some
                && !none_missing(present@, 13) && names@ == missing_names(present@, 13),
        },
{
    match daemon_path(is_file) {
        None => Err(BundleError::DaemonMissing),
        Some(i) => match validate_daemon_bundle(present) {
            Ok(_) => Ok(i),
            Err(error) => Err(error),
        },
    }
}

// ---- whether it runs ----

/// What a look at an own daemon gave.
#[derive(Clone, Copy, Debug, PartialEq, Eq, Structural)]
pub enum ChildState {
    Running,
    Exited,
    /// The system did not say.
    Unknown,
}

/// Whether there is a daemon of our own.
#[derive(Clone, Copy, Debug, PartialEq, Eq, Structural)]
pub struct OwnedDaemon {
    pub held: bool,
}

/// Whether an own daemon runs, by a look at it. One that does not run is forgotten.
pub fn owned_is_running(daemon: &mut OwnedDaemon, look: ChildState) -> (running: bool)
    ensures
        running == (old(daemon).held && look is Running),
        final(daemon).held == running,
{
    let running = daemon.held && match look {
        ChildState::Running => true,
        _ => false,
    };
    daemon.held = running;
    running
}

/// Forgets the own daemon. Whether there is one to end.
pub fn stop(daemon: &mut OwnedDaemon) -> (end: bool)
    ensures
        end == old(daemon).held,
        !final(daemon).held,
{
    let end = daemon.held;
    daemon.held = false;
    end
}

/// One argument of the daemon.
#[derive(Debug)]
pub enum Argument {
    Word(&'static str),
    Path(Location),
}

/// One argument of the daemon.
pub enum Part {
    Word(Seq<char>),
    Path(Place),
}

impl View for Argument {
    type V = Part;

    open spec fn view(&self) -> Part {
        match self {
            Argument::Word(word) => Part::Word(word@),
            Argument::Path(location) => Part::Path(location@),
        }
    }
}

/// What some arguments are.
pub open spec fn parts(list: Seq<Argument>) -> Seq<Part> {
    list.map_values(|argument: Argument| argument@)
}

/// The arguments of a daemon that keeps its settings in a directory.
pub open spec fn settings_in(directory: Place) -> Seq<Part> {
    seq![Part::Word("--appdata"@), Part::Path(directory)]
}

/// The arguments of a daemon that keeps its settings in a directory.
pub fn daemon_arguments(directory: Location) -> (list: Vec<Argument>)
    ensures
        parts(list@) == settings_in(directory@),
{
    let mut list: Vec<Argument> = Vec::new();
    list.push(Argument::Word("--appdata"));
    list.push(Argument::Path(directory));
    assert(parts(list@) =~= settings_in(directory@));
    list
}

/// What to do when the daemon is to be started from a package.
#[derive(Debug)]
pub enum StartPlan {
    /// A driver runs already, or somebody else started one.
    Nothing,
    /// The package has no daemon.
    Missing,
    /// Start this candidate, with these arguments.
    Spawn(usize, Vec<Argument>),
}

/// What to do when the daemon is to be started from a package. Where the processes of others
/// count, one of theirs is waited for. The daemon is told to keep its settings where this
/// application writes them.
pub fn start(owned: bool, ipc: bool, is_file: &Vec<bool>, foreign: bool, env: Environment) -> (
    plan: StartPlan)
    ensures
        match plan {
            StartPlan::Nothing => owned || ipc || (first_file(is_file@, 0) is Some && foreign),
            StartPlan::Missing => !owned && !ipc && first_file(is_file@, 0) is None,
            StartPlan::Spawn(i, arguments) => !owned && !ipc && !foreign && i < is_file@.len()
                && first_file(is_file@, 0) == Some(i as int) && parts(arguments@) == settings_in(
                platform::appdata(env),
            ),
        },
{
    if owned || ipc {
        return StartPlan::Nothing;
    }
    match daemon_path(is_file) {
        None => StartPlan::Missing,
        Some(i) => if foreign {
            StartPlan::Nothing
        } else {
            StartPlan::Spawn(i, daemon_arguments(platform::otd_appdata_dir(env)))
        },
    }
}

/// Whether a driver runs, by what is known of it.
pub fn daemon_is_running(owned: bool, ipc: bool, process: bool) -> (running: bool)
    ensures
        running == (owned || ipc || process),
{
    ipc || owned || process
}

/// The state of the backend, by whether a driver runs.
pub fn backend_state(running: bool) -> (state: &'static str)
    ensures
        state@ == if running {
            "daemon-running"@
        } else {
            "daemon-not-running"@
        },
{
    if running {
        "daemon-running"
    } else {
        "daemon-not-running"
    }
}

/// What to do when the daemon is to be started.
#[derive(Clone, Copy, Debug, PartialEq, Eq, Structural)]
pub enum StartResult {
    /// A driver can be reached already.
    AlreadyConnected,
    /// A driver is starting already.
    AlreadyStarting,
    /// Start one.
    Started,
}

/// What to do when the daemon is to be started. A driver that somebody else started is
/// waited for: a second one would end at once.
pub fn start_daemon(ipc: bool, owned: bool, process: bool) -> (result: StartResult)
    ensures
        result == if ipc {
            StartResult::AlreadyConnected
        } else if owned || process {
            StartResult::AlreadyStarting
        } else {
            StartResult::Started
        },
{
    if ipc {
        StartResult::AlreadyConnected
    } else if owned || process {
        StartResult::AlreadyStarting
    } else {
        StartResult::Started
    }
}

/// The numbers of the processes that a listing names, one on a line.
pub open spec fn listed_process(line: Seq<char>) -> Option<u32> {
    match text::unsigned_value(text::trim_end(text::trim_start(line))) {
        Some(n) => if n <= u32::MAX {
            Some(n as u32)
        } else {
            None
        },
        None => None,
    }
}

/// The processes on some lines.
pub open spec fn listed_processes(lines: Seq<Seq<char>>) -> Seq<u32>
    decreases lines.len(),
{
    if lines.len() == 0 {
        Seq::empty()
    } else {
        match listed_process(lines.last()) {
            Some(id) => listed_processes(lines.drop_last()).push(id),
            None => listed_processes(lines.drop_last()),
        }
    }
}

/// The numbers of the processes that a listing names.
pub fn process_ids(listing: &str) -> (ids: Vec<u32>)
    ensures
        ids@ == listed_processes(text::lines(listing@)),
{
    let lines = text::lines_of(listing);
    let ghost all = text::lines(listing@);
    let mut ids: Vec<u32> = Vec::new();
    let mut i: usize = 0;
    assert(ids@ =~= listed_processes(all.take(0)));
    while i < lines.len()
        invariant
            i <= lines@.len(),
            all == text::texts(lines@),
            ids@ == listed_processes(all.take(i as int)),
        decreases lines@.len() - i,
    {
        assert(all.take(i + 1).drop_last() =~= all.take(i as int));
        assert(all.take(i + 1).last() == lines@[i as int]@);
        match text::parse_unsigned(text::trim(lines[i].as_str()).as_str()) {
            Some(n) => {
                if n as u128 <= u32::MAX as u128 {
                    ids.push(n as u32);
                }
            },
            None => {},
        }
        i = i + 1;
    }
    assert(all.take(i as int) =~= all);
    ids
}

// ---- whose process it is ----

/// What `str::to_lowercase` makes of a text.
pub uninterp spec fn lowercase(s: Seq<char>) -> Seq<char>;

/// `str::to_lowercase`: the text in lower case, by the rules of Unicode. What is claimed is
/// only that the same text always gives the same result.
#[verifier::external_body]
fn lowercased(s: &str) -> (lower: String)
    ensures
        lower@ == lowercase(s@),
{
    s.to_lowercase()
}

/// A path without the marks of an extended one.
pub open spec fn unmarked(path: Seq<char>) -> Seq<char>
    decreases path.len(),
{
    if path.len() >= 4 && path[0] == '\\' && path[1] == '\\' && path[2] == '?' && path[3]
        == '\\' {
        unmarked(path.skip(4))
    } else {
        path
    }
}

/// A path with one kind of separator.
pub open spec fn with_backslashes(path: Seq<char>) -> Seq<char> {
    path.map_values(
        |c: char|
            if c == '/' {
                '\\'
            } else {
                c
            },
    )
}

/// A path without marks and with one kind of separator.
pub fn plain_path(path: &str) -> (plain: String)
    ensures
        plain@ == with_backslashes(unmarked(path@)),
{
    let chars = text::chars_of(path);
    let mut from: usize = 0;
    assert(path@.skip(0) =~= path@);
    while chars.len() - from >= 4 && chars[from] == '\\' && chars[from + 1] == '\\' && chars[from
        + 2] == '?' && chars[from + 3] == '\\'
        invariant
            chars@ == path@,
            from <= chars@.len(),
            unmarked(path@) == unmarked(path@.skip(from as int)),
        decreases chars@.len() - from,
    {
        assert(path@.skip(from as int).skip(4) =~= path@.skip(from + 4));
        from = from + 4;
    }
    let ghost rest = path@.skip(from as int);
    let mut plain = String::new();
    let mut i: usize = from;
    while i < chars.len()
        invariant
            chars@ == path@,
            from <= i <= chars@.len(),
            rest == path@.skip(from as int),
            plain@ == with_backslashes(rest.take(i - from)),
        decreases chars@.len() - i,
    {
        plain.push(
            if chars[i] == '/' {
                '\\'
            } else {
                chars[i]
            },
        );
        i = i + 1;
        assert(plain@ =~= with_backslashes(rest.take(i - from)));
    }
    assert(rest.take(i - from) =~= rest);
    plain
}

/// Whether two paths name the same executable: they differ at most in marks, separators and
/// case.
pub fn same_executable(a: &str, b: &str) -> (same: bool)
    ensures
        same == (lowercase(with_backslashes(unmarked(a@))) == lowercase(
            with_backslashes(unmarked(b@)),
        )),
{
    let first = lowercased(plain_path(a).as_str());
    let second = lowercased(plain_path(b).as_str());
    text::same_text(first.as_str(), second.as_str())
}

// ---- testing a package ----

/// How long a test waits for the driver, in milliseconds.
pub const SELF_TEST_MILLIS: u64 = 60_000;

/// How long the test of a Windows package may take in all, in milliseconds.
pub const WINDOWS_SELF_TEST_MILLIS: u64 = 200_000;

/// How long the short test of a Windows package waits for it, in milliseconds.
pub const SHORT_SELF_TEST_MILLIS: u64 = 180_000;

/// The longest that one call of it waits, in milliseconds.
pub const SELF_TEST_CALL_MILLIS: u64 = 30_000;

/// The pause between two looks, in milliseconds.
pub const SELF_TEST_PAUSE_MILLIS: u64 = 100;

/// A test that waits for the driver to become reachable.
#[derive(Clone, Copy, Debug, PartialEq, Eq, Structural)]
pub struct SelfTest {
    /// The test started the driver, and must stop it.
    pub started_owned: bool,
    pub deadline: Instant,
}

/// What a test that waits is to do.
#[derive(Clone, Copy, Debug, PartialEq, Eq, Structural)]
pub enum SelfTestStep {
    /// The driver can be reached.
    Reachable,
    /// The driver that was started ended before it could be reached.
    Exited,
    /// The driver could not be reached in time.
    TimedOut,
    /// Pause, and look again.
    Pause,
}

impl SelfTest {
    /// The test, once the driver was started where it had to be.
    pub fn new(owned_before: bool, owned_now: bool, now: Instant, limit_millis: u64) -> (
        test: SelfTest)
        requires
            now.can_add(limit_millis as int),
        ensures
            test.started_owned == (!owned_before && owned_now),
            test.deadline.nanos == now.nanos + Duration::of_millis(limit_millis as int),
    {
        SelfTest {
            started_owned: !owned_before && owned_now,
            deadline: now.after(Duration::from_millis(limit_millis)),
        }
    }

    /// What the test is to do at some time.
    pub open spec fn step_at(self, ipc: bool, owned: bool, now: Instant) -> SelfTestStep {
        if ipc {
            SelfTestStep::Reachable
        } else if self.started_owned && !owned {
            SelfTestStep::Exited
        } else if now.nanos >= self.deadline.nanos {
            SelfTestStep::TimedOut
        } else {
            SelfTestStep::Pause
        }
    }

    /// What the test is to do now.
    pub fn step(&self, ipc: bool, owned: bool, now: Instant) -> (step: SelfTestStep)
        ensures
            step == self.step_at(ipc, owned, now),
    {
        if ipc {
            SelfTestStep::Reachable
        } else if self.started_owned && !owned {
            SelfTestStep::Exited
        } else if now.nanos >= self.deadline.nanos {
            SelfTestStep::TimedOut
        } else {
            SelfTestStep::Pause
        }
    }

    /// What a test that minds its deadline first is to do at some time.
    pub open spec fn strict_step_at(self, ipc: bool, owned: bool, now: Instant) -> SelfTestStep {
        if ipc {
            SelfTestStep::Reachable
        } else if now.nanos >= self.deadline.nanos {
            SelfTestStep::TimedOut
        } else {
            self.step_at(ipc, owned, now)
        }
    }

    /// What a test that minds its deadline first is to do now.
    pub fn strict_step(&self, ipc: bool, owned: bool, now: Instant) -> (step: SelfTestStep)
        ensures
            step == self.strict_step_at(ipc, owned, now),
    {
        if !ipc && now.nanos >= self.deadline.nanos {
            SelfTestStep::TimedOut
        } else {
            self.step(ipc, owned, now)
        }
    }

    /// The longest that the next call may wait, where there is time left for one.
    pub open spec fn budget_at(self, now: Instant) -> Option<Duration> {
        let left = time::elapsed(now.nanos as int, self.deadline.nanos as int);
        let most = Duration::of_millis(SELF_TEST_CALL_MILLIS as int);
        if left == 0 {
            None
        } else if left <= most {
            Some(Duration { nanos: left as u128 })
        } else {
            Some(Duration { nanos: most as u128 })
        }
    }

    /// The longest that the next call may wait, where there is time left for one.
    pub fn call_budget(&self, now: Instant) -> (budget: Option<Duration>)
        ensures
            budget == self.budget_at(now),
    {
        let left = self.deadline.saturating_duration_since(now);
        if left.is_zero() {
            None
        } else {
            Some(left.min(Duration::from_millis(SELF_TEST_CALL_MILLIS)))
        }
    }
}

/// The calls of the test of a Windows package, in order.
#[derive(Clone, Copy, Debug, PartialEq, Eq, Structural)]
pub enum SelfTestCall {
    DetectTablets,
    GetSettings,
    SetSettings,
    GetSettingsAgain,
}

/// What follows a reply to one of those calls.
#[derive(Clone, Copy, Debug, PartialEq, Eq, Structural)]
pub enum SelfTestVerdict {
    /// The next call.
    Next(SelfTestCall),
    /// The package works.
    Passed,
    /// The tablets are no list.
    TabletsNotAList,
    /// There are no settings.
    SettingsNull,
    /// There are no settings after they were set.
    SettingsNullAfterSet,
}

/// What follows a reply.
pub open spec fn verdict_on(call: SelfTestCall, reply: Tree) -> SelfTestVerdict {
    match call {
        SelfTestCall::DetectTablets => if reply is Array {
            SelfTestVerdict::Next(SelfTestCall::GetSettings)
        } else {
            SelfTestVerdict::TabletsNotAList
        },
        SelfTestCall::GetSettings => if reply is Null {
            SelfTestVerdict::SettingsNull
        } else {
            SelfTestVerdict::Next(SelfTestCall::SetSettings)
        },
        SelfTestCall::SetSettings => SelfTestVerdict::Next(SelfTestCall::GetSettingsAgain),
        SelfTestCall::GetSettingsAgain => if reply is Null {
            SelfTestVerdict::SettingsNullAfterSet
        } else {
            SelfTestVerdict::Passed
        },
    }
}

/// What follows a reply.
pub fn judge(call: SelfTestCall, reply: &Json) -> (verdict: SelfTestVerdict)
    ensures
        verdict == verdict_on(call, reply@),
{
    match call {
        SelfTestCall::DetectTablets => match reply {
            Json::Array(_) => SelfTestVerdict::Next(SelfTestCall::GetSettings),
            _ => SelfTestVerdict::TabletsNotAList,
        },
        SelfTestCall::GetSettings => match reply {
            Json::Null => SelfTestVerdict::SettingsNull,
            _ => SelfTestVerdict::Next(SelfTestCall::SetSettings),
        },
        SelfTestCall::SetSettings => SelfTestVerdict::Next(SelfTestCall::GetSettingsAgain),
        SelfTestCall::GetSettingsAgain => match reply {
            Json::Null => SelfTestVerdict::SettingsNullAfterSet,
            _ => SelfTestVerdict::Passed,
        },
    }
}

/// The calls of the short test of a Windows package, in order.
#[derive(Clone, Copy, Debug, PartialEq, Eq, Structural)]
pub enum ShortTestCall {
    GetTablets,
    GetSettings,
}

/// What follows a reply to one of those calls.
#[derive(Clone, Copy, Debug, PartialEq, Eq, Structural)]
pub enum ShortTestVerdict {
    /// The next call.
    Next(ShortTestCall),
    /// The package works.
    Passed,
    /// The tablets are no list.
    TabletsNotAList,
    /// There are no settings.
    SettingsNull,
}

/// What follows a reply in the short test.
pub open spec fn short_verdict_on(call: ShortTestCall, reply: Tree) -> ShortTestVerdict {
    match call {
        ShortTestCall::GetTablets => if reply is Array {
            ShortTestVerdict::Next(ShortTestCall::GetSettings)
        } else {
            ShortTestVerdict::TabletsNotAList
        },
        ShortTestCall::GetSettings => if reply is Null {
            ShortTestVerdict::SettingsNull
        } else {
            ShortTestVerdict::Passed
        },
    }
}

/// What follows a reply in the short test.
pub fn run_self_test(call: ShortTestCall, reply: &Json) -> (verdict: ShortTestVerdict)
    ensures
        verdict == short_verdict_on(call, reply@),
{
    match call {
        ShortTestCall::GetTablets => match reply {
            Json::Array(_) => ShortTestVerdict::Next(ShortTestCall::GetSettings),
            _ => ShortTestVerdict::TabletsNotAList,
        },
        ShortTestCall::GetSettings => match reply {
            Json::Null => ShortTestVerdict::SettingsNull,
            _ => ShortTestVerdict::Passed,
        },
    }
}

// ---- laws ----

/// Of the candidates, the first that is a file is taken.
pub proof fn first_candidate_is_taken(is_file: Seq<bool>, from: int)
    requires
        0 <= from,
    ensures
        match first_file(is_file, from) {
            Some(i) => from <= i < is_file.len() && is_file[i] && forall|k: int|
                from <= k < i ==> !(#[trigger] is_file[k]),
            None => forall|k: int| from <= k < is_file.len() ==> !(#[trigger] is_file[k]),
        },
    decreases is_file.len() - from,
{
    if from < is_file.len() && !is_file[from] {
        first_candidate_is_taken(is_file, from + 1);
    }
}

/// The daemon that is started reads the very file that the driver's settings are written to:
/// it is told the directory of that file.
pub proof fn daemon_reads_what_is_written(env: Environment)
    ensures
        settings_in(platform::appdata(env))[1] == Part::Path(platform::appdata(env)),
        platform::persisted_settings(env) == platform::appdata(env).below("settings.json"@),
{
}

/// The same holds on Windows, where the driver's settings have a path of their own.
pub proof fn daemon_on_windows_reads_what_is_written(env: Environment)
    ensures
        platform::windows_driver_settings(env) == platform::windows_appdata(env).below(
            "settings.json"@,
        ),
{
    reveal_strlit("OpenTabletDriver/settings.json");
    reveal_strlit("OpenTabletDriver");
    reveal_strlit("settings.json");
    assert("OpenTabletDriver/settings.json"@ =~= "OpenTabletDriver"@ + seq!['/'] + "settings.json"@);
    assert(platform::windows_driver_settings(env).relative =~= platform::windows_appdata(env).below(
        "settings.json"@,
    ).relative);
}

/// A packaged application on macOS runs its own daemon, where it has one, and not one that
/// happens to be where it was built.
pub proof fn packaged_daemon_comes_first(
    facts: PackageFacts,
    architecture: Architecture,
    i: int,
    j: int,
)
    requires
        0 <= i < mac_candidates(facts, architecture).len(),
        0 <= j < mac_candidates(facts, architecture).len(),
        !(mac_candidates(facts, architecture)[i].base is SourceDirectory),
        mac_candidates(facts, architecture)[j].base is SourceDirectory,
    ensures
        i < j,
{
    let own = packaged_forms(facts) + bundle_forms(facts) + resource_forms(facts);
    let built = built_forms(mac_runtime(architecture));
    assert(mac_candidates(facts, architecture) == own + built);
    if i >= own.len() {
        assert(mac_candidates(facts, architecture)[i] == built[i - own.len()]);
    }
    if j < own.len() {
        assert(mac_candidates(facts, architecture)[j] == own[j]);
    }
}

/// All the calls of a test together stay within its deadline: none may wait past it, and
/// there is none after it.
pub proof fn calls_stay_within_the_deadline(test: SelfTest, now: Instant)
    ensures
        test.budget_at(now) matches Some(span) ==> now.nanos + span.nanos <= test.deadline.nanos,
        now.nanos >= test.deadline.nanos ==> test.budget_at(now) is None,
{
}

/// A test ends: once its deadline is over it does not pause again.
pub proof fn tests_end(test: SelfTest, ipc: bool, owned: bool, now: Instant)
    requires
        now.nanos >= test.deadline.nanos,
    ensures
        !(test.step_at(ipc, owned, now) is Pause),
        !(test.strict_step_at(ipc, owned, now) is Pause),
{
}

// ---- where the daemon is looked for ----

/// A place in a list is at a path below a base.
pub open spec fn is_at(list: Seq<Place>, i: int, base: Base, path: Seq<char>) -> bool {
    0 <= i < list.len() && list[i].base == base && list[i].relative == path
}

/// From some place on, a list has the daemon as a program and then as a library, in a directory
/// of a base.
pub open spec fn has_both(list: Seq<Place>, i: int, base: Base, directory: Seq<char>) -> bool {
    &&& is_at(list, i, base, directory + "OpenTabletDriver.Daemon"@)
    &&& is_at(list, i + 1, base, directory + "OpenTabletDriver.Daemon.dll"@)
}

proof fn paths_join()
    ensures
        ""@ + "OpenTabletDriver.Daemon"@ == "OpenTabletDriver.Daemon"@,
        ""@ + "OpenTabletDriver.Daemon.dll"@ == "OpenTabletDriver.Daemon.dll"@,
        "resources/"@ + "OpenTabletDriver.Daemon"@ == "resources/OpenTabletDriver.Daemon"@,
        "resources/"@ + "OpenTabletDriver.Daemon.dll"@ == "resources/OpenTabletDriver.Daemon.dll"@,
        "Resources/"@ + "OpenTabletDriver.Daemon"@ == "Resources/OpenTabletDriver.Daemon"@,
        "Resources/"@ + "OpenTabletDriver.Daemon.dll"@ == "Resources/OpenTabletDriver.Daemon.dll"@,
{
    reveal_strlit("");
    reveal_strlit("resources/");
    reveal_strlit("Resources/");
    reveal_strlit("OpenTabletDriver.Daemon");
    reveal_strlit("OpenTabletDriver.Daemon.dll");
    reveal_strlit("resources/OpenTabletDriver.Daemon");
    reveal_strlit("resources/OpenTabletDriver.Daemon.dll");
    reveal_strlit("Resources/OpenTabletDriver.Daemon");
    reveal_strlit("Resources/OpenTabletDriver.Daemon.dll");
    assert(""@ + "OpenTabletDriver.Daemon"@ =~= "OpenTabletDriver.Daemon"@);
    assert(""@ + "OpenTabletDriver.Daemon.dll"@ =~= "OpenTabletDriver.Daemon.dll"@);
    assert("resources/"@ + "OpenTabletDriver.Daemon"@ =~= "resources/OpenTabletDriver.Daemon"@);
    assert("resources/"@ + "OpenTabletDriver.Daemon.dll"@
        =~= "resources/OpenTabletDriver.Daemon.dll"@);
    assert("Resources/"@ + "OpenTabletDriver.Daemon"@ =~= "Resources/OpenTabletDriver.Daemon"@);
    assert("Resources/"@ + "OpenTabletDriver.Daemon.dll"@
        =~= "Resources/OpenTabletDriver.Daemon.dll"@);
}

proof fn built_forms_are_both(directory: Seq<char>)
    ensures
        built_forms(directory).len() == 2,
        has_both(built_forms(directory), 0, Base::SourceDirectory, directory + seq!['/']),
{
}

/// How many places a part of the list has.
pub open spec fn part(there: bool, count: int) -> int {
    if there {
        count
    } else {
        0
    }
}

/// On Linux the daemon is looked for where it was built, then next to the executable, then among
/// the resources next to it, and then in the directory of the resources; each time as a program
/// first, and only in directories that there are.
pub proof fn places_on_linux_are_in_order(facts: PackageFacts, architecture: Architecture)
    ensures
        ({
            let list = linux_candidates(facts, architecture);
            let build = match architecture {
                Architecture::Arm64 => "target/otd/linux-arm64"@,
                Architecture::X86 => "target/otd/linux-x86"@,
                Architecture::X64 => "target/otd/linux-x64"@,
                Architecture::Other => "target/otd/linux-x64"@,
            };
            let own = part(facts.executable_directory, 4);
            &&& list.len() == 2 + own + part(facts.resource_directory, 2)
            &&& has_both(list, 0, Base::SourceDirectory, build + seq!['/'])
            &&& facts.executable_directory ==> has_both(list, 2, Base::ExecutableDirectory, ""@)
                && has_both(list, 4, Base::ExecutableDirectory, "resources/"@)
            &&& facts.resource_directory ==> has_both(list, 2 + own, Base::ResourceDirectory, ""@)
        }),
{
    paths_join();
    built_forms_are_both(linux_runtime(architecture));
}

/// On macOS it is looked for next to the executable, among the resources next to it, in the bundle
/// above it, in the directory of the resources, and last where it was built.
pub proof fn places_on_mac_are_in_order(facts: PackageFacts, architecture: Architecture)
    ensures
        ({
            let list = mac_candidates(facts, architecture);
            let build = match architecture {
                Architecture::Arm64 => "target/otd/osx-arm64"@,
                _ => "target/otd/osx-x64"@,
            };
            let own = part(facts.executable_directory, 4);
            let bundle = part(facts.executable_directory && facts.contents_directory, 2);
            let resources = part(facts.resource_directory, 2);
            &&& list.len() == own + bundle + resources + 2
            &&& facts.executable_directory ==> has_both(list, 0, Base::ExecutableDirectory, ""@)
                && has_both(list, 2, Base::ExecutableDirectory, "resources/"@)
            &&& facts.executable_directory && facts.contents_directory ==> has_both(
                list,
                own,
                Base::ContentsDirectory,
                "Resources/"@,
            )
            &&& facts.resource_directory ==> has_both(
                list,
                own + bundle,
                Base::ResourceDirectory,
                ""@,
            )
            &&& has_both(list, own + bundle + resources, Base::SourceDirectory, build + seq!['/'])
        }),
{
    paths_join();
    built_forms_are_both(mac_runtime(architecture));
}

/// Elsewhere it is looked for where it was built, where there is a build for the system, and then
/// as on macOS.
pub proof fn places_elsewhere_are_in_order(
    facts: PackageFacts,
    system: UnixSystem,
    architecture: Architecture,
)
    ensures
        ({
            let list = unix_candidates(facts, system, architecture);
            let there = unix_build(system, architecture) is Some;
            let built = part(there, 2);
            let own = part(facts.executable_directory, 4);
            let bundle = part(facts.executable_directory && facts.contents_directory, 2);
            &&& list.len() == built + own + bundle + part(facts.resource_directory, 2)
            &&& there <==> system is Mac && (architecture is Arm64 || architecture is X64) || system
                is Linux && !(architecture is Other)
            &&& there ==> has_both(
                list,
                0,
                Base::SourceDirectory,
                (if system is Mac {
                    mac_runtime(architecture)
                } else {
                    linux_runtime(architecture)
                }) + seq!['/'],
            )
            &&& facts.executable_directory ==> has_both(list, built, Base::ExecutableDirectory, ""@)
                && has_both(list, built + 2, Base::ExecutableDirectory, "resources/"@)
            &&& facts.executable_directory && facts.contents_directory ==> has_both(
                list,
                built + own,
                Base::ContentsDirectory,
                "Resources/"@,
            )
            &&& facts.resource_directory ==> has_both(
                list,
                built + own + bundle,
                Base::ResourceDirectory,
                ""@,
            )
        }),
{
    paths_join();
    built_forms_are_both(linux_runtime(architecture));
    built_forms_are_both(mac_runtime(architecture));
}

/// On Windows a daemon that was named comes first, then the one next to the executable, the one
/// among the resources next to it, the one in the directory of the resources, and last the one
/// that was built.
pub proof fn places_on_windows_are_in_order(facts: PackageFacts, architecture: Architecture)
    ensures
        ({
            let list = windows_candidates(facts, architecture);
            let named = part(facts.named_daemon, 1);
            let own = part(facts.executable_directory, 2);
            &&& facts.named_daemon ==> is_at(list, 0, Base::NamedDaemon, ""@)
            &&& facts.executable_directory ==> is_at(
                list,
                named,
                Base::ExecutableDirectory,
                "OpenTabletDriver.Daemon.exe"@,
            ) && is_at(
                list,
                named + 1,
                Base::ExecutableDirectory,
                "resources/OpenTabletDriver.Daemon.exe"@,
            )
            &&& facts.resource_directory ==> is_at(
                list,
                named + own,
                Base::ResourceDirectory,
                "OpenTabletDriver.Daemon.exe"@,
            )
            &&& list.len() == named + own + part(facts.resource_directory, 1) + 1
            &&& is_at(
                list,
                list.len() - 1,
                Base::SourceDirectory,
                (match architecture {
                    Architecture::Arm64 => "target/otd/win-arm64"@,
                    Architecture::X86 => "target/otd/win-x86"@,
                    Architecture::X64 => "target/otd/win-x64"@,
                    Architecture::Other => "target/otd/win-x64"@,
                }) + seq!['/'] + "OpenTabletDriver.Daemon.exe"@,
            )
        }),
{
}

/// Each name of an architecture has its own, and every other name has none.
pub proof fn architectures_are_told_by_name(name: Seq<char>)
    ensures
        name == "aarch64"@ <==> architecture_named(name) is Arm64,
        name == "x86_64"@ <==> architecture_named(name) is X64,
        name == "x86"@ <==> architecture_named(name) is X86,
{
    reveal_strlit("aarch64");
    reveal_strlit("x86_64");
    reveal_strlit("x86");
    assert("aarch64"@.len() == 7 && "x86_64"@.len() == 6 && "x86"@.len() == 3);
}

/// A library is a file whose name ends in ".dll" after something.
pub proof fn libraries_end_in_dll(stem: Seq<char>, name: Seq<char>)
    ensures
        stem.len() > 0 ==> is_library(stem + ".dll"@),
        is_library(name) ==> name.len() > 4 && name.take(name.len() - 4) + ".dll"@ == name,
        !is_library(".dll"@),
{
    reveal_strlit(".dll");
    if is_library(name) {
        assert(name.take(name.len() - 4) + ".dll"@ =~= name);
    }
}

// ---- what is missing ----

/// The files that the daemon of a package needs are these.
pub proof fn required_files_are_these()
    ensures
        required(0) == "OpenTabletDriver.Daemon.exe"@,
        required(1) == "OpenTabletDriver.Daemon.dll"@,
        required(2) == "OpenTabletDriver.Daemon.deps.json"@,
        required(3) == "OpenTabletDriver.Daemon.runtimeconfig.json"@,
        required(4) == "OpenTabletDriver.dll"@,
        required(5) == "OpenTabletDriver.Configurations.dll"@,
        required(6) == "OpenTabletDriver.Desktop.dll"@,
        required(7) == "OpenTabletDriver.Native.dll"@,
        required(8) == "OpenTabletDriver.Plugin.dll"@,
        required(9) == "HidSharpCore.dll"@,
        required(10) == "hostfxr.dll"@,
        required(11) == "hostpolicy.dll"@,
        required(12) == "coreclr.dll"@,
        REQUIRED_COUNT == 13,
{
}

proof fn missing_names_up_to(present: Seq<bool>, n: nat, i: int)
    requires
        0 <= i < n <= 13,
        !present[i],
        none_missing(present, i),
        forall|k: int| i < k < n ==> #[trigger] present[k],
    ensures
        missing_names(present, n) == required(i),
    decreases n,
{
    if n > i + 1 {
        missing_names_up_to(present, (n - 1) as nat, i);
    }
}

proof fn missing_name_is_listed(present: Seq<bool>, n: nat, i: int)
    requires
        0 <= i < n <= 13,
        !present[i],
    ensures
        text::contains(missing_names(present, n), required(i)),
    decreases n,
{
    let before = missing_names(present, (n - 1) as nat);
    let all = missing_names(present, n);
    if i == n - 1 {
        if none_missing(present, i) {
            assert(all =~= Seq::<char>::empty() + required(i) + Seq::<char>::empty());
            text::parts_stand_in_their_texts(Seq::empty(), required(i), Seq::empty(), all);
        } else {
            assert(all =~= (before + ", "@) + required(i) + Seq::<char>::empty());
            text::parts_stand_in_their_texts(before + ", "@, required(i), Seq::empty(), all);
        }
    } else {
        missing_name_is_listed(present, (n - 1) as nat, i);
        assert(!none_missing(present, n - 1)) by {
            assert(!present[i]);
        }
        if !present[n - 1] {
            text::parts_stand_in_their_texts(Seq::empty(), required(i), Seq::empty(), before);
            let j = choose|j: int| #[trigger] text::stands_at(before, required(i), j);
            assert(all.subrange(j, j + required(i).len()) =~= before.subrange(
                j,
                j + required(i).len(),
            ));
            assert(text::stands_at(all, required(i), j));
        }
    }
}

/// Every file that is missing is named. One that is missing alone is all that is named, and of
/// two that are missing the earlier one comes first, with a comma between them.
pub proof fn missing_files_are_named(present: Seq<bool>, i: int, j: int)
    requires
        present.len() == 13,
        0 <= i < 13,
        !present[i],
    ensures
        text::contains(missing_names(present, 13), required(i)),
        (forall|k: int| 0 <= k < 13 && k != i ==> #[trigger] present[k]) ==> missing_names(
            present,
            13,
        ) == required(i),
        i < j < 13 && !present[j] && (forall|k: int|
            0 <= k < 13 && k != i && k != j ==> #[trigger] present[k]) ==> missing_names(present, 13)
            == required(i) + ", "@ + required(j),
        (forall|k: int| 0 <= k < 13 ==> #[trigger] present[k]) <==> none_missing(present, 13),
{
    missing_name_is_listed(present, 13, i);
    if forall|k: int| 0 <= k < 13 && k != i ==> #[trigger] present[k] {
        missing_names_up_to(present, 13, i);
    }
    if i < j < 13 && !present[j] && (forall|k: int|
        0 <= k < 13 && k != i && k != j ==> #[trigger] present[k]) {
        missing_names_up_to(present, j as nat, i);
        two_missing_names(present, 13, i, j);
    }
}

proof fn two_missing_names(present: Seq<bool>, n: nat, i: int, j: int)
    requires
        0 <= i < j < n <= 13,
        !present[i],
        !present[j],
        missing_names(present, j as nat) == required(i),
        forall|k: int| j < k < n ==> #[trigger] present[k],
    ensures
        missing_names(present, n) == required(i) + ", "@ + required(j),
    decreases n,
{
    if n > j + 1 {
        two_missing_names(present, (n - 1) as nat, i, j);
    } else {
        assert(!none_missing(present, j)) by {
            assert(!present[i]);
        }
    }
}

// ---- processes and paths ----

/// A line that has the decimal form of a number, with white space around it or not, names that
/// process; any other line names none.
pub proof fn processes_are_listed_by_number(
    a: Seq<char>,
    id: u32,
    b: Seq<char>,
    lines: Seq<Seq<char>>,
    line: Seq<char>,
)
    requires
        forall|k: int| 0 <= k < a.len() ==> text::is_space(#[trigger] a[k]),
        forall|k: int| 0 <= k < b.len() ==> text::is_space(#[trigger] b[k]),
    ensures
        listed_process(a + decimal::decimal(id as nat) + b) == Some(id),
        listed_process(a + b) is None,
        listed_processes(lines.push(a + decimal::decimal(id as nat) + b)) == listed_processes(
            lines,
        ).push(id),
        listed_process(line) is None ==> listed_processes(lines.push(line)) == listed_processes(
            lines,
        ),
        listed_processes(Seq::empty()).len() == 0,
{
    let number = decimal::decimal(id as nat);
    decimal::decimal_is_digits(id as nat);
    assert('0' <= number[0] <= '9' && '0' <= number[number.len() - 1] <= '9');
    text::trimming_takes_white_space(a, number, b);
    text::decimal_forms_are_read(id as usize, number, 0);
    assert(a + Seq::<char>::empty() + b =~= a + b);
    text::trimming_takes_white_space(a, Seq::empty(), b);
    assert(text::trim_end(text::trim_start(a + b)) =~= Seq::<char>::empty());
    assert(lines.push(a + number + b).drop_last() =~= lines);
    assert(lines.push(line).drop_last() =~= lines);
}

/// The mark of an extended path is taken off, as often as it is there, and nothing else; and every
/// slash becomes a backslash.
pub proof fn paths_are_made_plain(path: Seq<char>)
    ensures
        unmarked(seq!['\\', '\\', '?', '\\'] + path) == unmarked(path),
        !(path.len() >= 4 && path.take(4) == seq!['\\', '\\', '?', '\\']) ==> unmarked(path)
            == path,
        with_backslashes(path).len() == path.len(),
        forall|k: int|
            0 <= k < path.len() ==> #[trigger] with_backslashes(path)[k] == if path[k] == '/' {
                '\\'
            } else {
                path[k]
            },
{
    let marked = seq!['\\', '\\', '?', '\\'] + path;
    assert(marked.skip(4) =~= path);
    if path.len() >= 4 && path[0] == '\\' && path[1] == '\\' && path[2] == '?' && path[3] == '\\' {
        assert(path.take(4) =~= seq!['\\', '\\', '?', '\\']);
    }
}

// ---- how a test goes on ----

/// A driver that can be reached ends the wait, however late. Without one, the end of the driver
/// that the test started ends it, and so does the deadline; which of the two is told where both
/// hold depends on which is minded first.
pub proof fn waits_for_a_driver_end(test: SelfTest, ipc: bool, owned: bool, now: Instant)
    ensures
        ({
            let over = now.nanos >= test.deadline.nanos;
            let ended = test.started_owned && !owned;
            let step = test.step_at(ipc, owned, now);
            let strict = test.strict_step_at(ipc, owned, now);
            &&& step is Reachable <==> ipc
            &&& strict is Reachable <==> ipc
            &&& step is Exited <==> !ipc && ended
            &&& strict is Exited <==> !ipc && ended && !over
            &&& step is TimedOut <==> !ipc && !ended && over
            &&& strict is TimedOut <==> !ipc && over
            &&& step is Pause <==> !ipc && !ended && !over
            &&& strict is Pause <==> !ipc && !ended && !over
        }),
{
}

/// A call waits for what is left until the deadline, half a minute at most.
pub proof fn calls_wait_for_half_a_minute(test: SelfTest, now: Instant)
    ensures
        now.nanos < test.deadline.nanos <= now.nanos + 30_000_000_000 ==> (test.budget_at(
            now,
        ) matches Some(span) && now.nanos + span.nanos == test.deadline.nanos),
        test.deadline.nanos >= now.nanos + 30_000_000_000 ==> (test.budget_at(now) matches Some(span)
            && span.nanos == 30_000_000_000),
{
}

/// The package passes exactly where its tablets are a list and its settings are there, before and
/// after they are written back. Each reply that fails is told for what it is.
pub proof fn packages_pass_with_tablets_and_settings(
    tablets: Tree,
    settings: Tree,
    written: Tree,
    again: Tree,
)
    ensures
        ({
            let a = verdict_on(SelfTestCall::DetectTablets, tablets);
            let b = verdict_on(SelfTestCall::GetSettings, settings);
            let c = verdict_on(SelfTestCall::SetSettings, written);
            let d = verdict_on(SelfTestCall::GetSettingsAgain, again);
            &&& a == SelfTestVerdict::Next(SelfTestCall::GetSettings) <==> tablets is Array
            &&& a is TabletsNotAList <==> !(tablets is Array)
            &&& b == SelfTestVerdict::Next(SelfTestCall::SetSettings) <==> !(settings is Null)
            &&& b is SettingsNull <==> settings is Null
            &&& c == SelfTestVerdict::Next(SelfTestCall::GetSettingsAgain)
            &&& d is Passed <==> !(again is Null)
            &&& d is SettingsNullAfterSet <==> again is Null
        }),
        ({
            let a = short_verdict_on(ShortTestCall::GetTablets, tablets);
            let b = short_verdict_on(ShortTestCall::GetSettings, settings);
            &&& a == ShortTestVerdict::Next(ShortTestCall::GetSettings) <==> tablets is Array
            &&& a is TabletsNotAList <==> !(tablets is Array)
            &&& b is Passed <==> !(settings is Null)
            &&& b is SettingsNull <==> settings is Null
        }),
{
}

/// The daemon is told its directory after the word for it.
pub proof fn daemons_are_told_their_directory(directory: Place)
    ensures
        settings_in(directory).len() == 2,
        settings_in(directory)[0] == Part::Word("--appdata"@),
        settings_in(directory)[1] == Part::Path(directory),
{
}

/// Each fault of a package is told in its own words.
pub proof fn package_faults_are_told(names: String)
    ensures
        BundleError::DaemonMissing.says()
            == "OpenTabletDriver.Daemon.exe is missing from the TabletFlow directory"@,
        BundleError::Incomplete(names).says() == "incomplete OpenTabletDriver runtime; missing: "@
            + names@,
{
}

} // verus!
