//! Asking the driver for its tablet, step by step.
//!
//! One query is a short conversation: each step says what to ask the driver next, and takes
//! what the driver replied.

use crate::apply;
use crate::binary;
use crate::decimal;
use crate::display;
use crate::display::{Display, DisplayInfo};
use crate::json;
use crate::json::{Json, JsonNumber, Tree};
use crate::models::{AreaRequest, BackendSnapshot, Request, Snapshot};
use crate::profile;
use crate::readings::Readings;
use vstd::arithmetic::power2;
use vstd::prelude::*;

verus! {

/// 0.1
pub const TENTH: u64 = 0x3fb9_9999_9999_999a;

/// 10, in both formats.
pub const TEN: u64 = 0x4024_0000_0000_0000;

pub const TEN32: u32 = 0x4120_0000;

/// 152, the width of a tablet that is not known.
pub const USUAL_WIDTH: u32 = 0x4318_0000;

/// 95, the height of a tablet that is not known.
pub const USUAL_HEIGHT: u32 = 0x42be_0000;

// ---- what the replies say ----

/// A member as a binary64 number.
pub open spec fn double_member(tree: Tree, name: Seq<char>) -> Option<u64> {
    match tree.member_number(name) {
        Some(number) => Some(number.as_double()),
        None => None,
    }
}

/// The digitizer of a tablet.
pub open spec fn digitizer(tablet: Tree) -> Option<Tree> {
    match tablet.member("Properties"@) {
        Some(properties) => match properties.member("Specifications"@) {
            Some(specifications) => specifications.member("Digitizer"@),
            None => None,
        },
        None => None,
    }
}

/// The size of a tablet: that of its digitizer, where it has a reasonable one.
pub open spec fn tablet_size(tablet: Tree) -> (u32, u32) {
    match digitizer(tablet) {
        Some(found) => match (
            double_member(found, "Width"@),
            double_member(found, "Height"@),
        ) {
            (Some(width), Some(height)) => if binary::is_finite64(width) && binary::is_finite64(
                height,
            ) && binary::below64(TENTH, width) && binary::below64(TENTH, height) {
                (binary::narrowed(width), binary::narrowed(height))
            } else {
                (USUAL_WIDTH, USUAL_HEIGHT)
            },
            _ => (USUAL_WIDTH, USUAL_HEIGHT),
        },
        None => (USUAL_WIDTH, USUAL_HEIGHT),
    }
}

/// A width and a height that can be shown next to each other.
pub open spec fn showable(width: u64, height: u64) -> bool {
    let aspect = binary::quotient64(width, height);
    binary::is_finite64(aspect) && binary::below64(TENTH, aspect) && binary::below64(aspect, TEN)
}

/// The area of the display that a profile maps to, where it has one.
pub open spec fn display_area(profile: Tree) -> Option<Tree> {
    match profile.member("AbsoluteModeSettings"@) {
        Some(absolute) => absolute.member("Display"@),
        None => None,
    }
}

/// The size of the preview: a tenth of the display's area, where that can be shown.
pub open spec fn preview_size(profile: Tree) -> (u32, u32) {
    match display_area(profile) {
        Some(area) => match (double_member(area, "Width"@), double_member(area, "Height"@)) {
            (Some(width), Some(height)) => if showable(width, height) {
                (
                    binary::narrowed(binary::quotient64(width, TEN)),
                    binary::narrowed(binary::quotient64(height, TEN)),
                )
            } else {
                (USUAL_WIDTH, USUAL_HEIGHT)
            },
            _ => (USUAL_WIDTH, USUAL_HEIGHT),
        },
        None => (USUAL_WIDTH, USUAL_HEIGHT),
    }
}

/// The display that a profile maps to, or -1.
pub open spec fn mapped_monitor(profile: Tree, displays: Seq<Display>) -> i32 {
    match display_area(profile) {
        Some(area) => match (
            double_member(area, "Width"@),
            double_member(area, "Height"@),
            double_member(area, "X"@),
            double_member(area, "Y"@),
        ) {
            (Some(width), Some(height), Some(x), Some(y)) => display::covered(
                displays,
                binary::narrowed(width),
                binary::narrowed(height),
                binary::narrowed(x),
                binary::narrowed(y),
                0,
            ),
            _ => (-1) as i32,
        },
        None => (-1) as i32,
    }
}

/// One number of the tablet's area, as text.
pub open spec fn area_text(profile: Tree, name: Seq<char>) -> Seq<char> {
    match profile.member("AbsoluteModeSettings"@) {
        Some(absolute) => match absolute.member("Tablet"@) {
            Some(area) => area.number_text(name),
            None => Seq::empty(),
        },
        None => Seq::empty(),
    }
}

/// What the replies say of a tablet.
pub open spec fn snapshot_of(
    name: Seq<char>,
    tablet: Tree,
    settings: Tree,
    displays: Seq<Display>,
) -> Snapshot {
    let bare = Snapshot {
        device_name: name,
        preview_width: USUAL_WIDTH,
        preview_height: USUAL_HEIGHT,
        tablet_width: tablet_size(tablet).0,
        tablet_height: tablet_size(tablet).1,
        area_frequency: "1000"@,
        monitor_index: (-1) as i32,
        ..Snapshot::bare("ready"@)
    };
    match profile::tablet_profile(settings, name) {
        None => bare,
        Some(found) => Snapshot {
            preview_width: preview_size(found).0,
            preview_height: preview_size(found).1,
            area_width: area_text(found, "Width"@),
            area_height: area_text(found, "Height"@),
            area_x: area_text(found, "X"@),
            area_y: area_text(found, "Y"@),
            area_rotation: area_text(found, "Rotation"@),
            area_frequency: profile::profile_frequency(found),
            monitor_index: mapped_monitor(found, displays),
            pen_data_available: true,
            ..bare
        },
    }
}

fn size_of_tablet(tablet: &Json) -> (size: (u32, u32))
    ensures
        size == tablet_size(tablet@),
{
    proof {
        reveal_strlit("Properties");
        reveal_strlit("Specifications");
        reveal_strlit("Digitizer");
        reveal_strlit("Width");
        reveal_strlit("Height");
    }
    let found = match tablet.json_member("Properties") {
        Some(properties) => match properties.json_member("Specifications") {
            Some(specifications) => match specifications.json_member("Digitizer") {
                Some(found) => found,
                None => return (USUAL_WIDTH, USUAL_HEIGHT),
            },
            None => return (USUAL_WIDTH, USUAL_HEIGHT),
        },
        None => return (USUAL_WIDTH, USUAL_HEIGHT),
    };
    match (found.json_number("Width"), found.json_number("Height")) {
        (Some(width), Some(height)) => if binary::finite64(width) && binary::finite64(height)
            && binary::lt64(TENTH, width) && binary::lt64(TENTH, height) {
            (binary::narrow(width), binary::narrow(height))
        } else {
            (USUAL_WIDTH, USUAL_HEIGHT)
        },
        _ => (USUAL_WIDTH, USUAL_HEIGHT),
    }
}

/// The preview and the display that a display's area stands for.
fn preview_and_monitor(area: &Json, displays: &Vec<DisplayInfo>) -> (found: (u32, u32, i32))
    ensures
        forall|profile: Tree|
            #![trigger display_area(profile)]
            display_area(profile) == Some(area@) ==> (found.0, found.1) == preview_size(profile)
                && found.2 == mapped_monitor(profile, display::displays(displays@)),
{
    proof {
        reveal_strlit("Width");
        reveal_strlit("Height");
        reveal_strlit("X");
        reveal_strlit("Y");
    }
    match (area.json_number("Width"), area.json_number("Height")) {
        (Some(width), Some(height)) => {
            let aspect: u64 = binary::div64(width, height);
            let (shown_width, shown_height) = if binary::finite64(aspect) && binary::lt64(
                TENTH,
                aspect,
            ) && binary::lt64(aspect, TEN) {
                (
                    binary::narrow(binary::div64(width, TEN)),
                    binary::narrow(binary::div64(height, TEN)),
                )
            } else {
                (USUAL_WIDTH, USUAL_HEIGHT)
            };
            let monitor = match (area.json_number("X"), area.json_number("Y")) {
                (Some(x), Some(y)) => display::selected_display_index(
                    displays,
                    binary::narrow(width),
                    binary::narrow(height),
                    binary::narrow(x),
                    binary::narrow(y),
                ),
                _ => -1,
            };
            (shown_width, shown_height, monitor)
        },
        _ => (USUAL_WIDTH, USUAL_HEIGHT, -1),
    }
}

/// What the replies say of a tablet.
pub fn build_snapshot(
    name: &str,
    tablet: &Json,
    settings: &Json,
    displays: &Vec<DisplayInfo>,
) -> (snapshot: BackendSnapshot)
    ensures
        snapshot@ == snapshot_of(name@, tablet@, settings@, display::displays(displays@)),
{
    proof {
        reveal_strlit("AbsoluteModeSettings");
        reveal_strlit("Display");
        reveal_strlit("Tablet");
        reveal_strlit("Width");
        reveal_strlit("Height");
        reveal_strlit("X");
        reveal_strlit("Y");
        reveal_strlit("Rotation");
    }
    let mut snapshot = BackendSnapshot::bare("ready");
    snapshot.device_name = name.to_owned();
    let (width, height) = size_of_tablet(tablet);
    snapshot.tablet_width = width;
    snapshot.tablet_height = height;
    snapshot.preview_width = USUAL_WIDTH;
    snapshot.preview_height = USUAL_HEIGHT;
    snapshot.area_frequency = "1000".to_owned();
    snapshot.monitor_index = -1;
    match profile::settings_for_tablet(settings, name) {
        None => {},
        Some(found) => {
            snapshot.area_frequency = profile::filter_frequency(found);
            match found.json_member("AbsoluteModeSettings") {
                None => {},
                Some(absolute) => {
                    match absolute.json_member("Display") {
                        None => {},
                        Some(area) => {
                            let (shown_width, shown_height, monitor) = preview_and_monitor(
                                area,
                                displays,
                            );
                            assert(display_area(found@) == Some(area@));
                            snapshot.preview_width = shown_width;
                            snapshot.preview_height = shown_height;
                            snapshot.monitor_index = monitor;
                        },
                    }
                    match absolute.json_member("Tablet") {
                        None => {},
                        Some(area) => {
                            snapshot.area_width = area.json_number_string("Width");
                            snapshot.area_height = area.json_number_string("Height");
                            snapshot.area_x = area.json_number_string("X");
                            snapshot.area_y = area.json_number_string("Y");
                            snapshot.area_rotation = area.json_number_string("Rotation");
                        },
                    }
                },
            }
            snapshot.pen_data_available = true;
        },
    }
    snapshot
}

// ---- mapping a tablet that is not mapped ----

/// The first display from `from` on that was detected, or that was detected and is primary.
pub open spec fn first_detected(displays: Seq<Display>, primary_only: bool, from: int) -> Option<
    int,
>
    decreases displays.len() - from,
{
    if from < 0 || from >= displays.len() {
        None
    } else if displays[from].detected && (displays[from].primary || !primary_only) {
        Some(from)
    } else {
        first_detected(displays, primary_only, from + 1)
    }
}

/// The display to map a tablet to: the primary one, or the first one.
pub open spec fn mapping_target(displays: Seq<Display>) -> Option<Display> {
    match first_detected(displays, true, 0) {
        Some(i) => Some(displays[i]),
        None => match first_detected(displays, false, 0) {
            Some(i) => Some(displays[i]),
            None => None,
        },
    }
}

/// The snapshot has every number of the tablet's area.
pub open spec fn area_is_known(snapshot: Snapshot) -> bool {
    &&& snapshot.area_width.len() > 0
    &&& snapshot.area_height.len() > 0
    &&& snapshot.area_x.len() > 0
    &&& snapshot.area_y.len() > 0
    &&& snapshot.area_rotation.len() > 0
}

/// The request that maps the tablet of a snapshot, with its area as it is, to a display.
pub open spec fn mapping_request(snapshot: Snapshot, target: Display) -> Request {
    Request {
        tablet_name: snapshot.device_name,
        width: snapshot.area_width,
        height: snapshot.area_height,
        x: snapshot.area_x,
        y: snapshot.area_y,
        rotation: snapshot.area_rotation,
        frequency: snapshot.area_frequency,
        display: Some(target),
    }
}

/// The snapshot of a tablet that was mapped to a display.
pub open spec fn mapped_snapshot(snapshot: Snapshot, target: Display) -> Snapshot {
    Snapshot {
        monitor_index: target.index,
        preview_width: binary::quotient32(target.width, TEN32),
        preview_height: binary::quotient32(target.height, TEN32),
        ..snapshot
    }
}

fn find_detected(displays: &Vec<DisplayInfo>, primary_only: bool) -> (place: Option<usize>)
    ensures
        match place {
            Some(i) => i < displays@.len() && first_detected(
                display::displays(displays@),
                primary_only,
                0,
            ) == Some(i as int),
            None => first_detected(display::displays(displays@), primary_only, 0) is None,
        },
{
    let ghost all = display::displays(displays@);
    let mut i: usize = 0;
    while i < displays.len()
        invariant
            i <= displays@.len(),
            all == display::displays(displays@),
            first_detected(all, primary_only, 0) == first_detected(all, primary_only, i as int),
        decreases displays@.len() - i,
    {
        assert(all[i as int] == displays@[i as int]@);
        if displays[i].detected && (displays[i].primary || !primary_only) {
            return Some(i);
        }
        i = i + 1;
    }
    None
}

/// The display to map a tablet to.
pub fn target_display(displays: &Vec<DisplayInfo>) -> (target: Option<DisplayInfo>)
    ensures
        match target {
            Some(display) => mapping_target(display::displays(displays@)) == Some(display@),
            None => mapping_target(display::displays(displays@)) is None,
        },
{
    match find_detected(displays, true) {
        Some(i) => Some(displays[i].clone()),
        None => match find_detected(displays, false) {
            Some(i) => Some(displays[i].clone()),
            None => None,
        },
    }
}

// ---- the conversation ----

/// How the platform's driver wants to be asked.
#[derive(Clone, Copy, Debug, PartialEq, Eq, Structural)]
pub struct QueryRules {
    /// After a detection the driver's settings are written back, which rebuilds its pipeline.
    pub restore_pipeline: bool,
    /// A tablet that maps to none of the displays is mapped to the primary one.
    pub auto_map: bool,
}

/// A call of the driver.
#[derive(Debug)]
pub enum DriverCall {
    GetTablets,
    DetectTablets,
    GetSettings,
    SetSettings(Json),
}

/// A call of the driver.
pub enum Call {
    GetTablets,
    DetectTablets,
    GetSettings,
    SetSettings(Tree),
}

impl View for DriverCall {
    type V = Call;

    open spec fn view(&self) -> Call {
        match self {
            DriverCall::GetTablets => Call::GetTablets,
            DriverCall::DetectTablets => Call::DetectTablets,
            DriverCall::GetSettings => Call::GetSettings,
            DriverCall::SetSettings(settings) => Call::SetSettings(settings@),
        }
    }
}

/// The reply that a query waits for.
#[derive(Debug)]
pub enum QueryState {
    /// The tablets.
    Tablets { detect: bool },
    /// The settings that are to be written back.
    PipelineSettings { tablets: Json },
    /// That they are written.
    PipelineRestored { tablets: Json },
    /// The settings after that.
    PipelineReread { tablets: Json },
    /// The settings, which are not known yet.
    Settings { tablets: Json },
    /// The settings after the tablet was mapped.
    Mapping { snapshot: BackendSnapshot, target: DisplayInfo },
}

/// The reply that a query waits for.
pub enum Stage {
    Tablets { detect: bool },
    PipelineSettings { tablets: Tree },
    PipelineRestored { tablets: Tree },
    PipelineReread { tablets: Tree },
    Settings { tablets: Tree },
    Mapping { snapshot: Snapshot, target: Display },
}

impl View for QueryState {
    type V = Stage;

    open spec fn view(&self) -> Stage {
        match self {
            QueryState::Tablets { detect } => Stage::Tablets { detect: *detect },
            QueryState::PipelineSettings { tablets } => Stage::PipelineSettings {
                tablets: tablets@,
            },
            QueryState::PipelineRestored { tablets } => Stage::PipelineRestored {
                tablets: tablets@,
            },
            QueryState::PipelineReread { tablets } => Stage::PipelineReread { tablets: tablets@ },
            QueryState::Settings { tablets } => Stage::Settings { tablets: tablets@ },
            QueryState::Mapping { snapshot, target } => Stage::Mapping {
                snapshot: snapshot@,
                target: target@,
            },
        }
    }
}

/// What outlives a query.
#[derive(Debug)]
pub struct QueryMemory {
    /// The driver's settings, as they were last read.
    pub driver_settings: Option<Json>,
    /// The tablet need not be mapped: it was tried, or the platform does not want it.
    pub mapping_attempted: bool,
}

/// What outlives a query.
pub struct Memory {
    pub driver_settings: Option<Tree>,
    pub mapping_attempted: bool,
}

/// What an optional document says.
pub open spec fn optional_tree(json: Option<Json>) -> Option<Tree> {
    match json {
        Some(j) => Some(j@),
        None => None,
    }
}

impl View for QueryMemory {
    type V = Memory;

    open spec fn view(&self) -> Memory {
        Memory {
            driver_settings: optional_tree(self.driver_settings),
            mapping_attempted: self.mapping_attempted,
        }
    }
}

/// What to do next.
#[derive(Debug)]
pub enum QueryStep {
    /// Call the driver, and hand its reply to this state.
    Call(DriverCall, QueryState),
    /// Apply this area, and hand the driver's settings after it to this state.
    MapTo(AreaRequest, QueryState),
    /// This is what is known of the tablet.
    Done(BackendSnapshot),
    /// The driver did not answer.
    Failed,
}

/// What to do next.
pub enum Step {
    Call(Call, Stage),
    MapTo(Request, Stage),
    Done(Snapshot),
    Failed,
}

impl View for QueryStep {
    type V = Step;

    open spec fn view(&self) -> Step {
        match self {
            QueryStep::Call(call, state) => Step::Call(call@, state@),
            QueryStep::MapTo(request, state) => Step::MapTo(request@, state@),
            QueryStep::Done(snapshot) => Step::Done(snapshot@),
            QueryStep::Failed => Step::Failed,
        }
    }
}

/// The first step of a query.
pub open spec fn first_step(detect: bool) -> Step {
    Step::Call(
        if detect {
            Call::DetectTablets
        } else {
            Call::GetTablets
        },
        Stage::Tablets { detect },
    )
}

/// The step once the tablets are known and the driver's pipeline is in order.
pub open spec fn step_with_tablets(
    tablets: Tree,
    rules: QueryRules,
    displays: Seq<Display>,
    memory: Memory,
) -> (Step, Memory) {
    match profile::first_tablet(tablets) {
        None => (Step::Done(Snapshot::bare("no-tablet"@)), memory),
        Some((name, tablet)) => match memory.driver_settings {
            None => (Step::Call(Call::GetSettings, Stage::Settings { tablets }), memory),
            Some(settings) => step_with_snapshot(
                snapshot_of(name, tablet, settings, displays),
                rules,
                displays,
                memory,
            ),
        },
    }
}

/// The step once the settings are known too.
pub open spec fn step_with_snapshot(
    snapshot: Snapshot,
    rules: QueryRules,
    displays: Seq<Display>,
    memory: Memory,
) -> (Step, Memory) {
    if rules.auto_map && snapshot.pen_data_available && !memory.mapping_attempted {
        let tried = Memory { mapping_attempted: true, ..memory };
        match mapping_target(displays) {
            Some(target) => if snapshot.monitor_index < 0 && area_is_known(snapshot) {
                (
                    Step::MapTo(
                        mapping_request(snapshot, target),
                        Stage::Mapping { snapshot, target },
                    ),
                    tried,
                )
            } else {
                (Step::Done(snapshot), tried)
            },
            None => (Step::Done(snapshot), tried),
        }
    } else {
        (Step::Done(snapshot), memory)
    }
}

/// The step after a reply, and what is remembered then.
pub open spec fn step_after(
    stage: Stage,
    reply: Option<Tree>,
    rules: QueryRules,
    displays: Seq<Display>,
    memory: Memory,
) -> (Step, Memory) {
    match reply {
        None => (Step::Failed, memory),
        Some(tree) => match stage {
            Stage::Tablets { detect } => if detect && rules.restore_pipeline {
                (
                    Step::Call(Call::GetSettings, Stage::PipelineSettings { tablets: tree }),
                    memory,
                )
            } else {
                step_with_tablets(tree, rules, displays, memory)
            },
            Stage::PipelineSettings { tablets } => (
                Step::Call(Call::SetSettings(tree), Stage::PipelineRestored { tablets }),
                memory,
            ),
            Stage::PipelineRestored { tablets } => (
                Step::Call(Call::GetSettings, Stage::PipelineReread { tablets }),
                memory,
            ),
            Stage::PipelineReread { tablets } => step_with_tablets(
                tablets,
                rules,
                displays,
                Memory { driver_settings: Some(tree), ..memory },
            ),
            Stage::Settings { tablets } => step_with_tablets(
                tablets,
                rules,
                displays,
                Memory { driver_settings: Some(tree), ..memory },
            ),
            Stage::Mapping { snapshot, target } => (
                Step::Done(mapped_snapshot(snapshot, target)),
                Memory { driver_settings: Some(tree), ..memory },
            ),
        },
    }
}

/// The first step of a query.
pub fn query_tablets(detect: bool) -> (step: QueryStep)
    ensures
        step@ == first_step(detect),
{
    QueryStep::Call(
        if detect {
            DriverCall::DetectTablets
        } else {
            DriverCall::GetTablets
        },
        QueryState::Tablets { detect },
    )
}

fn with_snapshot(
    snapshot: BackendSnapshot,
    rules: QueryRules,
    displays: &Vec<DisplayInfo>,
    memory: &mut QueryMemory,
) -> (step: QueryStep)
    ensures
        (step@, final(memory)@) == step_with_snapshot(
            snapshot@,
            rules,
            display::displays(displays@),
            old(memory)@,
        ),
{
    if !rules.auto_map || !snapshot.pen_data_available || memory.mapping_attempted {
        return QueryStep::Done(snapshot);
    }
    memory.mapping_attempted = true;
    match target_display(displays) {
        None => QueryStep::Done(snapshot),
        Some(target) => if snapshot.monitor_index < 0 && !snapshot.area_width.as_str().is_empty()
            && !snapshot.area_height.as_str().is_empty() && !snapshot.area_x.as_str().is_empty()
            && !snapshot.area_y.as_str().is_empty()
            && !snapshot.area_rotation.as_str().is_empty() {
            let request = AreaRequest {
                tablet_name: snapshot.device_name.clone(),
                width: snapshot.area_width.clone(),
                height: snapshot.area_height.clone(),
                x: snapshot.area_x.clone(),
                y: snapshot.area_y.clone(),
                rotation: snapshot.area_rotation.clone(),
                frequency: snapshot.area_frequency.clone(),
                display: Some(target.clone()),
            };
            QueryStep::MapTo(request, QueryState::Mapping { snapshot, target })
        } else {
            QueryStep::Done(snapshot)
        },
    }
}

fn with_tablets(
    tablets: Json,
    rules: QueryRules,
    displays: &Vec<DisplayInfo>,
    memory: &mut QueryMemory,
) -> (step: QueryStep)
    ensures
        (step@, final(memory)@) == step_with_tablets(
            tablets@,
            rules,
            display::displays(displays@),
            old(memory)@,
        ),
{
    let snapshot = match profile::tablet_from_result(&tablets) {
        None => Some(BackendSnapshot::bare("no-tablet")),
        Some((name, tablet)) => match &memory.driver_settings {
            None => None,
            Some(settings) => {
                let snapshot = build_snapshot(name.as_str(), tablet, settings, displays);
                return with_snapshot(snapshot, rules, displays, memory);
            },
        },
    };
    match snapshot {
        Some(bare) => QueryStep::Done(bare),
        None => QueryStep::Call(DriverCall::GetSettings, QueryState::Settings { tablets }),
    }
}

/// Takes the reply that a query waits for; there is none where the call failed.
pub fn query_backend(
    state: QueryState,
    reply: Option<Json>,
    rules: QueryRules,
    displays: &Vec<DisplayInfo>,
    memory: &mut QueryMemory,
) -> (step: QueryStep)
    ensures
        (step@, final(memory)@) == step_after(
            state@,
            optional_tree(reply),
            rules,
            display::displays(displays@),
            old(memory)@,
        ),
{
    let json = match reply {
        Some(json) => json,
        None => return QueryStep::Failed,
    };
    match state {
        QueryState::Tablets { detect } => if detect && rules.restore_pipeline {
            QueryStep::Call(
                DriverCall::GetSettings,
                QueryState::PipelineSettings { tablets: json },
            )
        } else {
            with_tablets(json, rules, displays, memory)
        },
        QueryState::PipelineSettings { tablets } => QueryStep::Call(
            DriverCall::SetSettings(json),
            QueryState::PipelineRestored { tablets },
        ),
        QueryState::PipelineRestored { tablets } => QueryStep::Call(
            DriverCall::GetSettings,
            QueryState::PipelineReread { tablets },
        ),
        QueryState::PipelineReread { tablets } => {
            memory.driver_settings = Some(json);
            with_tablets(tablets, rules, displays, memory)
        },
        QueryState::Settings { tablets } => {
            memory.driver_settings = Some(json);
            with_tablets(tablets, rules, displays, memory)
        },
        QueryState::Mapping { snapshot, target } => {
            memory.driver_settings = Some(json);
            let mut mapped = snapshot;
            mapped.monitor_index = target.index;
            mapped.preview_width = binary::div32(target.width, TEN32);
            mapped.preview_height = binary::div32(target.height, TEN32);
            QueryStep::Done(mapped)
        },
    }
}

// ---- laws ----

/// A detection on a platform that asks for it never ends before the driver's settings were
/// read, written back as they were read, and read again.
pub proof fn detection_restores_the_pipeline(
    tablets: Tree,
    settings: Tree,
    written: Tree,
    rules: QueryRules,
    displays: Seq<Display>,
    memory: Memory,
)
    requires
        rules.restore_pipeline,
    ensures
        first_step(true) == Step::Call(Call::DetectTablets, Stage::Tablets { detect: true }),
        step_after(Stage::Tablets { detect: true }, Some(tablets), rules, displays, memory) == (
            Step::Call(Call::GetSettings, Stage::PipelineSettings { tablets }),
            memory,
        ),
        step_after(
            Stage::PipelineSettings { tablets },
            Some(settings),
            rules,
            displays,
            memory,
        ) == (
            Step::Call(Call::SetSettings(settings), Stage::PipelineRestored { tablets }),
            memory,
        ),
        step_after(
            Stage::PipelineRestored { tablets },
            Some(written),
            rules,
            displays,
            memory,
        ) == (Step::Call(Call::GetSettings, Stage::PipelineReread { tablets }), memory),
{
}

/// A query changes the driver's settings only to write them back as they were read, or to
/// map a tablet on a platform that asks for it, and for that only once until it is allowed
/// again.
pub proof fn mapping_is_tried_once(
    stage: Stage,
    reply: Option<Tree>,
    rules: QueryRules,
    displays: Seq<Display>,
    memory: Memory,
)
    ensures
        ({
            let (step, after) = step_after(stage, reply, rules, displays, memory);
            &&& step is MapTo ==> rules.auto_map && !memory.mapping_attempted
                && after.mapping_attempted
            &&& memory.mapping_attempted ==> after.mapping_attempted
            &&& step matches Step::Call(Call::SetSettings(sent), _) ==> stage is PipelineSettings
                && reply == Some(sent)
        }),
{
}

/// A tablet is mapped to a display that was detected, and only where it covers none.
pub proof fn mapping_targets_a_detected_display(
    stage: Stage,
    reply: Option<Tree>,
    rules: QueryRules,
    displays: Seq<Display>,
    memory: Memory,
)
    ensures
        step_after(stage, reply, rules, displays, memory).0 matches Step::MapTo(request, next) ==> {
            &&& request.display is Some
            &&& request.display->0.detected
            &&& displays.contains(request.display->0)
            &&& next matches Stage::Mapping { snapshot, target } && snapshot.monitor_index < 0
                && request.display == Some(target)
        },
{
    detected_is_found(displays, true, 0);
    detected_is_found(displays, false, 0);
}

proof fn detected_is_found(displays: Seq<Display>, primary_only: bool, from: int)
    requires
        0 <= from,
    ensures
        first_detected(displays, primary_only, from) matches Some(i) ==> from <= i
            < displays.len() && displays[i].detected,
    decreases displays.len() - from,
{
    if from < displays.len() {
        detected_is_found(displays, primary_only, from + 1);
    }
}

// ---- what a snapshot shows ----

proof fn found_profile(settings: Tree, tablet: Seq<char>, i: int)
    requires
        settings.member("Profiles"@) matches Some(Tree::Array(profiles)) && apply::is_first_profile(
            profiles,
            tablet,
            i,
        ),
    ensures
        profile::tablet_profile(settings, tablet) == Some(
            settings.member("Profiles"@)->0->Array_0[i],
        ),
{
    let profiles = settings.member("Profiles"@)->0->Array_0;
    profile::index_is_first(profiles, tablet, 0);
    let k = profile::profile_index(profiles, tablet, 0)->0;
    if k < i {
        assert(profiles[k].member("Tablet"@) != Some(Tree::Text(tablet)));
    }
}

/// The snapshot of a tablet with a profile names the tablet, and its texts show the numbers of
/// the profile's area: the width, the height, the place across, the place down and the rotation,
/// each in its own field.
pub proof fn snapshots_show_the_profile(
    name: Seq<char>,
    tablet: Tree,
    settings: Tree,
    displays: Seq<Display>,
    i: int,
)
    requires
        settings.member("Profiles"@) matches Some(Tree::Array(profiles)) && apply::is_first_profile(
            profiles,
            name,
            i,
        ),
    ensures
        ({
            let found = settings.member("Profiles"@)->0->Array_0[i];
            let shown = snapshot_of(name, tablet, settings, displays);
            &&& shown.state == "ready"@
            &&& shown.device_name == name
            &&& shown.pen_data_available
            &&& shown.area_frequency == profile::profile_frequency(found)
            &&& match found.member("AbsoluteModeSettings"@) {
                Some(absolute) => match absolute.member("Tablet"@) {
                    Some(area) => {
                        &&& apply::shows_member(shown.area_width, area, "Width"@)
                        &&& apply::shows_member(shown.area_height, area, "Height"@)
                        &&& apply::shows_member(shown.area_x, area, "X"@)
                        &&& apply::shows_member(shown.area_y, area, "Y"@)
                        &&& apply::shows_member(shown.area_rotation, area, "Rotation"@)
                    },
                    None => shows_no_area(shown),
                },
                None => shows_no_area(shown),
            }
        }),
{
    found_profile(settings, name, i);
    let found = settings.member("Profiles"@)->0->Array_0[i];
    let area = found.member("AbsoluteModeSettings"@)->0.member("Tablet"@)->0;
    json::number_texts_say_their_number(area, "Width"@);
    json::number_texts_say_their_number(area, "Height"@);
    json::number_texts_say_their_number(area, "X"@);
    json::number_texts_say_their_number(area, "Y"@);
    json::number_texts_say_their_number(area, "Rotation"@);
}

/// A snapshot shows no number of an area.
pub open spec fn shows_no_area(shown: Snapshot) -> bool {
    &&& shown.area_width.len() == 0
    &&& shown.area_height.len() == 0
    &&& shown.area_x.len() == 0
    &&& shown.area_y.len() == 0
    &&& shown.area_rotation.len() == 0
}

/// The member is a whole number, written as an integer or not.
pub open spec fn member_is_whole(tree: Tree, name: Seq<char>, n: int) -> bool {
    match tree.member(name) {
        Some(Tree::Number(JsonNumber::Integer(m))) => m == n,
        Some(Tree::Number(JsonNumber::Double(bits))) => binary::is_finite64(bits)
            && binary::value64(bits) == n * binary::one(),
        _ => false,
    }
}

proof fn whole_is_said(text: Seq<char>, tree: Tree, name: Seq<char>, n: int)
    requires
        apply::shows_member(text, tree, name),
        member_is_whole(tree, name, n),
        -0x20_0000_0000_0000 < n < 0x20_0000_0000_0000,
    ensures
        decimal::said(text, 0) == Some(n),
{
    let o = binary::one();
    power2::lemma_pow2_pos(1074);
    match tree.member(name) {
        Some(Tree::Number(JsonNumber::Double(bits))) => {
            vstd::arithmetic::div_mod::lemma_fundamental_div_mod_converse(n * o, o, n, 0);
            let m = decimal::said(text, 0)->0;
            assert(m == n) by (nonlinear_arith)
                requires
                    m * o == n * o,
                    o > 0,
            ;
        },
        _ => {},
    }
}

/// Where the five numbers of a profile's area are whole, the five texts of the snapshot read as
/// them, in this order.
pub proof fn whole_areas_are_shown(
    name: Seq<char>,
    tablet: Tree,
    settings: Tree,
    displays: Seq<Display>,
    i: int,
    w: int,
    h: int,
    x: int,
    y: int,
    r: int,
)
    requires
        settings.member("Profiles"@) matches Some(Tree::Array(profiles)) && apply::is_first_profile(
            profiles,
            name,
            i,
        ),
        ({
            let found = settings.member("Profiles"@)->0->Array_0[i];
            let area = found.member("AbsoluteModeSettings"@)->0.member("Tablet"@)->0;
            &&& found.member("AbsoluteModeSettings"@) is Some
            &&& found.member("AbsoluteModeSettings"@)->0.member("Tablet"@) is Some
            &&& member_is_whole(area, "Width"@, w)
            &&& member_is_whole(area, "Height"@, h)
            &&& member_is_whole(area, "X"@, x)
            &&& member_is_whole(area, "Y"@, y)
            &&& member_is_whole(area, "Rotation"@, r)
        }),
        -0x20_0000_0000_0000 < w < 0x20_0000_0000_0000,
        -0x20_0000_0000_0000 < h < 0x20_0000_0000_0000,
        -0x20_0000_0000_0000 < x < 0x20_0000_0000_0000,
        -0x20_0000_0000_0000 < y < 0x20_0000_0000_0000,
        -0x20_0000_0000_0000 < r < 0x20_0000_0000_0000,
    ensures
        ({
            let shown = snapshot_of(name, tablet, settings, displays);
            &&& decimal::said(shown.area_width, 0) == Some(w)
            &&& decimal::said(shown.area_height, 0) == Some(h)
            &&& decimal::said(shown.area_x, 0) == Some(x)
            &&& decimal::said(shown.area_y, 0) == Some(y)
            &&& decimal::said(shown.area_rotation, 0) == Some(r)
        }),
{
    snapshots_show_the_profile(name, tablet, settings, displays, i);
    let shown = snapshot_of(name, tablet, settings, displays);
    let found = settings.member("Profiles"@)->0->Array_0[i];
    let area = found.member("AbsoluteModeSettings"@)->0.member("Tablet"@)->0;
    whole_is_said(shown.area_width, area, "Width"@, w);
    whole_is_said(shown.area_height, area, "Height"@, h);
    whole_is_said(shown.area_x, area, "X"@, x);
    whole_is_said(shown.area_y, area, "Y"@, y);
    whole_is_said(shown.area_rotation, area, "Rotation"@, r);
}

/// The snapshot of a tablet without a profile shows no area, the usual frequency, no display and
/// no pen.
pub proof fn tablets_without_a_profile_show_no_area(
    name: Seq<char>,
    tablet: Tree,
    settings: Tree,
    displays: Seq<Display>,
)
    requires
        settings.member("Profiles"@) matches Some(Tree::Array(profiles)) ==> forall|k: int|
            0 <= k < profiles.len() ==> (#[trigger] profiles[k]).member("Tablet"@) != Some(
                Tree::Text(name),
            ),
    ensures
        ({
            let shown = snapshot_of(name, tablet, settings, displays);
            &&& shown.state == "ready"@
            &&& shown.device_name == name
            &&& shows_no_area(shown)
            &&& shown.area_frequency == "1000"@
            &&& shown.monitor_index == -1
            &&& !shown.pen_data_available
            &&& binary::value32(shown.preview_width) == 152 * binary::one()
            &&& binary::value32(shown.preview_height) == 95 * binary::one()
        }),
{
    usual_sizes();
    match settings.member("Profiles"@) {
        Some(Tree::Array(profiles)) => {
            profile::index_is_first(profiles, name, 0);
        },
        _ => {},
    }
}

proof fn usual_sizes()
    ensures
        binary::value32(USUAL_WIDTH) == 152 * binary::one(),
        binary::value32(USUAL_HEIGHT) == 95 * binary::one(),
        binary::exact32(TEN32).magnitude() == 10 * binary::one(),
        binary::exact64(TEN).magnitude() == 10 * binary::one(),
        binary::one() > 0,
{
    power2::lemma_pow2_pos(1074);
    power2::lemma_pow2_pos(1022);
    assert(power2::pow2(52) == 0x10_0000_0000_0000 && power2::pow2(7) == 128 && power2::pow2(6)
        == 64 && power2::pow2(3) == 8) by {
        power2::lemma2_to64();
        power2::lemma2_to64_rest();
    }
    power2::lemma_pow2_adds(52, 1022);
    let z = power2::pow2(1022) as int;
    let o = binary::one();
    assert(o == 0x10_0000_0000_0000 * z);
    power2::lemma_pow2_adds(7, 1022);
    power2::lemma_pow2_adds(6, 1022);
    power2::lemma_pow2_adds(3, 1022);
    let width = binary::exact32(USUAL_WIDTH);
    assert(width.significand == 0x13_0000_0000_0000 && width.shift == 1029);
    assert(0x13_0000_0000_0000 * (128 * z) == 152 * (0x10_0000_0000_0000 * z)) by (nonlinear_arith);
    let height = binary::exact32(USUAL_HEIGHT);
    assert(height.significand == 0x17_c000_0000_0000 && height.shift == 1028);
    assert(0x17_c000_0000_0000 * (64 * z) == 95 * (0x10_0000_0000_0000 * z)) by (nonlinear_arith);
    let ten = binary::exact32(TEN32);
    assert(ten.significand == 0x14_0000_0000_0000 && ten.shift == 1025);
    assert(0x14_0000_0000_0000 * (8 * z) == 10 * (0x10_0000_0000_0000 * z)) by (nonlinear_arith);
    let wide = binary::exact64(TEN);
    assert(wide.significand == 0x14_0000_0000_0000 && wide.shift == 1025);
}

/// A text shows the number that another text reads as, where that is finite.
pub open spec fn shows_reading(shown: Seq<char>, text: Seq<char>, readings: Readings) -> bool {
    readings.double_of(text) matches Some(bits) && (binary::is_finite64(bits) ==> json::shows(
        shown,
        binary::value64(bits),
    ))
}

proof fn held_numbers_are_shown(
    shown: Seq<char>,
    area: Tree,
    name: Seq<char>,
    text: Seq<char>,
    readings: Readings,
)
    requires
        apply::holds(area, name, text, readings),
        apply::shows_member(shown, area, name),
    ensures
        shows_reading(shown, text, readings),
{
}

/// The snapshot that is taken of settings as they were sent for a request shows the numbers of
/// that request, field by field. Its frequency is the one of the request, or the usual one where
/// no filter has any.
pub proof fn snapshots_show_what_was_sent(
    settings: Tree,
    request: Request,
    readings: Readings,
    tablet: Tree,
    displays: Seq<Display>,
)
    requires
        apply::planned(settings, request, readings) is Ok,
    ensures
        ({
            let sent = apply::planned(settings, request, readings)->Ok_0.settings;
            let shown = snapshot_of(request.tablet_name, tablet, sent, displays);
            &&& shown.state == "ready"@
            &&& shown.device_name == request.tablet_name
            &&& shown.pen_data_available
            &&& shows_reading(shown.area_width, request.width, readings)
            &&& shows_reading(shown.area_height, request.height, readings)
            &&& shows_reading(shown.area_x, request.x, readings)
            &&& shows_reading(shown.area_y, request.y, readings)
            &&& shows_reading(shown.area_rotation, request.rotation, readings)
            &&& shown.area_frequency == "1000"@ || shows_reading(
                shown.area_frequency,
                request.frequency,
                readings,
            )
        }),
{
    apply::only_requested_values_change(settings, request, readings);
    apply::one_profile_changes(settings, request, readings);
    let tablet_name = request.tablet_name;
    let sent = apply::planned(settings, request, readings)->Ok_0.settings;
    let before = settings.member("Profiles"@)->0->Array_0;
    let after = sent.member("Profiles"@)->0->Array_0;
    let i = choose|i: int| #[trigger]
        apply::is_first_profile(before, tablet_name, i) && apply::profile_is_changed(
            before[i],
            after[i],
            request,
            readings,
        ) && forall|k: int| 0 <= k < before.len() && k != i ==> after[k] == #[trigger] before[k];
    names_are_apart();
    kept_member(
        before[i],
        after[i],
        seq!["AbsoluteModeSettings"@, "Filters"@],
        "Tablet"@,
    );
    assert(apply::is_first_profile(after, tablet_name, i)) by {
        assert forall|k: int| 0 <= k < i implies (#[trigger] after[k]).member("Tablet"@) != Some(
            Tree::Text(tablet_name),
        ) by {
            assert(after[k] == before[k]);
        }
    }
    snapshots_show_the_profile(tablet_name, tablet, sent, displays, i);
    let shown = snapshot_of(tablet_name, tablet, sent, displays);
    let area = after[i].member("AbsoluteModeSettings"@)->0.member("Tablet"@)->0;
    held_numbers_are_shown(shown.area_width, area, "Width"@, request.width, readings);
    held_numbers_are_shown(shown.area_height, area, "Height"@, request.height, readings);
    held_numbers_are_shown(shown.area_x, area, "X"@, request.x, readings);
    held_numbers_are_shown(shown.area_y, area, "Y"@, request.y, readings);
    held_numbers_are_shown(shown.area_rotation, area, "Rotation"@, request.rotation, readings);
    tuned_frequency_is_shown(before[i], after[i], request, readings);
}

proof fn tuned_frequency_is_shown(
    old_one: Tree,
    new_one: Tree,
    request: Request,
    readings: Readings,
)
    requires
        readings.double_of(request.frequency) is Some,
        apply::filters_are_tuned(old_one, new_one, readings.double_of(request.frequency)->0),
    ensures
        profile::profile_frequency(new_one) == "1000"@ || shows_reading(
            profile::profile_frequency(new_one),
            request.frequency,
            readings,
        ),
{
    let frequency = readings.double_of(request.frequency)->0;
    let text = profile::profile_frequency(new_one);
    profile::frequency_is_that_of_a_filter(new_one);
    if text != "1000"@ {
        let ys = new_one.member("Filters"@)->0->Array_0;
        let only_on = exists|k: int| #[trigger] profile::first_gives(ys, true, text, k);
        let k = choose|k: int| #[trigger] profile::first_gives(ys, only_on, text, k);
        assert(profile::first_gives(ys, only_on, text, k));
        let xs = old_one.member("Filters"@)->0->Array_0;
        match old_one.member("Filters"@) {
            Some(Tree::Array(_)) => {
                assert(apply::filter_is_tuned(xs[k], ys[k], frequency));
                let items = ys[k].member("Settings"@)->0->Array_0;
                let j = choose|j: int|
                    0 <= j < items.len() && (#[trigger] items[j]).member("Property"@) == Some(
                        Tree::Text("Frequency"@),
                    ) && text == items[j].number_text("Value"@) && text.len() > 0 && forall|m: int|
                        0 <= m < j ==> (#[trigger] items[m]).member("Property"@) != Some(
                            Tree::Text("Frequency"@),
                        );
                let olds = xs[k].member("Settings"@)->0->Array_0;
                assert(apply::setting_is_tuned(olds[j], items[j], frequency));
                json::number_texts_say_their_number(items[j], "Value"@);
            },
            _ => {},
        }
    }
}

proof fn names_are_apart()
    ensures
        json::apart("Tablet"@, "AbsoluteModeSettings"@),
        json::apart("Tablet"@, "Filters"@),
{
    reveal_strlit("Tablet");
    reveal_strlit("AbsoluteModeSettings");
    reveal_strlit("Filters");
    assert("Tablet"@[1] == 'a' && "AbsoluteModeSettings"@[1] == 'b' && "Filters"@[1] == 'i');
    assert(crate::text::lower_first("Tablet"@)[1] == 'a');
    assert(crate::text::lower_first("AbsoluteModeSettings"@)[1] == 'b');
    assert(crate::text::lower_first("Filters"@)[1] == 'i');
}

proof fn kept_member(a: Tree, b: Tree, names: Seq<Seq<char>>, other: Seq<char>)
    requires
        apply::same_but_for(a, b, names),
        forall|n: int| 0 <= n < names.len() ==> json::apart(other, #[trigger] names[n]),
    ensures
        b.member(other) == a.member(other),
{
    json::keys_decide(a->Object_0, b->Object_0, other, 0);
    json::keys_decide(a->Object_0, b->Object_0, crate::text::lower_first(other), 0);
    match a.member_index(other) {
        Some(k) => {
            assert(!apply::stands_for(a->Object_0[k].0, names));
        },
        None => {},
    }
}

// ---- sizes ----

/// The member is a number of a value, given in multiples of 2^-1074.
pub open spec fn member_is(tree: Tree, name: Seq<char>, exact: int) -> bool {
    match tree.member(name) {
        Some(Tree::Number(JsonNumber::Integer(n))) => -0x20_0000_0000_0000 < n
            < 0x20_0000_0000_0000 && exact == n * binary::one(),
        Some(Tree::Number(JsonNumber::Double(bits))) => binary::is_finite64(bits)
            && binary::value64(bits) == exact,
        _ => false,
    }
}

proof fn member_has_value(tree: Tree, name: Seq<char>, exact: int)
    requires
        member_is(tree, name, exact),
    ensures
        double_member(tree, name) matches Some(bits) && binary::is_finite64(bits)
            && binary::value64(bits) == exact,
{
    match tree.member(name) {
        Some(Tree::Number(JsonNumber::Integer(n))) => {
            binary::integers_are_exact64(n as int);
        },
        _ => {},
    }
}

proof fn a_tenth()
    ensures
        binary::is_finite64(TENTH),
        binary::one() < 10 * binary::value64(TENTH),
        100 * binary::value64(TENTH) < 11 * binary::one(),
        64 * binary::value64(0x3fbc_0000_0000_0000) == 7 * binary::one(),
        binary::value64(0x4022_0000_0000_0000) == 9 * binary::one(),
        binary::value64(TEN) == 10 * binary::one(),
        power2::pow2(1064 + 24) == binary::one() * 0x4000,
        power2::pow2(1074 + 24) == binary::one() * 0x100_0000,
        power2::pow2(1074 + 53) == binary::one() * 0x20_0000_0000_0000,
        binary::one() > 0,
        power2::pow2(2000) > 0x100 * binary::one(),
{
    power2::lemma_pow2_pos(1074);
    power2::lemma_pow2_pos(1018);
    assert(power2::pow2(56) == 0x100_0000_0000_0000 && power2::pow2(52) == 0x10_0000_0000_0000
        && power2::pow2(14) == 0x4000 && power2::pow2(24) == 0x100_0000 && power2::pow2(53)
        == 0x20_0000_0000_0000 && power2::pow2(7) == 128 && power2::pow2(9) == 0x200) by {
        power2::lemma2_to64();
        power2::lemma2_to64_rest();
    }
    let z = power2::pow2(1018) as int;
    power2::lemma_pow2_adds(56, 1018);
    power2::lemma_pow2_adds(7, 1018);
    power2::lemma_pow2_adds(1074, 14);
    power2::lemma_pow2_adds(1074, 24);
    power2::lemma_pow2_adds(1074, 53);
    power2::lemma_pow2_adds(1074, 9);
    power2::lemma_pow2_strictly_increases(1083, 2000);
    let tenth = binary::exact64(TENTH);
    assert(tenth.significand == 0x19_9999_9999_999a && tenth.shift == 1018);
    let inner = binary::exact64(0x3fbc_0000_0000_0000);
    assert(inner.significand == 0x1c_0000_0000_0000 && inner.shift == 1018);
    assert(64 * (0x1c_0000_0000_0000 * z) == 7 * (0x100_0000_0000_0000 * z)) by (nonlinear_arith);
    let nine = binary::exact64(0x4022_0000_0000_0000);
    assert(nine.significand == 0x12_0000_0000_0000 && nine.shift == 1025);
    assert(0x12_0000_0000_0000 * (128 * z) == 9 * (0x100_0000_0000_0000 * z)) by (nonlinear_arith);
    let ten = binary::exact64(TEN);
    assert(ten.significand == 0x14_0000_0000_0000 && ten.shift == 1025);
    assert(0x14_0000_0000_0000 * (128 * z) == 10 * (0x100_0000_0000_0000 * z)) by (nonlinear_arith);
}

/// The size of a tablet whose digitizer says one: exactly that, where both numbers are above a
/// tenth and count thousand-and-twenty-fourths; 152 by 95 where one of them is a tenth or less.
pub proof fn digitizer_sizes_are_taken(tablet: Tree, w: int, h: int)
    requires
        ({
            let properties = tablet.member("Properties"@)->0;
            let specifications = properties.member("Specifications"@)->0;
            let found = specifications.member("Digitizer"@)->0;
            &&& tablet.member("Properties"@) is Some
            &&& properties.member("Specifications"@) is Some
            &&& specifications.member("Digitizer"@) is Some
            &&& member_is(found, "Width"@, w)
            &&& member_is(found, "Height"@, h)
        }),
    ensures
        10 * w <= binary::one() || 10 * h <= binary::one() ==> binary::value32(
            tablet_size(tablet).0,
        ) == 152 * binary::one() && binary::value32(tablet_size(tablet).1) == 95 * binary::one(),
        11 * binary::one() <= 100 * w && 11 * binary::one() <= 100 * h && w % power2::pow2(
            1064,
        ) as int == 0 && h % power2::pow2(1064) as int == 0 && w < 0x4000 * binary::one() && h
            < 0x4000 * binary::one() ==> binary::value32(tablet_size(tablet).0) == w
            && binary::value32(tablet_size(tablet).1) == h,
{
    usual_sizes();
    a_tenth();
    let found = digitizer(tablet)->0;
    member_has_value(found, "Width"@, w);
    member_has_value(found, "Height"@, h);
    let width = double_member(found, "Width"@)->0;
    let height = double_member(found, "Height"@)->0;
    binary::order_is_by_value64(TENTH, width);
    binary::order_is_by_value64(TENTH, height);
    if 11 * binary::one() <= 100 * w && 11 * binary::one() <= 100 * h && w % power2::pow2(
        1064,
    ) as int == 0 && h % power2::pow2(1064) as int == 0 && w < 0x4000 * binary::one() && h < 0x4000
        * binary::one() {
        binary::narrowing_is_exact(width, 1064);
        binary::narrowing_is_exact(height, 1064);
    }
}

/// A tablet whose digitizer does not say its size counts as 152 by 95.
pub proof fn unknown_sizes_are_the_usual_ones(tablet: Tree)
    requires
        tablet.member("Properties"@) matches Some(properties) ==> (properties.member(
            "Specifications"@,
        ) matches Some(specifications) ==> (specifications.member("Digitizer"@) matches Some(found)
            ==> !(found.member("Width"@) matches Some(Tree::Number(_))) || !(found.member(
            "Height"@,
        ) matches Some(Tree::Number(_))))),
    ensures
        binary::value32(tablet_size(tablet).0) == 152 * binary::one(),
        binary::value32(tablet_size(tablet).1) == 95 * binary::one(),
{
    usual_sizes();
}

/// A snapshot has the size of its tablet.
pub proof fn snapshots_have_the_size_of_their_tablet(
    name: Seq<char>,
    tablet: Tree,
    settings: Tree,
    displays: Seq<Display>,
)
    ensures
        snapshot_of(name, tablet, settings, displays).tablet_width == tablet_size(tablet).0,
        snapshot_of(name, tablet, settings, displays).tablet_height == tablet_size(tablet).1,
{
}

proof fn tenth_is_exact(bits: u64, m: int)
    requires
        binary::is_finite64(bits),
        binary::value64(bits) == 10 * m * binary::one(),
        0 < m < 0x100_0000,
    ensures
        ({
            let shown = binary::narrowed(binary::quotient64(bits, TEN));
            binary::is_finite32(shown) && binary::value32(shown) == m * binary::one()
        }),
{
    usual_sizes();
    a_tenth();
    let o = binary::one();
    let v = m * o;
    assert(v > 0 && v < 0x100_0000 * o && 10 * m * o == 10 * v) by (nonlinear_arith)
        requires
            v == m * o,
            0 < m < 0x100_0000,
            o > 0,
    ;
    binary::signs_are_values64(bits);
    vstd::arithmetic::div_mod::lemma_fundamental_div_mod_converse(v, o, m, 0);
    binary::quotients_are_exact64(bits, TEN, v as nat, 10, 1074);
    let q = binary::quotient64(bits, TEN);
    binary::signs_are_values64(q);
    binary::narrowing_is_exact(q, 1074);
}

proof fn aspects_are_compared(width: u64, height: u64, m: int, n: int)
    requires
        binary::is_finite64(width),
        binary::is_finite64(height),
        binary::value64(width) == 10 * m * binary::one(),
        binary::value64(height) == 10 * n * binary::one(),
        0 < m < 0x100_0000,
        0 < n < 0x100_0000,
    ensures
        m <= 9 * n && n <= 9 * m ==> showable(width, height),
        m >= 10 * n || n >= 10 * m ==> !showable(width, height),
{
    a_tenth();
    let o = binary::one();
    let a = binary::value64(width);
    let b = binary::value64(height);
    let t = binary::value64(TENTH);
    let s = binary::value64(0x3fbc_0000_0000_0000);
    let big = power2::pow2(2000) as int;
    power2::lemma_pow2_adds(1074, 926);
    power2::lemma_pow2_pos(926);
    assert(power2::pow2(64) == 0x1_0000_0000_0000_0000) by {
        power2::lemma2_to64();
    }
    power2::lemma_pow2_strictly_increases(64, 926);
    let p = power2::pow2(926) as int;
    assert(a > 0 && b > 0) by (nonlinear_arith)
        requires
            a == 10 * m * o,
            b == 10 * n * o,
            m > 0,
            n > 0,
            o > 0,
    ;
    assert(a * o < b * big) by (nonlinear_arith)
        requires
            a == 10 * m * o,
            b == 10 * n * o,
            0 < m < 0x100_0000,
            n > 0,
            o > 0,
            big == o * p,
            p > 0x1_0000_0000_0000_0000,
    ;
    assert(b * (10 * o) < b * big) by (nonlinear_arith)
        requires
            b > 0,
            o > 0,
            big > 0x100 * o,
    ;
    assert(b * s < b * big) by (nonlinear_arith)
        requires
            b > 0,
            o > 0,
            64 * s == 7 * o,
            big > 0x100 * o,
    ;
    binary::quotients_compare_exactly64(width, height, TEN);
    binary::quotients_compare_exactly64(width, height, 0x4022_0000_0000_0000);
    binary::quotients_compare_exactly64(width, height, TENTH);
    binary::quotients_compare_exactly64(width, height, 0x3fbc_0000_0000_0000);
    if m <= 9 * n && n <= 9 * m {
        assert(a * o <= b * (9 * o)) by (nonlinear_arith)
            requires
                a == 10 * m * o,
                b == 10 * n * o,
                m <= 9 * n,
                o > 0,
        ;
        assert(a * o >= b * s) by (nonlinear_arith)
            requires
                a == 10 * m * o,
                b == 10 * n * o,
                n <= 9 * m,
                m > 0,
                o > 0,
                64 * s == 7 * o,
        ;
    }
    if m >= 10 * n {
        assert(a * o >= b * (10 * o)) by (nonlinear_arith)
            requires
                a == 10 * m * o,
                b == 10 * n * o,
                m >= 10 * n,
                o > 0,
        ;
    }
    if n >= 10 * m {
        assert(a * o <= b * t) by (nonlinear_arith)
            requires
                a == 10 * m * o,
                b == 10 * n * o,
                n >= 10 * m,
                n > 0,
                o > 0,
                10 * t > o,
        ;
    }
}

/// The preview of a tablet that is mapped to a display's area of tens is a tenth of it, across and
/// down, where neither side is ten times the other or more; else it is 152 by 95.
pub proof fn previews_are_a_tenth(
    name: Seq<char>,
    tablet: Tree,
    settings: Tree,
    displays: Seq<Display>,
    i: int,
    m: int,
    n: int,
)
    requires
        settings.member("Profiles"@) matches Some(Tree::Array(profiles)) && apply::is_first_profile(
            profiles,
            name,
            i,
        ),
        ({
            let found = settings.member("Profiles"@)->0->Array_0[i];
            let area = found.member("AbsoluteModeSettings"@)->0.member("Display"@)->0;
            &&& found.member("AbsoluteModeSettings"@) is Some
            &&& found.member("AbsoluteModeSettings"@)->0.member("Display"@) is Some
            &&& member_is(area, "Width"@, 10 * m * binary::one())
            &&& member_is(area, "Height"@, 10 * n * binary::one())
        }),
        0 < m < 0x100_0000,
        0 < n < 0x100_0000,
    ensures
        ({
            let shown = snapshot_of(name, tablet, settings, displays);
            &&& m <= 9 * n && n <= 9 * m ==> binary::value32(shown.preview_width) == m
                * binary::one() && binary::value32(shown.preview_height) == n * binary::one()
            &&& m >= 10 * n || n >= 10 * m ==> binary::value32(shown.preview_width) == 152
                * binary::one() && binary::value32(shown.preview_height) == 95 * binary::one()
        }),
{
    found_profile(settings, name, i);
    usual_sizes();
    let found = settings.member("Profiles"@)->0->Array_0[i];
    let area = display_area(found)->0;
    member_has_value(area, "Width"@, 10 * m * binary::one());
    member_has_value(area, "Height"@, 10 * n * binary::one());
    let width = double_member(area, "Width"@)->0;
    let height = double_member(area, "Height"@)->0;
    aspects_are_compared(width, height, m, n);
    tenth_is_exact(width, m);
    tenth_is_exact(height, n);
}

/// The display of a snapshot is the first one that the profile's area of the display stands on,
/// with the width, the height and the two places each compared with its own. There is none where
/// the area stands on none or does not say all four numbers.
pub proof fn snapshots_name_the_covered_display(
    name: Seq<char>,
    tablet: Tree,
    settings: Tree,
    displays: Seq<Display>,
    i: int,
    w: int,
    h: int,
    x: int,
    y: int,
)
    requires
        settings.member("Profiles"@) matches Some(Tree::Array(profiles)) && apply::is_first_profile(
            profiles,
            name,
            i,
        ),
        ({
            let found = settings.member("Profiles"@)->0->Array_0[i];
            let area = found.member("AbsoluteModeSettings"@)->0.member("Display"@)->0;
            &&& found.member("AbsoluteModeSettings"@) is Some
            &&& found.member("AbsoluteModeSettings"@)->0.member("Display"@) is Some
            &&& member_is(area, "Width"@, w)
            &&& member_is(area, "Height"@, h)
            &&& member_is(area, "X"@, x)
            &&& member_is(area, "Y"@, y)
        }),
        halves(w),
        halves(h),
        halves(x),
        halves(y),
        forall|k: int|
            0 <= k < displays.len() ==> display::in_halves((#[trigger] displays[k]).width)
                && display::in_halves(displays[k].height) && display::in_halves(displays[k].x)
                && display::in_halves(displays[k].y),
    ensures
        ({
            let index = snapshot_of(name, tablet, settings, displays).monitor_index;
            ||| exists|k: int|
                0 <= k < displays.len() && #[trigger] area_is_on(displays[k], w, h, x, y) && index
                    == displays[k].index && forall|n: int|
                    0 <= n < k ==> !#[trigger] area_is_on(displays[n], w, h, x, y)
            ||| index == -1 && forall|n: int|
                0 <= n < displays.len() ==> !#[trigger] area_is_on(displays[n], w, h, x, y)
        }),
{
    found_profile(settings, name, i);
    let found = settings.member("Profiles"@)->0->Array_0[i];
    let area = display_area(found)->0;
    member_has_value(area, "Width"@, w);
    member_has_value(area, "Height"@, h);
    member_has_value(area, "X"@, x);
    member_has_value(area, "Y"@, y);
    let a = double_member(area, "Width"@)->0;
    let b = double_member(area, "Height"@)->0;
    let c = double_member(area, "X"@)->0;
    let d = double_member(area, "Y"@)->0;
    narrowed_halves(a);
    narrowed_halves(b);
    narrowed_halves(c);
    narrowed_halves(d);
    let (a, b, c, d) = (
        binary::narrowed(a),
        binary::narrowed(b),
        binary::narrowed(c),
        binary::narrowed(d),
    );
    display::the_first_covered_display_is_found(displays, a, b, c, d, 0);
    assert forall|n: int| 0 <= n < displays.len() implies #[trigger] area_is_on(
        displays[n],
        w,
        h,
        x,
        y,
    ) == display::stands_on(displays[n], a, b, c, d) by {}
    let index = display::covered(displays, a, b, c, d, 0);
    if exists|k: int|
        0 <= k < displays.len() && #[trigger] display::stands_on(displays[k], a, b, c, d) && index
            == displays[k].index && forall|n: int|
            0 <= n < k ==> !#[trigger] display::stands_on(displays[n], a, b, c, d) {
        let k = choose|k: int|
            0 <= k < displays.len() && #[trigger] display::stands_on(displays[k], a, b, c, d)
                && index == displays[k].index && forall|n: int|
                0 <= n < k ==> !#[trigger] display::stands_on(displays[n], a, b, c, d);
        assert(area_is_on(displays[k], w, h, x, y));
    }
}

/// The number, in multiples of 2^-1074, counts halves and is no larger than a desktop.
pub open spec fn halves(v: int) -> bool {
    &&& (2 * v) % binary::one() == 0
    &&& -0x20_0000 * binary::one() <= v <= 0x20_0000 * binary::one()
}

/// An area, in multiples of 2^-1074, is that of a display: its sizes differ by less than two and
/// its places by less than three.
pub open spec fn area_is_on(d: Display, w: int, h: int, x: int, y: int) -> bool {
    &&& -2 * binary::one() < w - binary::value32(d.width) < 2 * binary::one()
    &&& -2 * binary::one() < h - binary::value32(d.height) < 2 * binary::one()
    &&& -3 * binary::one() < x - binary::value32(d.x) < 3 * binary::one()
    &&& -3 * binary::one() < y - binary::value32(d.y) < 3 * binary::one()
}

proof fn narrowed_halves(bits: u64)
    requires
        binary::is_finite64(bits),
        halves(binary::value64(bits)),
    ensures
        display::in_halves(binary::narrowed(bits)),
        binary::value32(binary::narrowed(bits)) == binary::value64(bits),
{
    let v = binary::value64(bits);
    display::halves_are_steps(v);
    power2::lemma_pow2_unfold(1074);
    power2::lemma_pow2_pos(1073);
    power2::lemma_pow2_adds(1074, 23);
    assert(power2::pow2(23) == 0x80_0000) by {
        power2::lemma2_to64();
    }
    let half = power2::pow2(1073) as int;
    vstd::arithmetic::div_mod::lemma_fundamental_div_mod(v, half);
    let q = v / half;
    assert(-v == half * (-q)) by (nonlinear_arith)
        requires
            v == half * q,
    ;
    vstd::arithmetic::div_mod::lemma_fundamental_div_mod_converse(-v, half, -q, 0);
    binary::narrowing_is_exact(bits, 1073);
}

// ---- which display a tablet is mapped to ----

/// A display was detected, and is primary where that is asked for.
pub open spec fn may_be_target(display: Display, primary_only: bool) -> bool {
    display.detected && (primary_only ==> display.primary)
}

proof fn first_is_found(displays: Seq<Display>, primary_only: bool, from: int)
    requires
        0 <= from,
    ensures
        match first_detected(displays, primary_only, from) {
            Some(i) => from <= i < displays.len() && may_be_target(displays[i], primary_only)
                && forall|k: int|
                from <= k < i ==> !#[trigger] may_be_target(displays[k], primary_only),
            None => forall|k: int|
                from <= k < displays.len() ==> !#[trigger] may_be_target(displays[k], primary_only),
        },
    decreases displays.len() - from,
{
    if from < displays.len() && !(displays[from].detected && (displays[from].primary
        || !primary_only)) {
        first_is_found(displays, primary_only, from + 1);
    }
}

/// A display is the first of those that may be a target.
pub open spec fn is_first_target(displays: Seq<Display>, primary_only: bool, i: int) -> bool {
    &&& 0 <= i < displays.len()
    &&& may_be_target(displays[i], primary_only)
    &&& forall|k: int| 0 <= k < i ==> !#[trigger] may_be_target(displays[k], primary_only)
}

/// A tablet is mapped to the first primary display that was detected, else to the first one that
/// was detected, else to none.
pub proof fn the_primary_display_is_the_target(displays: Seq<Display>)
    ensures
        forall|i: int| #[trigger]
            is_first_target(displays, true, i) ==> mapping_target(displays) == Some(displays[i]),
        (forall|k: int| 0 <= k < displays.len() ==> !#[trigger] may_be_target(displays[k], true))
            ==> forall|i: int| #[trigger]
            is_first_target(displays, false, i) ==> mapping_target(displays) == Some(displays[i]),
        mapping_target(displays) is None <==> forall|k: int|
            0 <= k < displays.len() ==> !(#[trigger] displays[k]).detected,
{
    first_is_found(displays, true, 0);
    first_is_found(displays, false, 0);
    assert forall|i: int| #[trigger] is_first_target(displays, true, i) implies mapping_target(
        displays,
    ) == Some(displays[i]) by {
        let k = first_detected(displays, true, 0)->0;
        assert(may_be_target(displays[i], true));
        if k < i {
            assert(!may_be_target(displays[k], true));
        }
    }
    if forall|k: int| 0 <= k < displays.len() ==> !#[trigger] may_be_target(displays[k], true) {
        assert forall|i: int| #[trigger] is_first_target(displays, false, i) implies mapping_target(
            displays,
        ) == Some(displays[i]) by {
            let k = first_detected(displays, false, 0)->0;
            assert(may_be_target(displays[i], false));
            if k < i {
                assert(!may_be_target(displays[k], false));
            }
        }
    }
    if mapping_target(displays) is None {
        assert forall|k: int| 0 <= k < displays.len() implies !(
        #[trigger] displays[k]).detected by {
            assert(!may_be_target(displays[k], false));
        }
    } else {
        let i = match first_detected(displays, true, 0) {
            Some(i) => i,
            None => first_detected(displays, false, 0)->0,
        };
        assert(displays[i].detected);
    }
}

// ---- how a query goes on ----

/// A query begins with the call that it is made for.
pub proof fn queries_begin_with_the_tablets()
    ensures
        first_step(true) matches Step::Call(Call::DetectTablets, Stage::Tablets { detect: true }),
        first_step(false) matches Step::Call(Call::GetTablets, Stage::Tablets { detect: false }),
{
}

/// A query fails where the driver does not answer, whatever it waits for, and changes nothing of
/// what is remembered. Where the driver answers, it does not fail.
pub proof fn only_missing_answers_fail(
    stage: Stage,
    reply: Option<Tree>,
    rules: QueryRules,
    displays: Seq<Display>,
    memory: Memory,
)
    ensures
        step_after(stage, reply, rules, displays, memory).0 is Failed <==> reply is None,
        reply is None ==> step_after(stage, reply, rules, displays, memory).1 == memory,
{
}

/// The area of a snapshot has all five numbers.
pub open spec fn has_an_area(shown: Snapshot) -> bool {
    shown.area_width.len() > 0 && shown.area_height.len() > 0 && shown.area_x.len() > 0
        && shown.area_y.len() > 0 && shown.area_rotation.len() > 0
}

/// A step ends a query with what is known of a tablet, or maps the tablet first.
///
/// It maps it where the platform asks for that, the tablet has a profile with a whole area that
/// stands on no display, it was not tried before and there is a display to map it to. The request
/// has the snapshot's texts, each in its own field, and the display.
pub open spec fn ends_with(
    step: Step,
    after: Memory,
    shown: Snapshot,
    settings: Tree,
    rules: QueryRules,
    displays: Seq<Display>,
    memory: Memory,
) -> bool {
    let tries = rules.auto_map && shown.pen_data_available && !memory.mapping_attempted;
    let maps = tries && mapping_target(displays) is Some && shown.monitor_index < 0 && has_an_area(
        shown,
    );
    &&& after.driver_settings == Some(settings)
    &&& after.mapping_attempted == (memory.mapping_attempted || tries)
    &&& !maps ==> step == Step::Done(shown)
    &&& maps ==> (step matches Step::MapTo(request, Stage::Mapping { snapshot, target }) && {
        &&& snapshot == shown
        &&& Some(target) == mapping_target(displays)
        &&& request.tablet_name == shown.device_name
        &&& request.width == shown.area_width
        &&& request.height == shown.area_height
        &&& request.x == shown.area_x
        &&& request.y == shown.area_y
        &&& request.rotation == shown.area_rotation
        &&& request.frequency == shown.area_frequency
        &&& request.display == Some(target)
    })
}

/// The settings that a query reads are remembered, and are what the tablet is shown by. A query
/// without a tablet says so.
pub proof fn queries_show_the_settings_that_were_read(
    tablets: Tree,
    settings: Tree,
    rules: QueryRules,
    displays: Seq<Display>,
    memory: Memory,
    reread: bool,
)
    ensures
        ({
            let stage = if reread {
                Stage::PipelineReread { tablets }
            } else {
                Stage::Settings { tablets }
            };
            let (step, after) = step_after(stage, Some(settings), rules, displays, memory);
            match profile::first_tablet(tablets) {
                Some((name, tablet)) => ends_with(
                    step,
                    after,
                    snapshot_of(name, tablet, settings, displays),
                    settings,
                    rules,
                    displays,
                    memory,
                ),
                None => step == Step::Done(Snapshot::bare("no-tablet"@)) && after.driver_settings
                    == Some(settings) && after.mapping_attempted == memory.mapping_attempted,
            }
        }),
{
}

/// Once a query knows the tablets, it goes on with the settings that are remembered, or asks for
/// them where none are. A query without a tablet says so at once.
pub proof fn queries_use_what_is_remembered(
    tablets: Tree,
    rules: QueryRules,
    displays: Seq<Display>,
    memory: Memory,
    detect: bool,
)
    requires
        !detect || !rules.restore_pipeline,
    ensures
        ({
            let (step, after) = step_after(
                Stage::Tablets { detect },
                Some(tablets),
                rules,
                displays,
                memory,
            );
            match profile::first_tablet(tablets) {
                Some((name, tablet)) => match memory.driver_settings {
                    Some(settings) => ends_with(
                        step,
                        after,
                        snapshot_of(name, tablet, settings, displays),
                        settings,
                        rules,
                        displays,
                        memory,
                    ),
                    None => after == memory && step == Step::Call(
                        Call::GetSettings,
                        Stage::Settings { tablets },
                    ),
                },
                None => step == Step::Done(Snapshot::bare("no-tablet"@)) && after == memory,
            }
        }),
{
}

/// A query that mapped its tablet ends with what was known of it, on the display that it was
/// mapped to: the preview is a tenth of that display where its sizes are tens, and the settings
/// are those that were read afterwards.
pub proof fn mapped_tablets_are_on_their_display(
    snapshot: Snapshot,
    target: Display,
    settings: Tree,
    rules: QueryRules,
    displays: Seq<Display>,
    memory: Memory,
    m: int,
    n: int,
)
    requires
        binary::is_finite32(target.width),
        binary::is_finite32(target.height),
        binary::value32(target.width) == 10 * m * binary::one(),
        binary::value32(target.height) == 10 * n * binary::one(),
        0 < m < 0x100_0000,
        0 < n < 0x100_0000,
    ensures
        ({
            let (step, after) = step_after(
                Stage::Mapping { snapshot, target },
                Some(settings),
                rules,
                displays,
                memory,
            );
            &&& after.driver_settings == Some(settings)
            &&& after.mapping_attempted == memory.mapping_attempted
            &&& step matches Step::Done(shown) && {
                &&& shown.monitor_index == target.index
                &&& binary::value32(shown.preview_width) == m * binary::one()
                &&& binary::value32(shown.preview_height) == n * binary::one()
                &&& shown.state == snapshot.state
                &&& shown.device_name == snapshot.device_name
                &&& shown.tablet_width == snapshot.tablet_width
                &&& shown.tablet_height == snapshot.tablet_height
                &&& shown.area_width == snapshot.area_width
                &&& shown.area_height == snapshot.area_height
                &&& shown.area_x == snapshot.area_x
                &&& shown.area_y == snapshot.area_y
                &&& shown.area_rotation == snapshot.area_rotation
                &&& shown.area_frequency == snapshot.area_frequency
                &&& shown.pen_data_available == snapshot.pen_data_available
            }
        }),
{
    tenth_is_exact32(target.width, m);
    tenth_is_exact32(target.height, n);
}

/// A tenth of a number of tens is exact.
pub proof fn tenth_is_exact32(bits: u32, m: int)
    requires
        binary::is_finite32(bits),
        binary::value32(bits) == 10 * m * binary::one(),
        0 < m < 0x100_0000,
    ensures
        binary::value32(binary::quotient32(bits, TEN32)) == m * binary::one(),
{
    usual_sizes();
    a_tenth();
    let o = binary::one();
    let v = m * o;
    assert(v > 0 && v < 0x100_0000 * o && 10 * m * o == 10 * v) by (nonlinear_arith)
        requires
            v == m * o,
            0 < m < 0x100_0000,
            o > 0,
    ;
    binary::signs_are_values32(bits);
    vstd::arithmetic::div_mod::lemma_fundamental_div_mod_converse(v, o, m, 0);
    binary::quotients_are_exact32(bits, TEN32, v as nat, 10, 1074);
    binary::signs_are_values32(binary::quotient32(bits, TEN32));
}

/// What is said of a query follows what it holds, part by part.
pub proof fn memories_say_what_they_hold(memory: QueryMemory)
    ensures
        memory@.driver_settings is Some <==> memory.driver_settings is Some,
        memory.driver_settings matches Some(json) ==> memory@.driver_settings == Some(json@),
        memory@.mapping_attempted == memory.mapping_attempted,
{
}

/// A tablet whose digitizer has a size that is not finite counts as 152 by 95.
pub proof fn unbounded_sizes_are_not_taken(tablet: Tree, bits: u64, across: bool)
    requires
        !binary::is_finite64(bits),
        ({
            let properties = tablet.member("Properties"@)->0;
            let specifications = properties.member("Specifications"@)->0;
            let found = specifications.member("Digitizer"@)->0;
            &&& tablet.member("Properties"@) is Some
            &&& properties.member("Specifications"@) is Some
            &&& specifications.member("Digitizer"@) is Some
            &&& across ==> found.member("Width"@) == Some(Tree::Number(JsonNumber::Double(bits)))
            &&& !across ==> found.member("Height"@) == Some(Tree::Number(JsonNumber::Double(bits)))
        }),
    ensures
        binary::value32(tablet_size(tablet).0) == 152 * binary::one(),
        binary::value32(tablet_size(tablet).1) == 95 * binary::one(),
{
    usual_sizes();
}

} // verus!
