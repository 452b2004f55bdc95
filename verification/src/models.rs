//! What the user interface and the backend tell each other.

use crate::display::{Display, DisplayInfo};
use vstd::prelude::*;

verus! {

/// A tablet area, as the user writes it.
#[derive(Debug)]
pub struct AreaRequest {
    pub tablet_name: String,
    pub width: String,
    pub height: String,
    pub x: String,
    pub y: String,
    pub rotation: String,
    pub frequency: String,
    pub display: Option<DisplayInfo>,
}

/// What a request asks for.
pub struct Request {
    pub tablet_name: Seq<char>,
    pub width: Seq<char>,
    pub height: Seq<char>,
    pub x: Seq<char>,
    pub y: Seq<char>,
    pub rotation: Seq<char>,
    pub frequency: Seq<char>,
    pub display: Option<Display>,
}

/// What an optional display is.
pub open spec fn optional_display(display: Option<DisplayInfo>) -> Option<Display> {
    match display {
        Some(d) => Some(d@),
        None => None,
    }
}

impl View for AreaRequest {
    type V = Request;

    open spec fn view(&self) -> Request {
        Request {
            tablet_name: self.tablet_name@,
            width: self.width@,
            height: self.height@,
            x: self.x@,
            y: self.y@,
            rotation: self.rotation@,
            frequency: self.frequency@,
            display: optional_display(self.display),
        }
    }
}

/// The same display again.
pub fn copy_display(display: &Option<DisplayInfo>) -> (copy: Option<DisplayInfo>)
    ensures
        optional_display(copy) == optional_display(*display),
{
    match display {
        Some(d) => Some(d.clone()),
        None => None,
    }
}

impl Clone for AreaRequest {
    fn clone(&self) -> (request: AreaRequest)
        ensures
            request@ == self@,
    {
        AreaRequest {
            tablet_name: self.tablet_name.clone(),
            width: self.width.clone(),
            height: self.height.clone(),
            x: self.x.clone(),
            y: self.y.clone(),
            rotation: self.rotation.clone(),
            frequency: self.frequency.clone(),
            display: copy_display(&self.display),
        }
    }
}

/// What the backend is asked to do, or told.
#[derive(Debug)]
pub enum BackendCommand {
    /// Look for tablets.
    Detect,
    /// Start the driver's daemon.
    StartDaemon,
    /// Stop.
    Shutdown,
    /// The driver says that its tablets changed.
    TabletChanged { generation: u64 },
    /// The connection to the driver is gone.
    DriverDisconnected { generation: u64, reason: String },
    /// Give the tablet this area.
    ApplyArea(AreaRequest),
    /// Ask the driver for its settings again.
    RefreshSettings,
}

/// What is known of the tablet. Widths and heights are binary32 numbers, by their bits.
#[derive(Debug)]
pub struct BackendSnapshot {
    pub state: &'static str,
    pub device_name: String,
    pub preview_width: u32,
    pub preview_height: u32,
    pub tablet_width: u32,
    pub tablet_height: u32,
    pub area_width: String,
    pub area_height: String,
    pub area_x: String,
    pub area_y: String,
    pub area_rotation: String,
    pub area_frequency: String,
    pub monitor_index: i32,
    pub pen_data_available: bool,
}

/// What a snapshot says.
pub struct Snapshot {
    pub state: Seq<char>,
    pub device_name: Seq<char>,
    pub preview_width: u32,
    pub preview_height: u32,
    pub tablet_width: u32,
    pub tablet_height: u32,
    pub area_width: Seq<char>,
    pub area_height: Seq<char>,
    pub area_x: Seq<char>,
    pub area_y: Seq<char>,
    pub area_rotation: Seq<char>,
    pub area_frequency: Seq<char>,
    pub monitor_index: i32,
    pub pen_data_available: bool,
}

impl View for BackendSnapshot {
    type V = Snapshot;

    open spec fn view(&self) -> Snapshot {
        Snapshot {
            state: self.state@,
            device_name: self.device_name@,
            preview_width: self.preview_width,
            preview_height: self.preview_height,
            tablet_width: self.tablet_width,
            tablet_height: self.tablet_height,
            area_width: self.area_width@,
            area_height: self.area_height@,
            area_x: self.area_x@,
            area_y: self.area_y@,
            area_rotation: self.area_rotation@,
            area_frequency: self.area_frequency@,
            monitor_index: self.monitor_index,
            pen_data_available: self.pen_data_available,
        }
    }
}

impl Snapshot {
    /// A snapshot that says nothing but its state.
    pub open spec fn bare(state: Seq<char>) -> Snapshot {
        Snapshot {
            state,
            device_name: Seq::empty(),
            preview_width: 0,
            preview_height: 0,
            tablet_width: 0,
            tablet_height: 0,
            area_width: Seq::empty(),
            area_height: Seq::empty(),
            area_x: Seq::empty(),
            area_y: Seq::empty(),
            area_rotation: Seq::empty(),
            area_frequency: Seq::empty(),
            monitor_index: 0,
            pen_data_available: false,
        }
    }
}

impl BackendSnapshot {
    /// A snapshot that says nothing but its state.
    pub fn bare(state: &'static str) -> (snapshot: BackendSnapshot)
        ensures
            snapshot@ == Snapshot::bare(state@),
    {
        BackendSnapshot {
            state,
            device_name: String::new(),
            preview_width: 0,
            preview_height: 0,
            tablet_width: 0,
            tablet_height: 0,
            area_width: String::new(),
            area_height: String::new(),
            area_x: String::new(),
            area_y: String::new(),
            area_rotation: String::new(),
            area_frequency: String::new(),
            monitor_index: 0,
            pen_data_available: false,
        }
    }
}

// ---- laws ----

/// A request asks for what its fields say, each for its own.
pub proof fn requests_say_what_their_fields_say(request: AreaRequest)
    ensures
        request@.tablet_name == request.tablet_name@,
        request@.width == request.width@,
        request@.height == request.height@,
        request@.x == request.x@,
        request@.y == request.y@,
        request@.rotation == request.rotation@,
        request@.frequency == request.frequency@,
        request@.display is Some <==> request.display is Some,
        request.display matches Some(d) ==> request@.display == Some(d@),
{
}

/// A snapshot says what its fields say, each for its own.
pub proof fn snapshots_say_what_their_fields_say(snapshot: BackendSnapshot)
    ensures
        snapshot@.state == snapshot.state@,
        snapshot@.device_name == snapshot.device_name@,
        snapshot@.preview_width == snapshot.preview_width,
        snapshot@.preview_height == snapshot.preview_height,
        snapshot@.tablet_width == snapshot.tablet_width,
        snapshot@.tablet_height == snapshot.tablet_height,
        snapshot@.area_width == snapshot.area_width@,
        snapshot@.area_height == snapshot.area_height@,
        snapshot@.area_x == snapshot.area_x@,
        snapshot@.area_y == snapshot.area_y@,
        snapshot@.area_rotation == snapshot.area_rotation@,
        snapshot@.area_frequency == snapshot.area_frequency@,
        snapshot@.monitor_index == snapshot.monitor_index,
        snapshot@.pen_data_available == snapshot.pen_data_available,
{
}

/// A bare snapshot has its state, and nothing else in any field.
pub proof fn bare_snapshots_say_their_state(state: Seq<char>)
    ensures
        ({
            let bare = Snapshot::bare(state);
            &&& bare.state == state
            &&& bare.device_name.len() == 0
            &&& bare.preview_width == 0
            &&& bare.preview_height == 0
            &&& bare.tablet_width == 0
            &&& bare.tablet_height == 0
            &&& bare.area_width.len() == 0
            &&& bare.area_height.len() == 0
            &&& bare.area_x.len() == 0
            &&& bare.area_y.len() == 0
            &&& bare.area_rotation.len() == 0
            &&& bare.area_frequency.len() == 0
            &&& bare.monitor_index == 0
            &&& !bare.pen_data_available
        }),
{
}

} // verus!
