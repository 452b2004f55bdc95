//! Giving a tablet a new area, and making sure that the driver took it.

use crate::binary;
use crate::decimal;
use crate::display::{Display, DisplayInfo};
use crate::json;
use crate::json::{Json, JsonNumber, Tree};
use crate::models::{AreaRequest, Request};
use crate::models;
use crate::profile;
use crate::readings::Readings;
use crate::text;
use crate::validation;
use crate::validation::{Fault, ValidationError};
use vstd::arithmetic::power2;
use vstd::prelude::*;

verus! {

/// How often the driver's settings are read back before an area counts as refused.
pub const CONFIRM_ROUNDS: u32 = 5;

/// The pause before each reading, in milliseconds.
pub const CONFIRM_PAUSE_MILLIS: u64 = 300;

/// 0.005
pub const AREA_TOLERANCE: u64 = 0x3f74_7ae1_47ae_147b;

/// 0.5
pub const HALF: u64 = 0x3fe0_0000_0000_0000;

/// Why an area was not applied.
#[derive(Debug)]
pub enum ApplyError {
    ProfilesMissing,
    TabletProfileMissing,
    TabletAreaMissing,
    Invalid(ValidationError),
    AreaFieldMissing(&'static str),
    DisplayAreaMissing,
    DisplayFieldMissing(&'static str),
}

/// Why an area was not applied.
pub enum Refusal {
    ProfilesMissing,
    TabletProfileMissing,
    TabletAreaMissing,
    Invalid(Fault),
    AreaFieldMissing(Seq<char>),
    DisplayAreaMissing,
    DisplayFieldMissing(Seq<char>),
}

impl View for ApplyError {
    type V = Refusal;

    open spec fn view(&self) -> Refusal {
        match self {
            ApplyError::ProfilesMissing => Refusal::ProfilesMissing,
            ApplyError::TabletProfileMissing => Refusal::TabletProfileMissing,
            ApplyError::TabletAreaMissing => Refusal::TabletAreaMissing,
            ApplyError::Invalid(error) => Refusal::Invalid(error@),
            ApplyError::AreaFieldMissing(name) => Refusal::AreaFieldMissing(name@),
            ApplyError::DisplayAreaMissing => Refusal::DisplayAreaMissing,
            ApplyError::DisplayFieldMissing(name) => Refusal::DisplayFieldMissing(name@),
        }
    }
}

impl Refusal {
    /// What to tell the user.
    pub open spec fn says(self) -> Seq<char> {
        match self {
            Refusal::ProfilesMissing => "Profiles missing"@,
            Refusal::TabletProfileMissing => "Tablet profile missing"@,
            Refusal::TabletAreaMissing => "Tablet area missing"@,
            Refusal::Invalid(fault) => fault.says(),
            Refusal::AreaFieldMissing(name) => "Area field "@ + name + " missing"@,
            Refusal::DisplayAreaMissing => "Display area missing"@,
            Refusal::DisplayFieldMissing(name) => "Display field "@ + name + " missing"@,
        }
    }
}

impl ApplyError {
    /// What to tell the user.
    pub fn message(&self) -> (text: String)
        ensures
            text@ == self@.says(),
    {
        match self {
            ApplyError::ProfilesMissing => "Profiles missing".to_owned(),
            ApplyError::TabletProfileMissing => "Tablet profile missing".to_owned(),
            ApplyError::TabletAreaMissing => "Tablet area missing".to_owned(),
            ApplyError::Invalid(error) => error.message(),
            ApplyError::AreaFieldMissing(name) => "Area field ".to_owned().concat(name).concat(
                " missing",
            ),
            ApplyError::DisplayAreaMissing => "Display area missing".to_owned(),
            ApplyError::DisplayFieldMissing(name) => "Display field ".to_owned().concat(
                name,
            ).concat(" missing"),
        }
    }
}

// ---- the numbers that are asked for ----

/// A member of an area, and the binary64 number that it is to have.
#[derive(Clone, Copy, Debug)]
pub struct Field {
    pub name: &'static str,
    pub number: u64,
}

/// The numbers of a tablet area, checked in order.
pub open spec fn area_fields(request: Request, readings: Readings) -> Result<
    Seq<(Seq<char>, u64)>,
    Fault,
> {
    match validation::valid_dimension("Width"@, request.width, readings) {
        Err(fault) => Err(fault),
        Ok(width) => match validation::valid_dimension("Height"@, request.height, readings) {
            Err(fault) => Err(fault),
            Ok(height) => match validation::finite("X"@, request.x, readings) {
                Err(fault) => Err(fault),
                Ok(x) => match validation::finite("Y"@, request.y, readings) {
                    Err(fault) => Err(fault),
                    Ok(y) => match validation::valid_rotation(request.rotation, readings) {
                        Err(fault) => Err(fault),
                        Ok(rotation) => Ok(
                            seq![
                                ("Width"@, width),
                                ("Height"@, height),
                                ("X"@, x),
                                ("Y"@, y),
                                ("Rotation"@, rotation),
                            ],
                        ),
                    },
                },
            },
        },
    }
}

/// The numbers of a display, as binary64 ones.
pub open spec fn display_fields(display: Display) -> Seq<(Seq<char>, u64)> {
    seq![
        ("Width"@, binary::widened(display.width)),
        ("Height"@, binary::widened(display.height)),
        ("X"@, binary::widened(display.x)),
        ("Y"@, binary::widened(display.y)),
    ]
}

/// The names and numbers of some fields.
pub open spec fn fields(list: Seq<Field>) -> Seq<(Seq<char>, u64)> {
    list.map_values(|field: Field| (field.name@, field.number))
}

fn requested_area(request: &AreaRequest, readings: &Readings) -> (list: Result<
    Vec<Field>,
    ValidationError,
>)
    ensures
        match list {
            Ok(v) => area_fields(request@, *readings) is Ok && fields(v@) == area_fields(
                request@,
                *readings,
            )->Ok_0,
            Err(error) => area_fields(request@, *readings) == Err::<
                Seq<(Seq<char>, u64)>,
                Fault,
            >(error@),
        },
        list is Ok ==> list->Ok_0@.len() == 5,
{
    let width = match validation::positive_dimension("Width", request.width.as_str(), readings) {
        Ok(number) => number,
        Err(error) => return Err(error),
    };
    let height = match validation::positive_dimension(
        "Height",
        request.height.as_str(),
        readings,
    ) {
        Ok(number) => number,
        Err(error) => return Err(error),
    };
    let x = match validation::finite_number("X", request.x.as_str(), readings) {
        Ok(number) => number,
        Err(error) => return Err(error),
    };
    let y = match validation::finite_number("Y", request.y.as_str(), readings) {
        Ok(number) => number,
        Err(error) => return Err(error),
    };
    let rotation = match validation::rotation(request.rotation.as_str(), readings) {
        Ok(number) => number,
        Err(error) => return Err(error),
    };
    let mut list: Vec<Field> = Vec::new();
    list.push(Field { name: "Width", number: width });
    list.push(Field { name: "Height", number: height });
    list.push(Field { name: "X", number: x });
    list.push(Field { name: "Y", number: y });
    list.push(Field { name: "Rotation", number: rotation });
    assert(fields(list@) =~= area_fields(request@, *readings)->Ok_0);
    Ok(list)
}

fn requested_display(display: &DisplayInfo) -> (list: Vec<Field>)
    ensures
        fields(list@) == display_fields(display@),
{
    let mut list: Vec<Field> = Vec::new();
    list.push(Field { name: "Width", number: binary::widen(display.width) });
    list.push(Field { name: "Height", number: binary::widen(display.height) });
    list.push(Field { name: "X", number: binary::widen(display.x) });
    list.push(Field { name: "Y", number: binary::widen(display.y) });
    assert(fields(list@) =~= display_fields(display@));
    list
}

// ---- editing ----

/// A number as JSON: nothing stands for what is not finite.
pub open spec fn number_tree(bits: u64) -> Tree {
    if binary::is_finite64(bits) {
        Tree::Number(JsonNumber::Double(bits))
    } else {
        Tree::Null
    }
}

fn number_json(bits: u64) -> (value: Json)
    ensures
        value@ == number_tree(bits),
{
    if binary::finite64(bits) {
        Json::Number(JsonNumber::Double(bits))
    } else {
        Json::Null
    }
}

/// An object with the given members set in order, or the first one that it does not have.
pub open spec fn with_fields(area: Tree, list: Seq<(Seq<char>, u64)>) -> Result<Tree, Seq<char>>
    decreases list.len(),
{
    if list.len() == 0 {
        Ok(area)
    } else {
        match with_fields(area, list.drop_last()) {
            Err(name) => Err(name),
            Ok(before) => if before.member(list.last().0) is Some {
                Ok(before.with_member(list.last().0, number_tree(list.last().1)))
            } else {
                Err(list.last().0)
            },
        }
    }
}

/// Once a member is missing, more members mend nothing.
proof fn missing_stays(area: Tree, list: Seq<(Seq<char>, u64)>, n: int)
    requires
        0 <= n <= list.len(),
        with_fields(area, list.take(n)) is Err,
    ensures
        with_fields(area, list) == with_fields(area, list.take(n)),
    decreases list.len() - n,
{
    if n < list.len() {
        assert(list.take(n + 1).drop_last() =~= list.take(n));
        missing_stays(area, list, n + 1);
    } else {
        assert(list.take(n) =~= list);
    }
}

fn set_fields(area: &mut Json, list: &Vec<Field>) -> (done: Result<(), &'static str>)
    requires
        forall|i: int| 0 <= i < list@.len() ==> (#[trigger] list@[i]).name@.len() > 0,
    ensures
        match done {
            Ok(_) => with_fields(old(area)@, fields(list@)) == Ok::<Tree, Seq<char>>(
                final(area)@,
            ),
            Err(name) => with_fields(old(area)@, fields(list@)) == Err::<Tree, Seq<char>>(name@),
        },
{
    let ghost start = area@;
    let ghost all = fields(list@);
    let mut i: usize = 0;
    while i < list.len()
        invariant
            i <= list@.len(),
            start == old(area)@,
            all == fields(list@),
            forall|k: int| 0 <= k < list@.len() ==> (#[trigger] list@[k]).name@.len() > 0,
            with_fields(start, all.take(i as int)) == Ok::<Tree, Seq<char>>(area@),
        decreases list@.len() - i,
    {
        let field = list[i];
        proof {
            assert(all.take(i + 1).drop_last() =~= all.take(i as int));
            assert(all.take(i + 1).last() == (field.name@, field.number));
        }
        match area.json_member_mut(field.name) {
            Some(value) => {
                *value = number_json(field.number);
            },
            None => {
                proof {
                    assert(with_fields(start, all.take(i + 1)) == Err::<Tree, Seq<char>>(
                        field.name@,
                    ));
                    missing_stays(start, all, i + 1);
                }
                return Err(field.name);
            },
        }
        i = i + 1;
    }
    assert(all.take(i as int) =~= all);
    Ok(())
}

/// The tablet's or the display's area of a profile.
pub open spec fn profile_area(profile: Tree, area: Seq<char>) -> Option<Tree> {
    match profile.member("AbsoluteModeSettings"@) {
        Some(absolute) => absolute.member(area),
        None => None,
    }
}

/// The profile with one of its areas replaced.
pub open spec fn with_area(profile: Tree, area: Seq<char>, new: Tree) -> Tree {
    profile.with_member(
        "AbsoluteModeSettings"@,
        profile.member("AbsoluteModeSettings"@)->0.with_member(area, new),
    )
}

/// The outcome of editing one area in place.
enum AreaEdit {
    Done,
    NoArea,
    NoField(&'static str),
}

fn edit_area(profile: &mut Json, area: &'static str, list: &Vec<Field>) -> (done: AreaEdit)
    requires
        area@.len() > 0,
        forall|i: int| 0 <= i < list@.len() ==> (#[trigger] list@[i]).name@.len() > 0,
    ensures
        match done {
            AreaEdit::Done => profile_area(old(profile)@, area@) is Some && with_fields(
                profile_area(old(profile)@, area@)->0,
                fields(list@),
            ) is Ok && final(profile)@ == with_area(
                old(profile)@,
                area@,
                with_fields(profile_area(old(profile)@, area@)->0, fields(list@))->Ok_0,
            ),
            AreaEdit::NoArea => profile_area(old(profile)@, area@) is None,
            AreaEdit::NoField(name) => profile_area(old(profile)@, area@) is Some && with_fields(
                profile_area(old(profile)@, area@)->0,
                fields(list@),
            ) == Err::<Tree, Seq<char>>(name@),
        },
{
    proof {
        reveal_strlit("AbsoluteModeSettings");
    }
    match profile.json_member_mut("AbsoluteModeSettings") {
        None => AreaEdit::NoArea,
        Some(absolute) => match absolute.json_member_mut(area) {
            None => AreaEdit::NoArea,
            Some(found) => match set_fields(found, list) {
                Ok(_) => AreaEdit::Done,
                Err(name) => AreaEdit::NoField(name),
            },
        },
    }
}

/// The setting is the frequency of a filter, and has a value.
pub open spec fn takes_frequency(setting: Tree) -> bool {
    profile::is_frequency(setting) && setting.member("Value"@) is Some
}

/// A setting with a new frequency, where it is one.
pub open spec fn with_frequency_value(setting: Tree, frequency: u64) -> Tree {
    if takes_frequency(setting) {
        setting.with_member("Value"@, number_tree(frequency))
    } else {
        setting
    }
}

/// A filter with a new frequency in its settings.
pub open spec fn with_filter_frequency(filter: Tree, frequency: u64) -> Tree {
    match filter.member_items("Settings"@) {
        Some(settings) => filter.with_member(
            "Settings"@,
            Tree::Array(
                settings.map_values(|setting: Tree| with_frequency_value(setting, frequency)),
            ),
        ),
        None => filter,
    }
}

/// A profile with a new frequency in every filter that has one.
pub open spec fn with_frequency(profile: Tree, frequency: u64) -> Tree {
    match profile.member_items("Filters"@) {
        Some(filters) => profile.with_member(
            "Filters"@,
            Tree::Array(
                filters.map_values(|filter: Tree| with_filter_frequency(filter, frequency)),
            ),
        ),
        None => profile,
    }
}

/// One of the filter's settings takes the frequency.
pub open spec fn filter_takes_frequency(filter: Tree) -> bool {
    match filter.member_items("Settings"@) {
        Some(settings) => exists|j: int|
            0 <= j < settings.len() && takes_frequency(#[trigger] settings[j]),
        None => false,
    }
}

/// One of the profile's filters takes the frequency.
pub open spec fn profile_takes_frequency(profile: Tree) -> bool {
    match profile.member_items("Filters"@) {
        Some(filters) => exists|i: int|
            0 <= i < filters.len() && filter_takes_frequency(#[trigger] filters[i]),
        None => false,
    }
}

fn edit_setting(setting: &mut Json, frequency: u64) -> (updated: bool)
    ensures
        updated == takes_frequency(old(setting)@),
        final(setting)@ == with_frequency_value(old(setting)@, frequency),
{
    proof {
        reveal_strlit("Property");
        reveal_strlit("Value");
    }
    if !setting.member_is("Property", "Frequency") {
        return false;
    }
    match setting.json_member_mut("Value") {
        Some(value) => {
            *value = number_json(frequency);
            true
        },
        None => false,
    }
}

fn edit_settings_of_filter(settings: &mut Vec<Json>, frequency: u64) -> (updated: bool)
    ensures
        json::trees(final(settings)@) == json::trees(old(settings)@).map_values(
            |setting: Tree| with_frequency_value(setting, frequency),
        ),
        updated == exists|j: int|
            0 <= j < old(settings)@.len() && takes_frequency(
                #[trigger] json::trees(old(settings)@)[j],
            ),
{
    let ghost before = json::trees(settings@);
    let mut updated = false;
    let mut i: usize = 0;
    while i < settings.len()
        invariant
            i <= settings@.len(),
            settings@.len() == before.len(),
            before == json::trees(old(settings)@),
            forall|k: int|
                0 <= k < i ==> (#[trigger] settings@[k])@ == with_frequency_value(
                    before[k],
                    frequency,
                ),
            forall|k: int| i <= k < before.len() ==> (#[trigger] settings@[k])@ == before[k],
            updated == exists|j: int| 0 <= j < i && takes_frequency(#[trigger] before[j]),
        decreases settings@.len() - i,
    {
        let ghost others = settings@;
        assert(settings@[i as int]@ == before[i as int]);
        if edit_setting(&mut settings[i], frequency) {
            updated = true;
        }
        assert forall|k: int| 0 <= k < before.len() && k != i implies settings@[k]
            == others[k] by {}
        i = i + 1;
    }
    assert(json::trees(settings@) =~= before.map_values(
        |setting: Tree| with_frequency_value(setting, frequency),
    ));
    updated
}

fn edit_filter(filter: &mut Json, frequency: u64) -> (updated: bool)
    ensures
        updated == filter_takes_frequency(old(filter)@),
        final(filter)@ == with_filter_frequency(old(filter)@, frequency),
{
    proof {
        reveal_strlit("Settings");
    }
    match filter.json_member_mut("Settings") {
        Some(member) => match member.as_array_mut() {
            Some(settings) => edit_settings_of_filter(settings, frequency),
            None => {
                proof {
                    unchanged_member(old(filter)@, "Settings"@);
                }
                false
            },
        },
        None => false,
    }
}

/// A member replaced by itself.
proof fn unchanged_member(tree: Tree, name: Seq<char>)
    requires
        tree.member(name) is Some,
    ensures
        tree.with_member(name, tree.member(name)->0) == tree,
{
    let i = tree.member_index(name)->0;
    assert(tree is Object);
    let entries = tree->Object_0;
    assert(0 <= i < entries.len());
    assert(tree.with_member(name, tree.member(name)->0)->Object_0 =~= entries);
}

fn edit_filters(filters: &mut Vec<Json>, frequency: u64) -> (updated: bool)
    ensures
        json::trees(final(filters)@) == json::trees(old(filters)@).map_values(
            |filter: Tree| with_filter_frequency(filter, frequency),
        ),
        updated == exists|j: int|
            0 <= j < old(filters)@.len() && filter_takes_frequency(
                #[trigger] json::trees(old(filters)@)[j],
            ),
{
    let ghost before = json::trees(filters@);
    let mut updated = false;
    let mut i: usize = 0;
    while i < filters.len()
        invariant
            i <= filters@.len(),
            filters@.len() == before.len(),
            before == json::trees(old(filters)@),
            forall|k: int|
                0 <= k < i ==> (#[trigger] filters@[k])@ == with_filter_frequency(
                    before[k],
                    frequency,
                ),
            forall|k: int| i <= k < before.len() ==> (#[trigger] filters@[k])@ == before[k],
            updated == exists|j: int| 0 <= j < i && filter_takes_frequency(#[trigger] before[j]),
        decreases filters@.len() - i,
    {
        let ghost others = filters@;
        assert(filters@[i as int]@ == before[i as int]);
        if edit_filter(&mut filters[i], frequency) {
            updated = true;
        }
        assert forall|k: int| 0 <= k < before.len() && k != i implies filters@[k]
            == others[k] by {}
        i = i + 1;
    }
    assert(json::trees(filters@) =~= before.map_values(
        |filter: Tree| with_filter_frequency(filter, frequency),
    ));
    updated
}

fn edit_frequency(profile: &mut Json, frequency: u64) -> (updated: bool)
    ensures
        updated == profile_takes_frequency(old(profile)@),
        final(profile)@ == with_frequency(old(profile)@, frequency),
{
    proof {
        reveal_strlit("Filters");
    }
    match profile.json_member_mut("Filters") {
        Some(member) => match member.as_array_mut() {
            Some(filters) => edit_filters(filters, frequency),
            None => {
                proof {
                    unchanged_member(old(profile)@, "Filters"@);
                }
                false
            },
        },
        None => false,
    }
}

// ---- the plan ----

/// What is to be sent to the driver, and what it is to be held to.
pub struct Plan {
    /// The driver's settings with the new area.
    pub settings: Tree,
    /// The numbers of the tablet's area.
    pub area: Seq<(Seq<char>, u64)>,
    /// The frequency, where a filter takes it.
    pub frequency: Option<u64>,
    /// The numbers of the display's area, where one is asked for.
    pub display: Option<Seq<(Seq<char>, u64)>>,
}

/// A profile with everything set that a request asks for.
pub open spec fn with_request(profile: Tree, request: Request, readings: Readings) -> Result<
    (Tree, Plan),
    Refusal,
> {
    match profile_area(profile, "Tablet"@) {
        None => Err(Refusal::TabletAreaMissing),
        Some(area) => match area_fields(request, readings) {
            Err(fault) => Err(Refusal::Invalid(fault)),
            Ok(list) => match with_fields(area, list) {
                Err(name) => Err(Refusal::AreaFieldMissing(name)),
                Ok(changed) => match validation::valid_frequency(request.frequency, readings) {
                    Err(fault) => Err(Refusal::Invalid(fault)),
                    Ok(frequency) => with_request_display(
                        with_area(profile, "Tablet"@, changed),
                        request,
                        list,
                        frequency,
                    ),
                },
            },
        },
    }
}

/// The rest of `with_request`: the frequency and the display.
pub open spec fn with_request_display(
    profile: Tree,
    request: Request,
    list: Seq<(Seq<char>, u64)>,
    frequency: u64,
) -> Result<(Tree, Plan), Refusal> {
    let tuned = with_frequency(profile, frequency);
    let kept = if profile_takes_frequency(profile) {
        Some(frequency)
    } else {
        None
    };
    match request.display {
        None => Ok((tuned, Plan { settings: tuned, area: list, frequency: kept, display: None })),
        Some(display) => match profile_area(tuned, "Display"@) {
            None => Err(Refusal::DisplayAreaMissing),
            Some(area) => match with_fields(area, display_fields(display)) {
                Err(name) => Err(Refusal::DisplayFieldMissing(name)),
                Ok(changed) => {
                    let shown = with_area(tuned, "Display"@, changed);
                    Ok(
                        (
                            shown,
                            Plan {
                                settings: shown,
                                area: list,
                                frequency: kept,
                                display: Some(display_fields(display)),
                            },
                        ),
                    )
                },
            },
        },
    }
}

/// The driver's settings with everything set that a request asks for.
pub open spec fn planned(settings: Tree, request: Request, readings: Readings) -> Result<
    Plan,
    Refusal,
> {
    match settings.member_items("Profiles"@) {
        None => Err(Refusal::ProfilesMissing),
        Some(profiles) => match profile::profile_index(profiles, request.tablet_name, 0) {
            None => Err(Refusal::TabletProfileMissing),
            Some(i) => match with_request(profiles[i], request, readings) {
                Err(refusal) => Err(refusal),
                Ok((profile, plan)) => Ok(
                    Plan {
                        settings: settings.with_member(
                            "Profiles"@,
                            Tree::Array(profiles.update(i, profile)),
                        ),
                        ..plan
                    },
                ),
            },
        },
    }
}

/// What is to be sent to the driver, and what it is to be held to.
#[derive(Debug)]
pub struct PlannedArea {
    pub settings: Json,
    pub area: Vec<Field>,
    pub frequency: Option<u64>,
    pub display: Option<Vec<Field>>,
}

impl PlannedArea {
    /// The names of the fields are names.
    pub open spec fn well_named(self) -> bool {
        &&& forall|i: int| 0 <= i < self.area@.len() ==> (#[trigger] self.area@[i]).name@.len() > 0
        &&& self.display matches Some(list) ==> forall|i: int|
            0 <= i < list@.len() ==> (#[trigger] list@[i]).name@.len() > 0
    }
}

impl View for PlannedArea {
    type V = Plan;

    open spec fn view(&self) -> Plan {
        Plan {
            settings: self.settings@,
            area: fields(self.area@),
            frequency: self.frequency,
            display: match self.display {
                Some(list) => Some(fields(list@)),
                None => None,
            },
        }
    }
}

/// The parts of a plan but for the settings.
struct EditedProfile {
    area: Vec<Field>,
    frequency: Option<u64>,
    display: Option<Vec<Field>>,
}

fn edit_profile(profile: &mut Json, request: &AreaRequest, readings: &Readings) -> (edited: Result<
    EditedProfile,
    ApplyError,
>)
    ensures
        match edited {
            Ok(parts) => with_request(old(profile)@, request@, *readings) is Ok && {
                let (tree, plan) = with_request(old(profile)@, request@, *readings)->Ok_0;
                &&& final(profile)@ == tree
                &&& plan.area == fields(parts.area@)
                &&& plan.frequency == parts.frequency
                &&& plan.display == match parts.display {
                    Some(list) => Some(fields(list@)),
                    None => None,
                }
                &&& forall|i: int|
                    0 <= i < parts.area@.len() ==> (#[trigger] parts.area@[i]).name@.len() > 0
                &&& parts.display matches Some(list) ==> forall|i: int|
                    0 <= i < list@.len() ==> (#[trigger] list@[i]).name@.len() > 0
            },
            Err(error) => with_request(old(profile)@, request@, *readings) == Err::<
                (Tree, Plan),
                Refusal,
            >(error@),
        },
{
    proof {
        reveal_strlit("Tablet");
        reveal_strlit("Display");
        reveal_strlit("AbsoluteModeSettings");
    }
    let has_area = match profile.json_member("AbsoluteModeSettings") {
        Some(absolute) => absolute.json_member("Tablet").is_some(),
        None => false,
    };
    if !has_area {
        return Err(ApplyError::TabletAreaMissing);
    }
    let area = match requested_area(request, readings) {
        Ok(list) => list,
        Err(error) => return Err(ApplyError::Invalid(error)),
    };
    proof {
        names_are_names();
        assert forall|i: int| 0 <= i < area@.len() implies (#[trigger] area@[i]).name@.len()
            > 0 by {
            assert(fields(area@)[i].0 == area@[i].name@);
        }
    }
    match edit_area(profile, "Tablet", &area) {
        AreaEdit::Done => {},
        AreaEdit::NoArea => return Err(ApplyError::TabletAreaMissing),
        AreaEdit::NoField(name) => return Err(ApplyError::AreaFieldMissing(name)),
    }
    let frequency = match validation::frequency(request.frequency.as_str(), readings) {
        Ok(number) => number,
        Err(error) => return Err(ApplyError::Invalid(error)),
    };
    let kept = if edit_frequency(profile, frequency) {
        Some(frequency)
    } else {
        None
    };
    match &request.display {
        None => Ok(EditedProfile { area, frequency: kept, display: None }),
        Some(display) => {
            let list = requested_display(display);
            proof {
                assert forall|i: int| 0 <= i < list@.len() implies (#[trigger] list@[i]).name@.len()
                    > 0 by {
                    assert(fields(list@)[i].0 == list@[i].name@);
                }
            }
            match edit_area(profile, "Display", &list) {
                AreaEdit::Done => Ok(
                    EditedProfile { area, frequency: kept, display: Some(list) },
                ),
                AreaEdit::NoArea => Err(ApplyError::DisplayAreaMissing),
                AreaEdit::NoField(name) => Err(ApplyError::DisplayFieldMissing(name)),
            }
        },
    }
}

proof fn names_are_names()
    ensures
        "Width"@.len() > 0,
        "Height"@.len() > 0,
        "X"@.len() > 0,
        "Y"@.len() > 0,
        "Rotation"@.len() > 0,
{
    reveal_strlit("Width");
    reveal_strlit("Height");
    reveal_strlit("X");
    reveal_strlit("Y");
    reveal_strlit("Rotation");
}

/// Plans a new area: the driver's settings as they are to be, or why they cannot be.
pub fn plan_area(settings: &Json, request: &AreaRequest, readings: &Readings) -> (plan: Result<
    PlannedArea,
    ApplyError,
>)
    ensures
        match plan {
            Ok(p) => planned(settings@, request@, *readings) == Ok::<Plan, Refusal>(p@)
                && p.well_named(),
            Err(error) => planned(settings@, request@, *readings) == Err::<Plan, Refusal>(error@),
        },
{
    proof {
        reveal_strlit("Profiles");
    }
    let mut edited = settings.copy();
    let outcome = match edited.json_member_mut("Profiles") {
        None => Err(ApplyError::ProfilesMissing),
        Some(member) => match member.as_array_mut() {
            None => Err(ApplyError::ProfilesMissing),
            Some(profiles) => {
                let ghost before = json::trees(profiles@);
                match profile::find_profile(profiles, request.tablet_name.as_str()) {
                    None => Err(ApplyError::TabletProfileMissing),
                    Some(i) => {
                        let ghost others = profiles@;
                        assert(before[i as int] == profiles@[i as int]@);
                        let outcome = edit_profile(&mut profiles[i], request, readings);
                        assert(json::trees(profiles@) =~= before.update(
                            i as int,
                            profiles@[i as int]@,
                        ));
                        outcome
                    },
                }
            },
        },
    };
    match outcome {
        Ok(parts) => Ok(
            PlannedArea {
                settings: edited,
                area: parts.area,
                frequency: parts.frequency,
                display: parts.display,
            },
        ),
        Err(error) => Err(error),
    }
}

/// How an application starts.
#[derive(Debug)]
pub enum ApplyStart {
    /// The driver's settings are so already: there is nothing to send, but what the driver
    /// has is still to be read.
    Read(PlannedArea),
    /// The driver is to be sent these settings.
    Send(PlannedArea),
}

/// Plans a new area, and finds out whether there is anything to send.
pub fn begin_apply(settings: &Json, request: &AreaRequest, readings: &Readings) -> (start: Result<
    ApplyStart,
    ApplyError,
>)
    ensures
        match planned(settings@, request@, *readings) {
            Ok(plan) => match start {
                Ok(ApplyStart::Read(p)) => json::same_tree(plan.settings, settings@) && p@ == plan
                    && p.well_named(),
                Ok(ApplyStart::Send(p)) => !json::same_tree(plan.settings, settings@) && p@ == plan
                    && p.well_named(),
                Err(_) => false,
            },
            Err(refusal) => start is Err && start->Err_0@ == refusal,
        },
{
    match plan_area(settings, request, readings) {
        Ok(plan) => if plan.settings.same(settings) {
            Ok(ApplyStart::Read(plan))
        } else {
            Ok(ApplyStart::Send(plan))
        },
        Err(error) => Err(error),
    }
}

// ---- confirmation ----

/// Two numbers differ by less than a limit, in binary64 arithmetic.
pub open spec fn close_to(actual: u64, expected: u64, limit: u64) -> bool {
    binary::below64(binary::absolute64(binary::difference64(actual, expected)), limit)
}

/// A member is a number close to the expected one.
pub open spec fn field_matches(area: Tree, name: Seq<char>, expected: u64, limit: u64) -> bool {
    match area.member_number(name) {
        Some(number) => close_to(number.as_double(), expected, limit),
        None => false,
    }
}

/// All the members are numbers close to the expected ones.
pub open spec fn fields_match(area: Tree, list: Seq<(Seq<char>, u64)>, limit: u64) -> bool {
    forall|i: int|
        0 <= i < list.len() ==> field_matches(area, (#[trigger] list[i]).0, list[i].1, limit)
}

/// The frequency that a profile shows is close to the expected one.
pub open spec fn frequency_matches(profile: Tree, expected: u64, readings: Readings) -> bool {
    match readings.double_of(profile::profile_frequency(profile)) {
        Some(actual) => close_to(actual, expected, HALF),
        None => false,
    }
}

/// The settings that were read back have everything that was planned for the tablet.
pub open spec fn confirms(
    readback: Tree,
    tablet: Seq<char>,
    plan: Plan,
    readings: Readings,
) -> bool {
    match profile::tablet_profile(readback, tablet) {
        None => false,
        Some(profile) => match profile_area(profile, "Tablet"@) {
            None => false,
            Some(area) => {
                &&& fields_match(area, plan.area, AREA_TOLERANCE)
                &&& plan.display matches Some(list) ==> match profile_area(profile, "Display"@) {
                    Some(shown) => fields_match(shown, list, HALF),
                    None => false,
                }
                &&& plan.frequency matches Some(expected) ==> frequency_matches(
                    profile,
                    expected,
                    readings,
                )
            },
        },
    }
}

/// The area that the driver has, by the settings that were read back.
pub open spec fn actual_area(readback: Tree, request: Request) -> Request {
    let profile = profile::tablet_profile(readback, request.tablet_name)->0;
    let area = profile_area(profile, "Tablet"@)->0;
    Request {
        tablet_name: request.tablet_name,
        width: area.number_text("Width"@),
        height: area.number_text("Height"@),
        x: area.number_text("X"@),
        y: area.number_text("Y"@),
        rotation: area.number_text("Rotation"@),
        frequency: profile::profile_frequency(profile),
        display: request.display,
    }
}

fn all_close(area: &Json, list: &Vec<Field>, limit: u64) -> (all: bool)
    requires
        forall|i: int| 0 <= i < list@.len() ==> (#[trigger] list@[i]).name@.len() > 0,
    ensures
        all == fields_match(area@, fields(list@), limit),
{
    let ghost wanted = fields(list@);
    let mut i: usize = 0;
    while i < list.len()
        invariant
            i <= list@.len(),
            wanted == fields(list@),
            forall|k: int| 0 <= k < list@.len() ==> (#[trigger] list@[k]).name@.len() > 0,
            forall|k: int|
                0 <= k < i ==> field_matches(
                    area@,
                    (#[trigger] wanted[k]).0,
                    wanted[k].1,
                    limit,
                ),
        decreases list@.len() - i,
    {
        let field = list[i];
        assert(wanted[i as int] == (field.name@, field.number));
        let close = match area.json_number(field.name) {
            Some(actual) => binary::lt64(binary::abs64(binary::sub64(actual, field.number)), limit),
            None => false,
        };
        if !close {
            assert(!field_matches(area@, wanted[i as int].0, wanted[i as int].1, limit));
            return false;
        }
        i = i + 1;
    }
    true
}

/// The text of the frequency in settings that were read back, to be read as a number.
pub fn frequency_shown(readback: &Json, tablet: &str) -> (text: Option<String>)
    ensures
        match text {
            Some(t) => profile::tablet_profile(readback@, tablet@) is Some && t@
                == profile::profile_frequency(profile::tablet_profile(readback@, tablet@)->0),
            None => profile::tablet_profile(readback@, tablet@) is None,
        },
{
    match profile::settings_for_tablet(readback, tablet) {
        Some(found) => Some(profile::filter_frequency(found)),
        None => None,
    }
}

/// Holds the settings that were read back to the plan. The area that the driver has comes
/// back where it has everything that was planned.
pub fn confirm(plan: &PlannedArea, request: &AreaRequest, readback: &Json, readings: &Readings) -> (
    actual: Option<AreaRequest>)
    requires
        plan.well_named(),
    ensures
        match actual {
            Some(area) => confirms(readback@, request.tablet_name@, plan@, *readings) && area@
                == actual_area(readback@, request@),
            None => !confirms(readback@, request.tablet_name@, plan@, *readings),
        },
{
    proof {
        reveal_strlit("AbsoluteModeSettings");
        reveal_strlit("Tablet");
        reveal_strlit("Display");
        names_are_names();
    }
    let found = match profile::settings_for_tablet(readback, request.tablet_name.as_str()) {
        Some(found) => found,
        None => return None,
    };
    let absolute = match found.json_member("AbsoluteModeSettings") {
        Some(absolute) => absolute,
        None => return None,
    };
    let area = match absolute.json_member("Tablet") {
        Some(area) => area,
        None => return None,
    };
    let tablet_matches = all_close(area, &plan.area, AREA_TOLERANCE);
    let display_matches = match &plan.display {
        None => true,
        Some(list) => match absolute.json_member("Display") {
            Some(shown) => all_close(shown, list, HALF),
            None => false,
        },
    };
    let shown = profile::filter_frequency(found);
    let frequency_matches = match plan.frequency {
        None => true,
        Some(expected) => match readings.double(shown.as_str()) {
            Some(actual) => binary::lt64(binary::abs64(binary::sub64(actual, expected)), HALF),
            None => false,
        },
    };
    if tablet_matches && display_matches && frequency_matches {
        Some(
            AreaRequest {
                tablet_name: request.tablet_name.clone(),
                width: area.json_number_string("Width"),
                height: area.json_number_string("Height"),
                x: area.json_number_string("X"),
                y: area.json_number_string("Y"),
                rotation: area.json_number_string("Rotation"),
                frequency: shown,
                display: models::copy_display(&request.display),
            },
        )
    } else {
        None
    }
}

/// What follows one reading of the driver's settings.
#[derive(Debug)]
pub enum ConfirmStep {
    /// The driver has this area.
    Confirmed(AreaRequest),
    /// Pause, and read again.
    ReadAgain,
    /// The driver did not confirm the requested area.
    TimedOut,
}

/// An application that waits for the driver to confirm it.
#[derive(Debug)]
pub struct Confirmation {
    pub plan: PlannedArea,
    pub request: AreaRequest,
    /// How many readings there were.
    pub rounds: u32,
}

impl Confirmation {
    /// Before the first reading.
    pub fn new(plan: PlannedArea, request: AreaRequest) -> (waiting: Confirmation)
        ensures
            waiting.plan == plan,
            waiting.request == request,
            waiting.rounds == 0,
    {
        Confirmation { plan, request, rounds: 0 }
    }

    /// The settings that were read confirm the area.
    pub open spec fn confirmed_by(self, readback: Option<Tree>, readings: Readings) -> bool {
        match readback {
            Some(tree) => confirms(tree, self.request.tablet_name@, self.plan@, readings),
            None => false,
        }
    }

    /// Takes one reading of the driver's settings; there is none where the call failed.
    pub fn on_readback(&mut self, readback: Option<&Json>, readings: &Readings) -> (
        step: ConfirmStep)
        requires
            old(self).plan.well_named(),
            old(self).rounds < CONFIRM_ROUNDS,
        ensures
            final(self).plan == old(self).plan,
            final(self).request == old(self).request,
            final(self).rounds == old(self).rounds + 1,
            ({
                let tree = match readback {
                    Some(json) => Some(json@),
                    None => None,
                };
                match step {
                    ConfirmStep::Confirmed(actual) => old(self).confirmed_by(tree, *readings)
                        && actual@ == actual_area(tree->0, old(self).request@),
                    ConfirmStep::ReadAgain => !old(self).confirmed_by(tree, *readings)
                        && final(self).rounds < CONFIRM_ROUNDS,
                    ConfirmStep::TimedOut => !old(self).confirmed_by(tree, *readings)
                        && final(self).rounds == CONFIRM_ROUNDS,
                }
            }),
    {
        self.rounds = self.rounds + 1;
        match readback {
            Some(json) => match confirm(&self.plan, &self.request, json, readings) {
                Some(actual) => return ConfirmStep::Confirmed(actual),
                None => {},
            },
            None => {},
        }
        if self.rounds < CONFIRM_ROUNDS {
            ConfirmStep::ReadAgain
        } else {
            ConfirmStep::TimedOut
        }
    }
}

// ---- the application of an area, from its start to its end ----

/// How an application starts.
#[derive(Debug)]
pub enum ApplyBegin {
    /// The area cannot be applied.
    Refused(ApplyError),
    /// Send the driver these settings first.
    Send(Application, Json),
    /// The driver's settings are so already, as far as is known: pause, and read them.
    Read(Application),
}

/// What an application waits for.
#[derive(Debug)]
pub enum ApplyPhase {
    /// Whether the driver took the settings.
    Sending,
    /// The driver's settings.
    Reading,
    /// Whether the settings were kept for the driver's next start.
    Persisting { actual: AreaRequest, settings: Json },
    /// Nothing more.
    Over,
}

/// An application that runs.
#[derive(Debug)]
pub struct Application {
    pub phase: ApplyPhase,
    pub waiting: Confirmation,
}

/// How what was asked for went.
#[derive(Debug)]
pub enum ApplyEvent {
    Sent(bool),
    /// The driver's settings, where the driver answered.
    Read(Option<Json>),
    Persisted(bool),
}

/// What to do next.
#[derive(Debug)]
pub enum ApplyAction {
    /// Pause, and read the driver's settings.
    Read,
    /// Keep these settings for the driver's next start.
    Persist(Json),
    /// The driver has this area, and these settings.
    Finish(AreaRequest, Json),
    /// What was asked for last failed, and the application with it.
    Fail,
    /// The driver did not confirm the requested area.
    TimeOut,
}

/// What an application waits for.
pub enum ApplyStage {
    Sending,
    Reading,
    Persisting { actual: Request, settings: Tree },
    Over,
}

/// An application that runs.
pub struct ApplyModel {
    pub stage: ApplyStage,
    pub plan: Plan,
    pub request: Request,
    pub rounds: int,
}

/// How what was asked for went.
pub enum ApplyNews {
    Sent(bool),
    Read(Option<Tree>),
    Persisted(bool),
}

/// What to do next.
pub enum ApplyDeed {
    Read,
    Persist(Tree),
    Finish(Request, Tree),
    Fail,
    TimeOut,
}

impl View for ApplyEvent {
    type V = ApplyNews;

    open spec fn view(&self) -> ApplyNews {
        match self {
            ApplyEvent::Sent(sent) => ApplyNews::Sent(*sent),
            ApplyEvent::Read(Some(settings)) => ApplyNews::Read(Some(settings@)),
            ApplyEvent::Read(None) => ApplyNews::Read(None),
            ApplyEvent::Persisted(kept) => ApplyNews::Persisted(*kept),
        }
    }
}

impl View for ApplyAction {
    type V = ApplyDeed;

    open spec fn view(&self) -> ApplyDeed {
        match self {
            ApplyAction::Read => ApplyDeed::Read,
            ApplyAction::Persist(settings) => ApplyDeed::Persist(settings@),
            ApplyAction::Finish(area, settings) => ApplyDeed::Finish(area@, settings@),
            ApplyAction::Fail => ApplyDeed::Fail,
            ApplyAction::TimeOut => ApplyDeed::TimeOut,
        }
    }
}

impl View for Application {
    type V = ApplyModel;

    open spec fn view(&self) -> ApplyModel {
        ApplyModel {
            stage: match self.phase {
                ApplyPhase::Sending => ApplyStage::Sending,
                ApplyPhase::Reading => ApplyStage::Reading,
                ApplyPhase::Persisting { actual, settings } => ApplyStage::Persisting {
                    actual: actual@,
                    settings: settings@,
                },
                ApplyPhase::Over => ApplyStage::Over,
            },
            plan: self.waiting.plan@,
            request: self.waiting.request@,
            rounds: self.waiting.rounds as int,
        }
    }
}

impl ApplyModel {
    /// Before the driver was sent anything.
    pub open spec fn initial(plan: Plan, request: Request) -> ApplyModel {
        ApplyModel { stage: ApplyStage::Sending, plan, request, rounds: 0 }
    }

    /// Before anything was read, where there is nothing to send.
    pub open spec fn unsent(plan: Plan, request: Request) -> ApplyModel {
        ApplyModel { stage: ApplyStage::Reading, plan, request, rounds: 0 }
    }

    /// The event is one that the application waits for.
    pub open spec fn awaits(self, event: ApplyNews) -> bool {
        match self.stage {
            ApplyStage::Sending => event is Sent,
            ApplyStage::Reading => event is Read,
            ApplyStage::Persisting { .. } => event is Persisted,
            ApplyStage::Over => false,
        }
    }

    /// The application is over.
    pub open spec fn over(self) -> ApplyModel {
        ApplyModel { stage: ApplyStage::Over, ..self }
    }

    /// The step after an event.
    pub open spec fn after(self, event: ApplyNews, readings: Readings) -> (ApplyModel, ApplyDeed) {
        match (self.stage, event) {
            (ApplyStage::Sending, ApplyNews::Sent(true)) => (
                ApplyModel { stage: ApplyStage::Reading, ..self },
                ApplyDeed::Read,
            ),
            (ApplyStage::Reading, ApplyNews::Read(read)) => {
                let next = ApplyModel { rounds: self.rounds + 1, ..self };
                match read {
                    Some(tree) if confirms(
                        tree,
                        self.request.tablet_name,
                        self.plan,
                        readings,
                    ) => (
                        ApplyModel {
                            stage: ApplyStage::Persisting {
                                actual: actual_area(tree, self.request),
                                settings: tree,
                            },
                            ..next
                        },
                        ApplyDeed::Persist(tree),
                    ),
                    _ => if next.rounds < CONFIRM_ROUNDS {
                        (next, ApplyDeed::Read)
                    } else {
                        (next.over(), ApplyDeed::TimeOut)
                    },
                }
            },
            (ApplyStage::Persisting { actual, settings }, ApplyNews::Persisted(true)) => (
                self.over(),
                ApplyDeed::Finish(actual, settings),
            ),
            _ => (self.over(), ApplyDeed::Fail),
        }
    }
}

/// Starts to apply an area to the driver's settings. Also where nothing is to be sent, the
/// area is reported only once the driver was read.
pub fn apply_area(settings: &Json, request: AreaRequest, readings: &Readings) -> (begin: ApplyBegin)
    ensures
        match planned(settings@, request@, *readings) {
            Err(refusal) => begin matches ApplyBegin::Refused(error) && error@ == refusal,
            Ok(plan) => if json::same_tree(plan.settings, settings@) {
                begin matches ApplyBegin::Read(application) && application@
                    == ApplyModel::unsent(plan, request@) && application.sound()
            } else {
                begin matches ApplyBegin::Send(application, sent) && sent@ == plan.settings
                    && application@ == ApplyModel::initial(plan, request@)
                    && application.sound()
            },
        },
{
    match begin_apply(settings, &request, readings) {
        Err(error) => ApplyBegin::Refused(error),
        Ok(ApplyStart::Read(plan)) => ApplyBegin::Read(
            Application {
                phase: ApplyPhase::Reading,
                waiting: Confirmation::new(plan, request),
            },
        ),
        Ok(ApplyStart::Send(plan)) => {
            let sent = plan.settings.copy();
            ApplyBegin::Send(
                Application {
                    phase: ApplyPhase::Sending,
                    waiting: Confirmation::new(plan, request),
                },
                sent,
            )
        },
    }
}

impl Application {
    /// What holds of an application at all times.
    pub open spec fn sound(self) -> bool {
        &&& self.waiting.plan.well_named()
        &&& self.waiting.rounds <= CONFIRM_ROUNDS
        &&& self.phase is Sending || self.phase is Reading ==> self.waiting.rounds
            < CONFIRM_ROUNDS
    }

    fn on_settings(&mut self, read: Option<Json>, readings: &Readings) -> (action: ApplyAction)
        requires
            old(self).sound(),
            old(self).phase is Reading,
        ensures
            (final(self)@, action@) == old(self)@.after(
                ApplyNews::Read(
                    match read {
                        Some(json) => Some(json@),
                        None => None,
                    },
                ),
                *readings,
            ),
            final(self).sound(),
    {
        match self.waiting.on_readback(read.as_ref(), readings) {
            ConfirmStep::Confirmed(actual) => match read {
                Some(settings) => {
                    let kept = settings.copy();
                    self.phase = ApplyPhase::Persisting { actual, settings };
                    ApplyAction::Persist(kept)
                },
                None => ApplyAction::Fail,
            },
            ConfirmStep::ReadAgain => ApplyAction::Read,
            ConfirmStep::TimedOut => {
                self.phase = ApplyPhase::Over;
                ApplyAction::TimeOut
            },
        }
    }

    /// Takes what happened, and says what to do next.
    pub fn step(&mut self, event: ApplyEvent, readings: &Readings) -> (action: ApplyAction)
        requires
            old(self).sound(),
            old(self)@.awaits(event@),
        ensures
            (final(self)@, action@) == old(self)@.after(event@, *readings),
            final(self).sound(),
    {
        match event {
            ApplyEvent::Sent(sent) => {
                if sent {
                    self.phase = ApplyPhase::Reading;
                    ApplyAction::Read
                } else {
                    self.phase = ApplyPhase::Over;
                    ApplyAction::Fail
                }
            },
            ApplyEvent::Read(read) => self.on_settings(read, readings),
            ApplyEvent::Persisted(kept) => {
                let mut phase = ApplyPhase::Over;
                std::mem::swap(&mut phase, &mut self.phase);
                match phase {
                    ApplyPhase::Persisting { actual, settings } => if kept {
                        ApplyAction::Finish(actual, settings)
                    } else {
                        ApplyAction::Fail
                    },
                    _ => ApplyAction::Fail,
                }
            },
        }
    }
}

// ---- laws ----

/// The names of an area's and a profile's members are apart from one another.
proof fn names_are_apart()
    ensures
        json::apart("Width"@, "Height"@),
        json::apart("Width"@, "X"@),
        json::apart("Width"@, "Y"@),
        json::apart("Width"@, "Rotation"@),
        json::apart("Height"@, "Width"@),
        json::apart("Height"@, "X"@),
        json::apart("Height"@, "Y"@),
        json::apart("Height"@, "Rotation"@),
        json::apart("X"@, "Width"@),
        json::apart("X"@, "Height"@),
        json::apart("X"@, "Y"@),
        json::apart("X"@, "Rotation"@),
        json::apart("Y"@, "Width"@),
        json::apart("Y"@, "Height"@),
        json::apart("Y"@, "X"@),
        json::apart("Y"@, "Rotation"@),
        json::apart("Rotation"@, "Width"@),
        json::apart("Rotation"@, "Height"@),
        json::apart("Rotation"@, "X"@),
        json::apart("Rotation"@, "Y"@),
        json::apart("AbsoluteModeSettings"@, "Tablet"@),
        json::apart("AbsoluteModeSettings"@, "Filters"@),
        json::apart("Filters"@, "AbsoluteModeSettings"@),
        json::apart("Filters"@, "Tablet"@),
        json::apart("Tablet"@, "Display"@),
        json::apart("Display"@, "Tablet"@),
{
    reveal_strlit("Width");
    reveal_strlit("Height");
    reveal_strlit("X");
    reveal_strlit("Y");
    reveal_strlit("Rotation");
    reveal_strlit("AbsoluteModeSettings");
    reveal_strlit("Tablet");
    reveal_strlit("Filters");
    reveal_strlit("Display");
    first_letters("Width"@, "Height"@);
    first_letters("Width"@, "X"@);
    first_letters("Width"@, "Y"@);
    first_letters("Width"@, "Rotation"@);
    first_letters("Height"@, "X"@);
    first_letters("Height"@, "Y"@);
    first_letters("Height"@, "Rotation"@);
    first_letters("X"@, "Y"@);
    first_letters("X"@, "Rotation"@);
    first_letters("Y"@, "Rotation"@);
    first_letters("AbsoluteModeSettings"@, "Tablet"@);
    first_letters("AbsoluteModeSettings"@, "Filters"@);
    first_letters("Filters"@, "Tablet"@);
    first_letters("Tablet"@, "Display"@);
}

/// Names with different first letters are apart.
proof fn first_letters(a: Seq<char>, b: Seq<char>)
    requires
        a.len() > 0,
        b.len() > 0,
        'A' <= a[0] <= 'Z',
        'A' <= b[0] <= 'Z',
        a[0] != b[0],
    ensures
        json::apart(a, b),
        json::apart(b, a),
{
    let x = text::lower_first(a);
    let y = text::lower_first(b);
    assert(x[0] == text::ascii_lower(a[0]));
    assert(y[0] == text::ascii_lower(b[0]));
}

/// The names in a list are apart from one another.
pub open spec fn names_apart(list: Seq<(Seq<char>, u64)>) -> bool {
    forall|i: int, k: int|
        0 <= i < list.len() && 0 <= k < list.len() && i != k ==> json::apart(
            (#[trigger] list[i]).0,
            (#[trigger] list[k]).0,
        )
}

/// Every member that was set has the number that it was set to.
proof fn fields_are_set(area: Tree, list: Seq<(Seq<char>, u64)>)
    requires
        with_fields(area, list) is Ok,
        names_apart(list),
    ensures
        forall|i: int|
            0 <= i < list.len() ==> with_fields(area, list)->Ok_0.member((#[trigger] list[i]).0)
                == Some(number_tree(list[i].1)),
    decreases list.len(),
{
    if list.len() > 0 {
        let shorter = list.drop_last();
        assert forall|i: int, k: int|
            0 <= i < shorter.len() && 0 <= k < shorter.len() && i != k implies json::apart(
            (#[trigger] shorter[i]).0,
            (#[trigger] shorter[k]).0,
        ) by {
            assert(shorter[i] == list[i] && shorter[k] == list[k]);
        }
        fields_are_set(area, shorter);
        let before = with_fields(area, shorter)->Ok_0;
        let last = list.last();
        let new = number_tree(last.1);
        assert forall|i: int| 0 <= i < list.len() implies before.with_member(last.0, new).member(
            (#[trigger] list[i]).0,
        ) == Some(number_tree(list[i].1)) by {
            json::one_member_changes(before, last.0, new, list[i].0);
            if i < shorter.len() {
                assert(shorter[i] == list[i]);
                assert(json::apart(list[list.len() - 1].0, list[i].0));
            }
        }
    }
}

/// A number is close to itself.
proof fn close_to_itself(bits: u64, limit: u64)
    requires
        binary::is_finite64(bits),
        limit == AREA_TOLERANCE || limit == HALF,
    ensures
        close_to(bits, bits, limit),
{
    reveal(binary::difference64);
    assert(binary::difference64(bits, bits) == 0);
}

/// Members that were set to finite numbers match them.
proof fn set_fields_match(area: Tree, list: Seq<(Seq<char>, u64)>, limit: u64)
    requires
        with_fields(area, list) is Ok,
        names_apart(list),
        forall|i: int| 0 <= i < list.len() ==> binary::is_finite64((#[trigger] list[i]).1),
        limit == AREA_TOLERANCE || limit == HALF,
    ensures
        fields_match(with_fields(area, list)->Ok_0, list, limit),
{
    fields_are_set(area, list);
    assert forall|i: int| 0 <= i < list.len() implies field_matches(
        with_fields(area, list)->Ok_0,
        (#[trigger] list[i]).0,
        list[i].1,
        limit,
    ) by {
        close_to_itself(list[i].1, limit);
    }
}

/// What `with_request` leaves of a profile: its tablet, and the areas that it sets.
proof fn requested_profile(profile: Tree, request: Request, readings: Readings)
    requires
        with_request(profile, request, readings) is Ok,
    ensures
        ({
            let (tree, plan) = with_request(profile, request, readings)->Ok_0;
            let area = profile_area(profile, "Tablet"@)->0;
            &&& tree.member("Tablet"@) == profile.member("Tablet"@)
            &&& profile_area(tree, "Tablet"@) == Some(with_fields(area, plan.area)->Ok_0)
            &&& with_fields(area, plan.area) is Ok
            &&& plan.area == area_fields(request, readings)->Ok_0
            &&& area_fields(request, readings) is Ok
            &&& request.display matches Some(display) ==> {
                let shown = profile_area(profile, "Display"@);
                &&& shown is Some
                &&& plan.display == Some(display_fields(display))
                &&& with_fields(shown->0, display_fields(display)) is Ok
                &&& profile_area(tree, "Display"@) == Some(
                    with_fields(shown->0, display_fields(display))->Ok_0,
                )
            }
            &&& request.display is None ==> plan.display is None && profile_area(
                tree,
                "Display"@,
            ) == profile_area(profile, "Display"@)
        }),
{
    names_are_apart();
    let absolute = profile.member("AbsoluteModeSettings"@)->0;
    let area = absolute.member("Tablet"@)->0;
    let list = area_fields(request, readings)->Ok_0;
    let changed = with_fields(area, list)->Ok_0;
    let frequency = validation::valid_frequency(request.frequency, readings)->Ok_0;
    let absolute1 = absolute.with_member("Tablet"@, changed);
    let first = with_area(profile, "Tablet"@, changed);
    json::one_member_changes(absolute, "Tablet"@, changed, "Display"@);
    json::one_member_changes(profile, "AbsoluteModeSettings"@, absolute1, "Tablet"@);
    json::one_member_changes(profile, "AbsoluteModeSettings"@, absolute1, "Filters"@);
    let tuned = with_frequency(first, frequency);
    if first.member_items("Filters"@) is Some {
        let filters = Tree::Array(
            first.member_items("Filters"@)->0.map_values(
                |filter: Tree| with_filter_frequency(filter, frequency),
            ),
        );
        json::one_member_changes(first, "Filters"@, filters, "AbsoluteModeSettings"@);
        json::one_member_changes(first, "Filters"@, filters, "Tablet"@);
    }
    assert(tuned.member("AbsoluteModeSettings"@) == Some(absolute1));
    if request.display is Some {
        let display = request.display->0;
        let shown = absolute1.member("Display"@)->0;
        let moved = with_fields(shown, display_fields(display))->Ok_0;
        let absolute2 = absolute1.with_member("Display"@, moved);
        json::one_member_changes(absolute1, "Display"@, moved, "Tablet"@);
        json::one_member_changes(tuned, "AbsoluteModeSettings"@, absolute2, "Tablet"@);
    }
}

/// The first profile of a tablet is still its first one after a change that keeps its name.
proof fn profile_stays(
    profiles: Seq<Tree>,
    tablet: Seq<char>,
    i: int,
    new: Tree,
    from: int,
)
    requires
        0 <= from,
        profile::profile_index(profiles, tablet, from) == Some(i),
        new.member("Tablet"@) == profiles[i].member("Tablet"@),
    ensures
        from <= i < profiles.len(),
        profile::profile_index(profiles.update(i, new), tablet, from) == Some(i),
    decreases profiles.len() - from,
{
    if profiles[from].member_text("Tablet"@) != Some(tablet) {
        profile_stays(profiles, tablet, i, new, from + 1);
        assert(profiles.update(i, new)[from] == profiles[from]);
    }
}

/// The settings that are sent hold the profile that the request asks for, and the members of
/// the settings but for the profiles, and the other profiles, stay as they were.
pub proof fn one_profile_changes(settings: Tree, request: Request, readings: Readings)
    requires
        planned(settings, request, readings) is Ok,
    ensures
        ({
            let sent = planned(settings, request, readings)->Ok_0.settings;
            let before = settings.member_items("Profiles"@)->0;
            let after = sent.member_items("Profiles"@)->0;
            let i = profile::profile_index(before, request.tablet_name, 0)->0;
            &&& sent.member_items("Profiles"@) is Some
            &&& after == before.update(i, after[i])
            &&& 0 <= i < before.len()
            &&& profile::tablet_profile(sent, request.tablet_name) == Some(after[i])
            &&& after[i] == with_request(before[i], request, readings)->Ok_0.0
        }),
        forall|other: Seq<char>|
            json::apart("Profiles"@, other) ==> #[trigger] planned(
                settings,
                request,
                readings,
            )->Ok_0.settings.member(other) == settings.member(other),
{
    let before = settings.member_items("Profiles"@)->0;
    let i = profile::profile_index(before, request.tablet_name, 0)->0;
    let (tree, plan) = with_request(before[i], request, readings)->Ok_0;
    requested_profile(before[i], request, readings);
    profile_stays(before, request.tablet_name, i, tree, 0);
    let new = Tree::Array(before.update(i, tree));
    json::one_member_changes(settings, "Profiles"@, new, "Profiles"@);
    assert(before.update(i, tree) =~= before.update(i, before.update(i, tree)[i]));
    assert forall|other: Seq<char>| json::apart("Profiles"@, other) implies #[trigger] planned(
        settings,
        request,
        readings,
    )->Ok_0.settings.member(other) == settings.member(other) by {
        json::one_member_changes(settings, "Profiles"@, new, other);
    }
}

/// A driver that takes the settings as they are sent confirms the area: the settings that
/// are sent confirm themselves, where the frequency that they show reads as one close to the
/// requested one.
pub proof fn sent_settings_confirm_themselves(
    settings: Tree,
    request: Request,
    readings: Readings,
)
    requires
        planned(settings, request, readings) is Ok,
        request.display matches Some(display) ==> binary::is_finite32(display.width)
            && binary::is_finite32(display.height) && binary::is_finite32(display.x)
            && binary::is_finite32(display.y),
        ({
            let plan = planned(settings, request, readings)->Ok_0;
            plan.frequency matches Some(expected) ==> frequency_matches(
                profile::tablet_profile(plan.settings, request.tablet_name)->0,
                expected,
                readings,
            )
        }),
    ensures
        confirms(
            planned(settings, request, readings)->Ok_0.settings,
            request.tablet_name,
            planned(settings, request, readings)->Ok_0,
            readings,
        ),
{
    one_profile_changes(settings, request, readings);
    names_are_apart();
    let before = settings.member_items("Profiles"@)->0;
    let i = profile::profile_index(before, request.tablet_name, 0)->0;
    let found = before[i];
    requested_profile(found, request, readings);
    let area = profile_area(found, "Tablet"@)->0;
    let list = area_fields(request, readings)->Ok_0;
    assert(names_apart(list));
    set_fields_match(area, list, AREA_TOLERANCE);
    if request.display is Some {
        let display = request.display->0;
        binary::widening_keeps_the_value(display.width);
        binary::widening_keeps_the_value(display.height);
        binary::widening_keeps_the_value(display.x);
        binary::widening_keeps_the_value(display.y);
        assert(names_apart(display_fields(display)));
        set_fields_match(
            profile_area(found, "Display"@)->0,
            display_fields(display),
            HALF,
        );
    }
}

/// Every number of the tablet's area that was read back is close to the requested one, and so
/// is every number of the display's area where a display was asked for, and the frequency
/// where a filter takes one.
pub open spec fn as_requested(
    readback: Tree,
    settings: Tree,
    request: Request,
    readings: Readings,
    later: Readings,
) -> bool {
    let found = profile::tablet_profile(readback, request.tablet_name)->0;
    let area = profile_area(found, "Tablet"@)->0;
    let width = validation::valid_dimension("Width"@, request.width, readings)->Ok_0;
    let height = validation::valid_dimension("Height"@, request.height, readings)->Ok_0;
    let x = validation::finite("X"@, request.x, readings)->Ok_0;
    let y = validation::finite("Y"@, request.y, readings)->Ok_0;
    let rotation = validation::valid_rotation(request.rotation, readings)->Ok_0;
    let frequency = validation::valid_frequency(request.frequency, readings)->Ok_0;
    &&& field_matches(area, "Width"@, width, AREA_TOLERANCE)
    &&& field_matches(area, "Height"@, height, AREA_TOLERANCE)
    &&& field_matches(area, "X"@, x, AREA_TOLERANCE)
    &&& field_matches(area, "Y"@, y, AREA_TOLERANCE)
    &&& field_matches(area, "Rotation"@, rotation, AREA_TOLERANCE)
    &&& planned(settings, request, readings)->Ok_0.frequency is Some ==> frequency_matches(found, frequency, later)
    &&& request.display matches Some(display) ==> {
        let shown = profile_area(found, "Display"@)->0;
        &&& field_matches(shown, "Width"@, binary::widened(display.width), HALF)
        &&& field_matches(shown, "Height"@, binary::widened(display.height), HALF)
        &&& field_matches(shown, "X"@, binary::widened(display.x), HALF)
        &&& field_matches(shown, "Y"@, binary::widened(display.y), HALF)
    }
}

/// An area is confirmed only where the driver has it. `later` is what the texts that were read
/// back read as.
pub proof fn confirmed_area_is_the_requested_one(
    settings: Tree,
    request: Request,
    readings: Readings,
    readback: Tree,
    later: Readings,
)
    requires
        planned(settings, request, readings) is Ok,
        confirms(
            readback,
            request.tablet_name,
            planned(settings, request, readings)->Ok_0,
            later,
        ),
    ensures
        as_requested(readback, settings, request, readings, later),
{
    let plan = planned(settings, request, readings)->Ok_0;
    let list = plan.area;
    assert(list == area_fields(request, readings)->Ok_0);
    assert(list[0].0 == "Width"@ && list[1].0 == "Height"@ && list[2].0 == "X"@ && list[3].0
        == "Y"@ && list[4].0 == "Rotation"@);
    if request.display is Some {
        let shown = display_fields(request.display->0);
        assert(plan.display == Some(shown));
        assert(shown[0].0 == "Width"@ && shown[1].0 == "Height"@ && shown[2].0 == "X"@
            && shown[3].0 == "Y"@);
    }
}

/// An application ends: there are at most five readings, and none of them is followed by
/// another once the area is confirmed.
pub proof fn applications_end(model: ApplyModel, event: ApplyNews, readings: Readings)
    requires
        model.awaits(event),
    ensures
        ({
            let (next, deed) = model.after(event, readings);
            &&& deed is Read ==> next.stage is Reading && (model.stage is Sending || next.rounds
                == model.rounds + 1 && next.rounds < 5)
            &&& deed is Finish || deed is Fail || deed is TimeOut ==> next.stage is Over
            &&& deed is Persist ==> next.stage is Persisting
        }),
{
}

/// An application succeeds only with an area that the driver confirmed: what is reported is
/// what was read back, and not what was asked for.
pub proof fn success_is_confirmed(
    model: ApplyModel,
    read: Option<Tree>,
    readings: Readings,
    later: Readings,
)
    requires
        model.stage is Reading,
    ensures
        ({
            let (next, deed) = model.after(ApplyNews::Read(read), readings);
            deed is Persist ==> {
                let (_, end) = next.after(ApplyNews::Persisted(true), later);
                &&& read is Some
                &&& confirms(read->0, model.request.tablet_name, model.plan, readings)
                &&& end == ApplyDeed::Finish(actual_area(read->0, model.request), read->0)
            }
        }),
        !(model.after(ApplyNews::Read(read), readings).1 is Finish),
{
}

/// What an application reports is what the driver has: where one succeeds, whether or not there
/// was anything to send, the area is that of the settings that were read back, these settings
/// have everything that was asked for, and they are the ones that are kept.
pub proof fn applied_area_is_read_back(
    settings: Tree,
    request: Request,
    readings: Readings,
    model: ApplyModel,
    read: Option<Tree>,
    later: Readings,
)
    requires
        planned(settings, request, readings) is Ok,
        model.plan == planned(settings, request, readings)->Ok_0,
        model.request == request,
        model.stage is Reading,
        model.after(ApplyNews::Read(read), later).1 is Persist,
    ensures
        read is Some,
        model.after(ApplyNews::Read(read), later).1 == ApplyDeed::Persist(read->0),
        as_requested(read->0, settings, request, readings, later),
        forall|any: Readings|
            #[trigger] model.after(ApplyNews::Read(read), later).0.after(
                ApplyNews::Persisted(true),
                any,
            ).1 == ApplyDeed::Finish(actual_area(read->0, request), read->0),
{
    confirmed_area_is_the_requested_one(settings, request, readings, read->0, later);
}

// ---- what is sent ----

/// A key stands for one of some names, written with a capital or not.
pub open spec fn stands_for(key: Seq<char>, names: Seq<Seq<char>>) -> bool {
    exists|n: int|
        0 <= n < names.len() && (key == #[trigger] names[n] || key == text::lower_first(names[n]))
}

/// Two objects have the same keys in the same places, and the same values but for those under
/// some names.
pub open spec fn same_but_for(a: Tree, b: Tree, names: Seq<Seq<char>>) -> bool {
    &&& a is Object
    &&& b is Object
    &&& a->Object_0.len() == b->Object_0.len()
    &&& forall|k: int|
        0 <= k < a->Object_0.len() ==> (#[trigger] a->Object_0[k]).0 == b->Object_0[k].0 && (
        a->Object_0[k] == b->Object_0[k] || stands_for(a->Object_0[k].0, names))
}

/// A member is the number that a text reads as.
pub open spec fn holds(area: Tree, name: Seq<char>, text: Seq<char>, readings: Readings) -> bool {
    &&& readings.double_of(text) is Some
    &&& area.member(name) == Some(
        Tree::Number(JsonNumber::Double(readings.double_of(text)->0)),
    )
}

/// A member is a number of the same value as a binary32 one.
pub open spec fn holds_single(area: Tree, name: Seq<char>, bits: u32) -> bool {
    binary::is_finite32(bits) ==> (area.member(name) matches Some(
        Tree::Number(JsonNumber::Double(double)),
    ) && binary::is_finite64(double) && binary::value64(double) == binary::value32(bits))
}

/// A filter's setting before and after a new frequency: only the value of a setting whose
/// property is the frequency changes, and only where it has one.
pub open spec fn setting_is_tuned(old_one: Tree, new_one: Tree, frequency: u64) -> bool {
    if old_one.member("Property"@) == Some(Tree::Text("Frequency"@)) && old_one.member("Value"@)
        is Some {
        &&& same_but_for(old_one, new_one, seq!["Value"@])
        &&& new_one.member("Value"@) == Some(Tree::Number(JsonNumber::Double(frequency)))
    } else {
        new_one == old_one
    }
}

/// A filter before and after a new frequency: only its settings change, one by one.
pub open spec fn filter_is_tuned(old_one: Tree, new_one: Tree, frequency: u64) -> bool {
    match old_one.member("Settings"@) {
        Some(Tree::Array(xs)) => {
            &&& same_but_for(old_one, new_one, seq!["Settings"@])
            &&& new_one.member("Settings"@) matches Some(Tree::Array(ys)) && ys.len() == xs.len()
                && forall|j: int|
                0 <= j < xs.len() ==> setting_is_tuned(#[trigger] xs[j], ys[j], frequency)
        },
        _ => new_one == old_one,
    }
}

/// A profile before and after a new frequency: only its filters change, one by one.
pub open spec fn filters_are_tuned(old_one: Tree, new_one: Tree, frequency: u64) -> bool {
    match old_one.member("Filters"@) {
        Some(Tree::Array(xs)) => {
            &&& new_one.member("Filters"@) matches Some(Tree::Array(ys)) && ys.len() == xs.len()
                && forall|j: int|
                0 <= j < xs.len() ==> filter_is_tuned(#[trigger] xs[j], ys[j], frequency)
        },
        _ => new_one.member("Filters"@) == old_one.member("Filters"@),
    }
}

/// A profile before and after a request: the numbers of the tablet's area are those that the
/// texts of the request read as, those of the display's area are those of the display, the
/// frequency is in the filters that have one, and all else is as it was.
pub open spec fn profile_is_changed(
    old_one: Tree,
    new_one: Tree,
    request: Request,
    readings: Readings,
) -> bool {
    &&& same_but_for(old_one, new_one, seq!["AbsoluteModeSettings"@, "Filters"@])
    &&& readings.double_of(request.frequency) is Some
    &&& filters_are_tuned(old_one, new_one, readings.double_of(request.frequency)->0)
    &&& old_one.member("AbsoluteModeSettings"@) matches Some(a) && new_one.member(
        "AbsoluteModeSettings"@,
    ) matches Some(b) && same_but_for(a, b, seq!["Tablet"@, "Display"@]) && (a.member(
        "Tablet"@,
    ) matches Some(was) && b.member("Tablet"@) matches Some(area) && same_but_for(
        was,
        area,
        seq!["Width"@, "Height"@, "X"@, "Y"@, "Rotation"@],
    ) && holds(area, "Width"@, request.width, readings) && holds(
        area,
        "Height"@,
        request.height,
        readings,
    ) && holds(area, "X"@, request.x, readings) && holds(area, "Y"@, request.y, readings) && holds(
        area,
        "Rotation"@,
        request.rotation,
        readings,
    )) && match request.display {
        None => b.member("Display"@) == a.member("Display"@),
        Some(display) => a.member("Display"@) matches Some(was) && b.member("Display"@) matches Some(
            area,
        ) && same_but_for(was, area, seq!["Width"@, "Height"@, "X"@, "Y"@]) && holds_single(
            area,
            "Width"@,
            display.width,
        ) && holds_single(area, "Height"@, display.height) && holds_single(area, "X"@, display.x)
            && holds_single(area, "Y"@, display.y),
    }
}

/// The profile is the first one of the tablet.
pub open spec fn is_first_profile(profiles: Seq<Tree>, tablet: Seq<char>, i: int) -> bool {
    &&& 0 <= i < profiles.len()
    &&& profiles[i].member("Tablet"@) == Some(Tree::Text(tablet))
    &&& forall|k: int|
        0 <= k < i ==> (#[trigger] profiles[k]).member("Tablet"@) != Some(Tree::Text(tablet))
}

proof fn replaced_member(tree: Tree, name: Seq<char>, new: Tree, names: Seq<Seq<char>>)
    requires
        tree.member(name) is Some,
        names.contains(name),
    ensures
        same_but_for(tree, tree.with_member(name, new), names),
{
    let changed = tree.with_member(name, new);
    assert forall|k: int| 0 <= k < tree->Object_0.len() implies (#[trigger] tree->Object_0[k]).0
        == changed->Object_0[k].0 && (tree->Object_0[k] == changed->Object_0[k] || stands_for(
        tree->Object_0[k].0,
        names,
    )) by {
        json::one_entry_changes(tree, name, new, k);
        let n = choose|n: int| 0 <= n < names.len() && names[n] == name;
        assert(names[n] == name);
    }
    assert(tree is Object);
    assert(changed is Object);
}

proof fn changes_add_up(a: Tree, b: Tree, c: Tree, names: Seq<Seq<char>>)
    requires
        same_but_for(a, b, names),
        same_but_for(b, c, names),
    ensures
        same_but_for(a, c, names),
{
    assert forall|k: int| 0 <= k < a->Object_0.len() implies (#[trigger] a->Object_0[k]).0
        == c->Object_0[k].0 && (a->Object_0[k] == c->Object_0[k] || stands_for(
        a->Object_0[k].0,
        names,
    )) by {
        assert(b->Object_0[k].0 == a->Object_0[k].0);
    }
}

/// Setting some members changes no other one.
proof fn fields_change_nothing_else(
    area: Tree,
    list: Seq<(Seq<char>, u64)>,
    names: Seq<Seq<char>>,
)
    requires
        list.len() > 0,
        with_fields(area, list) is Ok,
        forall|i: int| 0 <= i < list.len() ==> names.contains((#[trigger] list[i]).0),
    ensures
        same_but_for(area, with_fields(area, list)->Ok_0, names),
    decreases list.len(),
{
    let shorter = list.drop_last();
    let before = with_fields(area, shorter)->Ok_0;
    let last = list.last();
    assert(list[list.len() - 1] == last);
    replaced_member(before, last.0, number_tree(last.1), names);
    if shorter.len() > 0 {
        assert forall|i: int| 0 <= i < shorter.len() implies names.contains(
            (#[trigger] shorter[i]).0,
        ) by {
            assert(shorter[i] == list[i]);
        }
        fields_change_nothing_else(area, shorter, names);
        changes_add_up(area, before, with_fields(area, list)->Ok_0, names);
    }
}

proof fn tuned_setting(setting: Tree, frequency: u64)
    requires
        binary::is_finite64(frequency),
    ensures
        setting_is_tuned(setting, with_frequency_value(setting, frequency), frequency),
{
    if setting.member("Value"@) is Some {
        let new = number_tree(frequency);
        json::one_member_changes(setting, "Value"@, new, "Value"@);
        assert(seq!["Value"@][0] == "Value"@);
        replaced_member(setting, "Value"@, new, seq!["Value"@]);
    }
}

proof fn tuned_filter(filter: Tree, frequency: u64)
    requires
        binary::is_finite64(frequency),
    ensures
        filter_is_tuned(filter, with_filter_frequency(filter, frequency), frequency),
{
    match filter.member("Settings"@) {
        Some(Tree::Array(xs)) => {
            let ys = xs.map_values(|setting: Tree| with_frequency_value(setting, frequency));
            let new = Tree::Array(ys);
            json::one_member_changes(filter, "Settings"@, new, "Settings"@);
            assert(seq!["Settings"@][0] == "Settings"@);
            replaced_member(filter, "Settings"@, new, seq!["Settings"@]);
            assert forall|j: int| 0 <= j < xs.len() implies setting_is_tuned(
                #[trigger] xs[j],
                ys[j],
                frequency,
            ) by {
                tuned_setting(xs[j], frequency);
            }
        },
        _ => {},
    }
}

/// What becomes of the profile of a request.
#[verifier::spinoff_prover]
#[verifier::rlimit(60)]
proof fn changed_profile(profile: Tree, request: Request, readings: Readings)
    requires
        with_request(profile, request, readings) is Ok,
    ensures
        profile_is_changed(
            profile,
            with_request(profile, request, readings)->Ok_0.0,
            request,
            readings,
        ),
{
    names_are_apart();
    let absolute_name = "AbsoluteModeSettings"@;
    let outer = seq!["AbsoluteModeSettings"@, "Filters"@];
    assert(outer[0] == absolute_name && outer[1] == "Filters"@);
    let inner = seq!["Tablet"@, "Display"@];
    assert(inner[0] == "Tablet"@ && inner[1] == "Display"@);
    let absolute = profile.member(absolute_name)->0;
    let area = absolute.member("Tablet"@)->0;
    let list = area_fields(request, readings)->Ok_0;
    let changed = with_fields(area, list)->Ok_0;
    let frequency = validation::valid_frequency(request.frequency, readings)->Ok_0;
    let absolute1 = absolute.with_member("Tablet"@, changed);
    let first = with_area(profile, "Tablet"@, changed);
    json::one_member_changes(absolute, "Tablet"@, changed, "Display"@);
    json::one_member_changes(profile, absolute_name, absolute1, "Filters"@);
    replaced_member(profile, absolute_name, absolute1, outer);
    replaced_member(absolute, "Tablet"@, changed, inner);
    set_area(area, list, request, readings);
    let tuned = with_frequency(first, frequency);
    tuned_profile(first, frequency);
    assert(tuned.member(absolute_name) == Some(absolute1)) by {
        tuning_keeps(first, frequency, absolute_name);
    }
    if first.member_items("Filters"@) is Some {
        changes_add_up(profile, first, tuned, outer);
    } else {
        assert(tuned == first);
    }
    assert(filters_are_tuned(profile, tuned, frequency));
    if request.display is Some {
        let display = request.display->0;
        let shown = absolute1.member("Display"@)->0;
        let moved = with_fields(shown, display_fields(display))->Ok_0;
        let absolute2 = absolute1.with_member("Display"@, moved);
        json::one_member_changes(absolute1, "Display"@, moved, "Tablet"@);
        json::one_member_changes(tuned, absolute_name, absolute2, "Filters"@);
        replaced_member(absolute1, "Display"@, moved, inner);
        changes_add_up(absolute, absolute1, absolute2, inner);
        replaced_member(tuned, absolute_name, absolute2, outer);
        changes_add_up(profile, tuned, with_area(tuned, "Display"@, moved), outer);
        set_display(shown, display);
    }
}

proof fn tuning_keeps(profile: Tree, frequency: u64, other: Seq<char>)
    requires
        json::apart("Filters"@, other),
    ensures
        with_frequency(profile, frequency).member(other) == profile.member(other),
{
    if profile.member_items("Filters"@) is Some {
        let new = Tree::Array(
            profile.member_items("Filters"@)->0.map_values(
                |filter: Tree| with_filter_frequency(filter, frequency),
            ),
        );
        json::one_member_changes(profile, "Filters"@, new, other);
    }
}

proof fn tuned_profile(profile: Tree, frequency: u64)
    requires
        binary::is_finite64(frequency),
    ensures
        filters_are_tuned(profile, with_frequency(profile, frequency), frequency),
        profile.member_items("Filters"@) is Some ==> same_but_for(
            profile,
            with_frequency(profile, frequency),
            seq!["AbsoluteModeSettings"@, "Filters"@],
        ),
        profile.member_items("Filters"@) is None ==> with_frequency(profile, frequency) == profile,
{
    match profile.member("Filters"@) {
        Some(Tree::Array(xs)) => {
            let ys = xs.map_values(|filter: Tree| with_filter_frequency(filter, frequency));
            let new = Tree::Array(ys);
            let names = seq!["AbsoluteModeSettings"@, "Filters"@];
            assert(names[1] == "Filters"@);
            json::one_member_changes(profile, "Filters"@, new, "Filters"@);
            replaced_member(profile, "Filters"@, new, names);
            assert forall|j: int| 0 <= j < xs.len() implies filter_is_tuned(
                #[trigger] xs[j],
                ys[j],
                frequency,
            ) by {
                tuned_filter(xs[j], frequency);
            }
        },
        _ => {},
    }
}

proof fn set_area(area: Tree, list: Seq<(Seq<char>, u64)>, request: Request, readings: Readings)
    requires
        area_fields(request, readings) == Ok::<Seq<(Seq<char>, u64)>, Fault>(list),
        with_fields(area, list) is Ok,
    ensures
        ({
            let changed = with_fields(area, list)->Ok_0;
            &&& same_but_for(area, changed, seq!["Width"@, "Height"@, "X"@, "Y"@, "Rotation"@])
            &&& holds(changed, "Width"@, request.width, readings)
            &&& holds(changed, "Height"@, request.height, readings)
            &&& holds(changed, "X"@, request.x, readings)
            &&& holds(changed, "Y"@, request.y, readings)
            &&& holds(changed, "Rotation"@, request.rotation, readings)
        }),
{
    names_are_apart();
    let names = seq!["Width"@, "Height"@, "X"@, "Y"@, "Rotation"@];
    assert(names[0] == "Width"@ && names[1] == "Height"@ && names[2] == "X"@ && names[3] == "Y"@
        && names[4] == "Rotation"@);
    assert(list[0].0 == "Width"@ && list[1].0 == "Height"@ && list[2].0 == "X"@ && list[3].0
        == "Y"@ && list[4].0 == "Rotation"@);
    assert(names_apart(list));
    fields_are_set(area, list);
    fields_change_nothing_else(area, list, names);
}

proof fn set_display(area: Tree, display: Display)
    requires
        with_fields(area, display_fields(display)) is Ok,
    ensures
        ({
            let changed = with_fields(area, display_fields(display))->Ok_0;
            &&& same_but_for(area, changed, seq!["Width"@, "Height"@, "X"@, "Y"@])
            &&& holds_single(changed, "Width"@, display.width)
            &&& holds_single(changed, "Height"@, display.height)
            &&& holds_single(changed, "X"@, display.x)
            &&& holds_single(changed, "Y"@, display.y)
        }),
{
    names_are_apart();
    let list = display_fields(display);
    let names = seq!["Width"@, "Height"@, "X"@, "Y"@];
    assert(names[0] == "Width"@ && names[1] == "Height"@ && names[2] == "X"@ && names[3] == "Y"@);
    assert(list[0].0 == "Width"@ && list[1].0 == "Height"@ && list[2].0 == "X"@ && list[3].0
        == "Y"@);
    assert(names_apart(list));
    fields_are_set(area, list);
    fields_change_nothing_else(area, list, names);
    if binary::is_finite32(display.width) {
        binary::widening_keeps_the_value(display.width);
    }
    if binary::is_finite32(display.height) {
        binary::widening_keeps_the_value(display.height);
    }
    if binary::is_finite32(display.x) {
        binary::widening_keeps_the_value(display.x);
    }
    if binary::is_finite32(display.y) {
        binary::widening_keeps_the_value(display.y);
    }
}

/// What is sent to the driver is what was read from it, but for the values that the request asks
/// for: of the settings only the profiles change, of the profiles only the first one of the
/// tablet, and of that one only its areas and the frequencies of its filters.
pub proof fn only_requested_values_change(settings: Tree, request: Request, readings: Readings)
    requires
        planned(settings, request, readings) is Ok,
    ensures
        ({
            let sent = planned(settings, request, readings)->Ok_0.settings;
            &&& same_but_for(settings, sent, seq!["Profiles"@])
            &&& settings.member("Profiles"@) matches Some(Tree::Array(before)) && sent.member(
                "Profiles"@,
            ) matches Some(Tree::Array(after)) && before.len() == after.len() && exists|i: int| #[trigger]
                is_first_profile(before, request.tablet_name, i) && profile_is_changed(
                    before[i],
                    after[i],
                    request,
                    readings,
                ) && forall|k: int|
                    0 <= k < before.len() && k != i ==> after[k] == #[trigger] before[k]
        }),
{
    one_profile_changes(settings, request, readings);
    let before = settings.member_items("Profiles"@)->0;
    let i = profile::profile_index(before, request.tablet_name, 0)->0;
    profile::index_is_first(before, request.tablet_name, 0);
    changed_profile(before[i], request, readings);
    let tree = with_request(before[i], request, readings)->Ok_0.0;
    let new = Tree::Array(before.update(i, tree));
    assert(seq!["Profiles"@][0] == "Profiles"@);
    replaced_member(settings, "Profiles"@, new, seq!["Profiles"@]);
    json::one_member_changes(settings, "Profiles"@, new, "Profiles"@);
    assert(is_first_profile(before, request.tablet_name, i));
}

/// The frequency is held to where one of the filters has a setting for it, and nowhere else.
pub proof fn frequency_is_planned_where_it_is_set(
    settings: Tree,
    request: Request,
    readings: Readings,
)
    requires
        planned(settings, request, readings) is Ok,
    ensures
        ({
            let before = settings.member_items("Profiles"@)->0;
            let plan = planned(settings, request, readings)->Ok_0;
            forall|i: int| #[trigger]
                is_first_profile(before, request.tablet_name, i) ==> {
                    &&& plan.frequency == if sets_frequency(before[i]) {
                        readings.double_of(request.frequency)
                    } else {
                        None
                    }
                }
        }),
{
    let before = settings.member_items("Profiles"@)->0;
    profile::index_is_first(before, request.tablet_name, 0);
    let i = profile::profile_index(before, request.tablet_name, 0)->0;
    assert forall|k: int| #[trigger] is_first_profile(before, request.tablet_name, k) implies k
        == i by {
        if k < i {
            assert(before[k].member("Tablet"@) != Some(Tree::Text(request.tablet_name)));
        }
    }
    names_are_apart();
    let found = before[i];
    let area = profile_area(found, "Tablet"@)->0;
    let changed = with_fields(area, area_fields(request, readings)->Ok_0)->Ok_0;
    let absolute1 = found.member("AbsoluteModeSettings"@)->0.with_member("Tablet"@, changed);
    json::one_member_changes(found, "AbsoluteModeSettings"@, absolute1, "Filters"@);
    let first = with_area(found, "Tablet"@, changed);
    assert(first.member("Filters"@) == found.member("Filters"@));
    assert(sets_frequency(found) == profile_takes_frequency(first)) by {
        if let Some(Tree::Array(filters)) = found.member("Filters"@) {
            if sets_frequency(found) {
                let (n, j): (int, int) = choose|n: int, j: int|
                    #![trigger filter_setting(filters, n, j)]
                    0 <= n < filters.len() && 0 <= j && (filter_setting(filters, n, j) matches Some(
                        setting,
                    ) && setting.member("Property"@) == Some(Tree::Text("Frequency"@))
                        && setting.member("Value"@) is Some);
                let items = filters[n].member_items("Settings"@)->0;
                assert(takes_frequency(items[j]));
                assert(filter_takes_frequency(filters[n]));
            }
            if profile_takes_frequency(first) {
                let n = choose|n: int|
                    0 <= n < filters.len() && filter_takes_frequency(#[trigger] filters[n]);
                let items = filters[n].member_items("Settings"@)->0;
                let j = choose|j: int| 0 <= j < items.len() && takes_frequency(#[trigger] items[j]);
                assert(filter_setting(filters, n, j) == Some(items[j]));
            }
        }
    }
}

/// One setting of one of some filters.
pub open spec fn filter_setting(filters: Seq<Tree>, n: int, j: int) -> Option<Tree> {
    match filters[n].member("Settings"@) {
        Some(Tree::Array(items)) => if 0 <= j < items.len() {
            Some(items[j])
        } else {
            None
        },
        _ => None,
    }
}

/// Some filter of a profile has a setting of the frequency, with a value.
pub open spec fn sets_frequency(profile: Tree) -> bool {
    profile.member("Filters"@) matches Some(Tree::Array(filters)) && exists|n: int, j: int|
        #![trigger filter_setting(filters, n, j)]
        0 <= n < filters.len() && 0 <= j && (filter_setting(filters, n, j) matches Some(setting)
            && setting.member("Property"@) == Some(Tree::Text("Frequency"@)) && setting.member(
            "Value"@,
        ) is Some)
}

// ---- what confirms an area ----

/// The tolerances are what they are called.
proof fn tolerances()
    ensures
        2 * binary::value64(HALF) == binary::one(),
        binary::one() <= 200 * binary::value64(AREA_TOLERANCE) <= binary::one() + binary::one()
            / 0x1_0000_0000,
        256 * binary::value64(0x3f70_0000_0000_0000) == binary::one(),
        4 * binary::value64(0x3fd0_0000_0000_0000) == binary::one(),
{
    assert(power2::pow2(60) == 0x1000_0000_0000_0000 && power2::pow2(52) == 0x10_0000_0000_0000
        && power2::pow2(32) == 0x1_0000_0000) by {
        power2::lemma2_to64();
        power2::lemma2_to64_rest();
    }
    let half = binary::exact64(HALF);
    assert(half.significand == 0x10_0000_0000_0000 && half.shift == 1021);
    power2::lemma_pow2_adds(52, 1021);
    power2::lemma_pow2_unfold(1074);
    let small = binary::exact64(AREA_TOLERANCE);
    assert(small.significand == 0x14_7ae1_47ae_147b && small.shift == 1014);
    power2::lemma_pow2_adds(60, 1014);
    let z = power2::pow2(1014) as int;
    power2::lemma_pow2_pos(1014);
    assert(200 * (0x14_7ae1_47ae_147b * z) == (0x1000_0000_0000_0000 + 24) * z) by (nonlinear_arith);
    assert((0x1000_0000_0000_0000 + 24) * z == 0x1000_0000_0000_0000 * z + 24 * z)
        by (nonlinear_arith);
    assert(binary::one() == 0x1000_0000_0000_0000 * z);
    let part = 0x1000_0000 * z;
    assert(binary::one() == part * 0x1_0000_0000) by (nonlinear_arith)
        requires
            binary::one() == 0x1000_0000_0000_0000 * z,
            part == 0x1000_0000 * z,
    ;
    assert(binary::one() / 0x1_0000_0000 == part);
    let inner = binary::exact64(0x3f70_0000_0000_0000);
    assert(inner.significand == 0x10_0000_0000_0000 && inner.shift == 1014);
    assert(256 * (0x10_0000_0000_0000 * z) == 0x1000_0000_0000_0000 * z) by (nonlinear_arith);
    let quarter = binary::exact64(0x3fd0_0000_0000_0000);
    assert(quarter.significand == 0x10_0000_0000_0000 && quarter.shift == 1020);
    power2::lemma_pow2_adds(52, 1020);
    power2::lemma_pow2_unfold(1073);
}

/// A member of an area is a number less than 0.005 away from what a text reads as.
pub open spec fn is_near(area: Tree, name: Seq<char>, text: Seq<char>, readings: Readings) -> bool {
    &&& readings.double_of(text) is Some
    &&& area.member(name) matches Some(Tree::Number(number)) && binary::is_finite64(
        number.as_double(),
    ) && 200 * binary::distance(
        binary::value64(number.as_double()) - binary::value64(readings.double_of(text)->0),
    ) < binary::one() + binary::one() / 0x1_0000_0000
}

/// A member of an area is a number less than half away from a binary32 one.
pub open spec fn is_near_single(area: Tree, name: Seq<char>, bits: u32) -> bool {
    binary::is_finite32(bits) ==> (area.member(name) matches Some(Tree::Number(number))
        && binary::is_finite64(number.as_double()) && 2 * binary::distance(
        binary::value64(number.as_double()) - binary::value32(bits),
    ) < binary::one())
}

proof fn matching_field_is_near(
    area: Tree,
    name: Seq<char>,
    text: Seq<char>,
    bits: u64,
    readings: Readings,
)
    requires
        readings.double_of(text) == Some(bits),
        binary::is_finite64(bits),
        field_matches(area, name, bits, AREA_TOLERANCE),
    ensures
        is_near(area, name, text, readings),
{
    tolerances();
    let number = area.member_number(name)->0;
    binary::differences_compare_exactly(number.as_double(), bits, AREA_TOLERANCE, 0);
}

proof fn matching_single_is_near(area: Tree, name: Seq<char>, bits: u32)
    requires
        field_matches(area, name, binary::widened(bits), HALF),
    ensures
        is_near_single(area, name, bits),
{
    if binary::is_finite32(bits) {
        tolerances();
        binary::widening_keeps_the_value(bits);
        let number = area.member_number(name)->0;
        binary::differences_compare_exactly(number.as_double(), binary::widened(bits), HALF, 0);
    }
}

/// The profile that was read back has the area, the display and the frequency of a request.
pub open spec fn has_requested(
    found: Tree,
    request: Request,
    readings: Readings,
    later: Readings,
    tuned: bool,
) -> bool {
    &&& found.member("AbsoluteModeSettings"@) matches Some(absolute) && (absolute.member(
        "Tablet"@,
    ) matches Some(area) && is_near(area, "Width"@, request.width, readings) && is_near(
        area,
        "Height"@,
        request.height,
        readings,
    ) && is_near(area, "X"@, request.x, readings) && is_near(area, "Y"@, request.y, readings)
        && is_near(area, "Rotation"@, request.rotation, readings)) && (request.display matches Some(
        display,
    ) ==> (absolute.member("Display"@) matches Some(area) && is_near_single(
        area,
        "Width"@,
        display.width,
    ) && is_near_single(area, "Height"@, display.height) && is_near_single(
        area,
        "X"@,
        display.x,
    ) && is_near_single(area, "Y"@, display.y)))
    &&& tuned ==> ({
        let shown = later.double_of(profile::profile_frequency(found));
        let wanted = readings.double_of(request.frequency);
        shown is Some && wanted is Some && binary::is_finite64(shown->0) && 2 * binary::distance(
            binary::value64(shown->0) - binary::value64(wanted->0),
        ) < binary::one()
    })
}

/// An area is confirmed only where the first profile of the tablet that was read back has every
/// number that was asked for: those of the tablet's area to less than 0.005, those of the display
/// to less than half, and the frequency to less than half where a filter has one.
pub proof fn confirmed_numbers_are_near(
    settings: Tree,
    request: Request,
    readings: Readings,
    readback: Tree,
    later: Readings,
)
    requires
        planned(settings, request, readings) is Ok,
        confirms(
            readback,
            request.tablet_name,
            planned(settings, request, readings)->Ok_0,
            later,
        ),
    ensures
        readback.member("Profiles"@) matches Some(Tree::Array(after)) && settings.member(
            "Profiles"@,
        ) matches Some(Tree::Array(before)) && exists|i: int, k: int|
            #![trigger is_first_profile(before, request.tablet_name, i), is_first_profile(
                after,
                request.tablet_name,
                k,
            )]
            is_first_profile(before, request.tablet_name, i) && is_first_profile(
                after,
                request.tablet_name,
                k,
            ) && has_requested(after[k], request, readings, later, sets_frequency(before[i])),
{
    confirmed_area_is_the_requested_one(settings, request, readings, readback, later);
    frequency_is_planned_where_it_is_set(settings, request, readings);
    let before = settings.member_items("Profiles"@)->0;
    let after = readback.member_items("Profiles"@)->0;
    profile::index_is_first(before, request.tablet_name, 0);
    profile::index_is_first(after, request.tablet_name, 0);
    let i = profile::profile_index(before, request.tablet_name, 0)->0;
    let k = profile::profile_index(after, request.tablet_name, 0)->0;
    assert(is_first_profile(before, request.tablet_name, i));
    assert(is_first_profile(after, request.tablet_name, k));
    let found = after[k];
    let absolute = found.member("AbsoluteModeSettings"@)->0;
    let area = absolute.member("Tablet"@)->0;
    let width = validation::valid_dimension("Width"@, request.width, readings)->Ok_0;
    let height = validation::valid_dimension("Height"@, request.height, readings)->Ok_0;
    let x = validation::finite("X"@, request.x, readings)->Ok_0;
    let y = validation::finite("Y"@, request.y, readings)->Ok_0;
    let rotation = validation::valid_rotation(request.rotation, readings)->Ok_0;
    matching_field_is_near(area, "Width"@, request.width, width, readings);
    matching_field_is_near(area, "Height"@, request.height, height, readings);
    matching_field_is_near(area, "X"@, request.x, x, readings);
    matching_field_is_near(area, "Y"@, request.y, y, readings);
    matching_field_is_near(area, "Rotation"@, request.rotation, rotation, readings);
    if request.display is Some {
        let display = request.display->0;
        let shown = absolute.member("Display"@)->0;
        matching_single_is_near(shown, "Width"@, display.width);
        matching_single_is_near(shown, "Height"@, display.height);
        matching_single_is_near(shown, "X"@, display.x);
        matching_single_is_near(shown, "Y"@, display.y);
    }
    if sets_frequency(before[i]) {
        tolerances();
        let frequency = validation::valid_frequency(request.frequency, readings)->Ok_0;
        let shown = later.double_of(profile::profile_frequency(found))->0;
        binary::differences_compare_exactly(shown, frequency, HALF, 0);
    }
}

/// Numbers that are well within the tolerances count as confirmed.
pub proof fn near_numbers_match(actual: u64, expected: u64)
    requires
        binary::is_finite64(actual),
        binary::is_finite64(expected),
    ensures
        ({
            let apart = binary::distance(binary::value64(actual) - binary::value64(expected));
            &&& 256 * apart <= binary::one() ==> close_to(actual, expected, AREA_TOLERANCE)
            &&& 4 * apart <= binary::one() ==> close_to(actual, expected, HALF)
        }),
{
    tolerances();
    binary::differences_compare_exactly(actual, expected, AREA_TOLERANCE, 0x3f70_0000_0000_0000);
    binary::differences_compare_exactly(actual, expected, HALF, 0x3fd0_0000_0000_0000);
}

/// The area that is reported shows the numbers that were read back, each under its own name, for
/// the tablet and the display that were asked for.
pub proof fn reported_area_shows_what_was_read(readback: Tree, request: Request, i: int)
    requires
        readback.member("Profiles"@) matches Some(Tree::Array(profiles)) && is_first_profile(
            profiles,
            request.tablet_name,
            i,
        ),
    ensures
        ({
            let found = readback.member("Profiles"@)->0->Array_0[i];
            let actual = actual_area(readback, request);
            &&& actual.tablet_name == request.tablet_name
            &&& actual.display == request.display
            &&& actual.frequency == profile::profile_frequency(found)
            &&& found.member("AbsoluteModeSettings"@) matches Some(absolute) ==> (absolute.member(
                "Tablet"@,
            ) matches Some(area) ==> {
                &&& shows_member(actual.width, area, "Width"@)
                &&& shows_member(actual.height, area, "Height"@)
                &&& shows_member(actual.x, area, "X"@)
                &&& shows_member(actual.y, area, "Y"@)
                &&& shows_member(actual.rotation, area, "Rotation"@)
            })
        }),
{
    let profiles = readback.member("Profiles"@)->0->Array_0;
    profile::index_is_first(profiles, request.tablet_name, 0);
    let k = profile::profile_index(profiles, request.tablet_name, 0)->0;
    if k < i {
        assert(profiles[k].member("Tablet"@) != Some(Tree::Text(request.tablet_name)));
    }
    let area = profiles[i].member("AbsoluteModeSettings"@)->0.member("Tablet"@)->0;
    json::number_texts_say_their_number(area, "Width"@);
    json::number_texts_say_their_number(area, "Height"@);
    json::number_texts_say_their_number(area, "X"@);
    json::number_texts_say_their_number(area, "Y"@);
    json::number_texts_say_their_number(area, "Rotation"@);
}

/// A text shows the number of a member, where it is one.
pub open spec fn shows_member(text: Seq<char>, tree: Tree, name: Seq<char>) -> bool {
    match tree.member(name) {
        Some(Tree::Number(JsonNumber::Integer(n))) => -0x20_0000_0000_0000 < n
            < 0x20_0000_0000_0000 ==> decimal::said(text, 0) == Some(n as int),
        Some(Tree::Number(JsonNumber::Double(bits))) => binary::is_finite64(bits) ==> json::shows(
            text,
            binary::value64(bits),
        ),
        _ => text.len() == 0,
    }
}

/// A reading that does not confirm the area is followed by another one, until there were five;
/// then the application has run out of time.
pub proof fn five_readings_are_made(model: ApplyModel, read: Option<Tree>, readings: Readings)
    requires
        model.stage is Reading,
        0 <= model.rounds < 5,
        read is None || !confirms(read->0, model.request.tablet_name, model.plan, readings),
    ensures
        ({
            let (next, deed) = model.after(ApplyNews::Read(read), readings);
            &&& model.rounds < 4 ==> deed is Read && next.stage is Reading && next.rounds
                == model.rounds + 1 && next.plan == model.plan && next.request == model.request
            &&& model.rounds == 4 ==> deed is TimeOut && next.stage is Over
        }),
{
}

/// Settings that the driver took are read back, and what fails ends the application.
pub proof fn failures_end_an_application(model: ApplyModel, readings: Readings)
    ensures
        model.stage is Sending ==> {
            let (next, deed) = model.after(ApplyNews::Sent(true), readings);
            deed is Read && next.stage is Reading && next.rounds == model.rounds && next.plan
                == model.plan && next.request == model.request
        },
        model.stage is Sending ==> model.after(ApplyNews::Sent(false), readings).1 is Fail,
        model.stage is Persisting ==> model.after(ApplyNews::Persisted(false), readings).1 is Fail,
        model.stage matches ApplyStage::Persisting { actual, settings } ==> model.after(
            ApplyNews::Persisted(true),
            readings,
        ).1 == ApplyDeed::Finish(actual, settings),
{
}

/// A request is taken where the settings have everything that it sets: a profile of the tablet
/// with an area that has its five numbers, and with a display's area that has its four where a
/// display is asked for, and where the texts read as a width and a height above 0, a place, a
/// rotation of at most a full turn either way and a frequency from 1 to 1000.
pub proof fn requests_that_fit_are_taken(
    settings: Tree,
    request: Request,
    readings: Readings,
    i: int,
)
    requires
        settings.member("Profiles"@) matches Some(Tree::Array(profiles)) && is_first_profile(
            profiles,
            request.tablet_name,
            i,
        ),
    ensures
        planned(settings, request, readings) is Ok <==> has_room(
            settings.member("Profiles"@)->0->Array_0[i],
            request,
        ) && in_order(request, readings),
{
    let profiles = settings.member("Profiles"@)->0->Array_0;
    profile::index_is_first(profiles, request.tablet_name, 0);
    let k = profile::profile_index(profiles, request.tablet_name, 0)->0;
    if k < i {
        assert(profiles[k].member("Tablet"@) != Some(Tree::Text(request.tablet_name)));
    }
    let found = profiles[i];
    validation::checks_mean_what_they_say(request.width, readings);
    validation::checks_mean_what_they_say(request.height, readings);
    validation::checks_mean_what_they_say(request.x, readings);
    validation::checks_mean_what_they_say(request.y, readings);
    validation::checks_mean_what_they_say(request.rotation, readings);
    validation::checks_mean_what_they_say(request.frequency, readings);
    names_are_apart();
    if profile_area(found, "Tablet"@) is Some && area_fields(request, readings) is Ok {
        let area = profile_area(found, "Tablet"@)->0;
        let list = area_fields(request, readings)->Ok_0;
        assert(list[0].0 == "Width"@ && list[1].0 == "Height"@ && list[2].0 == "X"@ && list[3].0
            == "Y"@ && list[4].0 == "Rotation"@);
        assert(names_apart(list));
        fields_must_be_there(area, list);
        if with_fields(area, list) is Ok && validation::valid_frequency(
            request.frequency,
            readings,
        ) is Ok {
            let frequency = validation::valid_frequency(request.frequency, readings)->Ok_0;
            let changed = with_fields(area, list)->Ok_0;
            let absolute = found.member("AbsoluteModeSettings"@)->0;
            let absolute1 = absolute.with_member("Tablet"@, changed);
            let first = with_area(found, "Tablet"@, changed);
            json::one_member_changes(absolute, "Tablet"@, changed, "Display"@);
            json::one_member_changes(found, "AbsoluteModeSettings"@, absolute1, "Filters"@);
            tuning_keeps(first, frequency, "AbsoluteModeSettings"@);
            if request.display is Some && absolute.member("Display"@) is Some {
                let shown = display_fields(request.display->0);
                assert(shown[0].0 == "Width"@ && shown[1].0 == "Height"@ && shown[2].0 == "X"@
                    && shown[3].0 == "Y"@);
                assert(names_apart(shown));
                fields_must_be_there(absolute.member("Display"@)->0, shown);
            }
        }
    }
}

/// The profile has every number that a request sets.
pub open spec fn has_room(found: Tree, request: Request) -> bool {
    &&& found.member("AbsoluteModeSettings"@) matches Some(absolute) && (absolute.member(
        "Tablet"@,
    ) matches Some(area) && area.member("Width"@) is Some && area.member("Height"@) is Some
        && area.member("X"@) is Some && area.member("Y"@) is Some && area.member("Rotation"@)
        is Some) && (request.display is Some ==> (absolute.member("Display"@) matches Some(area)
        && area.member("Width"@) is Some && area.member("Height"@) is Some && area.member("X"@)
        is Some && area.member("Y"@) is Some))
}

/// The texts of a request read as numbers in their ranges.
pub open spec fn in_order(request: Request, readings: Readings) -> bool {
    &&& validation::reads_between(request.width, readings, 0, None) && binary::value64(
        readings.double_of(request.width)->0,
    ) != 0
    &&& validation::reads_between(request.height, readings, 0, None) && binary::value64(
        readings.double_of(request.height)->0,
    ) != 0
    &&& validation::reads_finite(request.x, readings)
    &&& validation::reads_finite(request.y, readings)
    &&& validation::reads_between(request.rotation, readings, -360, Some(360))
    &&& validation::reads_between(request.frequency, readings, 1, Some(1000))
}

/// Members can be set exactly where they are there.
proof fn fields_must_be_there(area: Tree, list: Seq<(Seq<char>, u64)>)
    requires
        names_apart(list),
    ensures
        with_fields(area, list) is Ok <==> forall|i: int|
            0 <= i < list.len() ==> area.member((#[trigger] list[i]).0) is Some,
        with_fields(area, list) is Ok ==> forall|other: Seq<char>|
            (forall|i: int| 0 <= i < list.len() ==> json::apart((#[trigger] list[i]).0, other))
                ==> #[trigger] with_fields(area, list)->Ok_0.member(other) == area.member(other),
    decreases list.len(),
{
    if list.len() > 0 {
        let shorter = list.drop_last();
        assert forall|i: int, k: int|
            0 <= i < shorter.len() && 0 <= k < shorter.len() && i != k implies json::apart(
            (#[trigger] shorter[i]).0,
            (#[trigger] shorter[k]).0,
        ) by {
            assert(shorter[i] == list[i] && shorter[k] == list[k]);
        }
        fields_must_be_there(area, shorter);
        let last = list.last();
        assert(list[list.len() - 1] == last);
        assert forall|i: int| 0 <= i < shorter.len() implies json::apart(
            (#[trigger] shorter[i]).0,
            last.0,
        ) by {
            assert(shorter[i] == list[i]);
        }
        if with_fields(area, shorter) is Ok {
            let before = with_fields(area, shorter)->Ok_0;
            assert(before.member(last.0) == area.member(last.0));
            assert forall|i: int| 0 <= i < list.len() && with_fields(area, list) is Ok implies
            area.member((#[trigger] list[i]).0) is Some by {
                if i < shorter.len() {
                    assert(shorter[i] == list[i]);
                }
            }
            if with_fields(area, list) is Ok {
                assert forall|other: Seq<char>|
                    (forall|i: int|
                        0 <= i < list.len() ==> json::apart((#[trigger] list[i]).0, other))
                    implies #[trigger] with_fields(area, list)->Ok_0.member(other) == area.member(
                    other,
                ) by {
                    json::one_member_changes(before, last.0, number_tree(last.1), other);
                    assert forall|i: int| 0 <= i < shorter.len() implies json::apart(
                        (#[trigger] shorter[i]).0,
                        other,
                    ) by {
                        assert(shorter[i] == list[i]);
                    }
                    assert(before.member(other) == area.member(other));
                }
            }
        } else {
            let i = choose|i: int|
                0 <= i < shorter.len() && area.member((#[trigger] shorter[i]).0) is None;
            assert(list[i] == shorter[i]);
        }
    }
}

/// Each refusal is told in its own words, with the name of the field where it is that of one.
pub proof fn refusals_are_told(name: Seq<char>, fault: validation::Fault)
    ensures
        Refusal::ProfilesMissing.says() == "Profiles missing"@,
        Refusal::TabletProfileMissing.says() == "Tablet profile missing"@,
        Refusal::TabletAreaMissing.says() == "Tablet area missing"@,
        Refusal::DisplayAreaMissing.says() == "Display area missing"@,
        Refusal::AreaFieldMissing(name).says() == "Area field "@ + name + " missing"@,
        Refusal::DisplayFieldMissing(name).says() == "Display field "@ + name + " missing"@,
        Refusal::Invalid(fault).says() == fault.says(),
{
}

/// An application begins with what there is to send, or with a reading where there is nothing, and
/// holds to its plan and its request from then on.
pub proof fn applications_begin_with_the_sending(plan: Plan, request: Request)
    ensures
        ApplyModel::initial(plan, request).stage is Sending,
        ApplyModel::unsent(plan, request).stage is Reading,
        ApplyModel::initial(plan, request).rounds == 0,
        ApplyModel::unsent(plan, request).rounds == 0,
        ApplyModel::initial(plan, request).plan == plan,
        ApplyModel::unsent(plan, request).plan == plan,
        ApplyModel::initial(plan, request).request == request,
        ApplyModel::unsent(plan, request).request == request,
{
}

/// What was sent is read back; what confirms the area is kept, and once it is kept the area is
/// reported as it was read, with the settings that it was read in.
pub proof fn confirmed_settings_are_kept(
    model: ApplyModel,
    tree: Tree,
    area: Request,
    readings: Readings,
)
    ensures
        model.stage is Sending ==> model.after(ApplyNews::Sent(true), readings).1 is Read
            && model.after(ApplyNews::Sent(true), readings).0.stage is Reading && model.after(
            ApplyNews::Sent(true),
            readings,
        ).0.rounds == model.rounds,
        model.stage is Reading && confirms(tree, model.request.tablet_name, model.plan, readings)
            ==> ({
            let (next, deed) = model.after(ApplyNews::Read(Some(tree)), readings);
            &&& deed == ApplyDeed::Persist(tree)
            &&& next.stage == (ApplyStage::Persisting {
                actual: actual_area(tree, model.request),
                settings: tree,
            })
            &&& next.plan == model.plan
            &&& next.request == model.request
        }),
        model.stage == (ApplyStage::Persisting { actual: area, settings: tree }) ==> model.after(
            ApplyNews::Persisted(true),
            readings,
        ).1 == ApplyDeed::Finish(area, tree) && model.after(
            ApplyNews::Persisted(true),
            readings,
        ).0.stage is Over,
{
}

} // verus!
