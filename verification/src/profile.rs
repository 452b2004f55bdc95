//! What the driver's replies say of a tablet.

use crate::json;
use crate::json::{Json, Tree};
use vstd::prelude::*;

verus! {

/// The first tablet that the driver lists, with its name.
pub open spec fn first_tablet(result: Tree) -> Option<(Seq<char>, Tree)> {
    match result {
        Tree::Array(items) => if items.len() == 0 {
            None
        } else {
            match items[0].member("Properties"@) {
                Some(properties) => match properties.member_text("Name"@) {
                    Some(name) => Some((name, items[0])),
                    None => None,
                },
                None => None,
            }
        },
        _ => None,
    }
}

/// The first tablet that the driver lists, with its name.
pub fn tablet_from_result(result: &Json) -> (tablet: Option<(String, &Json)>)
    ensures
        match tablet {
            Some((name, t)) => first_tablet(result@) == Some((name@, t@)),
            None => first_tablet(result@) is None,
        },
{
    proof {
        reveal_strlit("Properties");
        reveal_strlit("Name");
    }
    match result.as_array() {
        None => None,
        Some(items) => {
            if items.len() == 0 {
                return None;
            }
            assert(json::trees(items@)[0] == items@[0]@);
            match items[0].json_member("Properties") {
                None => None,
                Some(properties) => match properties.json_string("Name") {
                    Some(name) => Some((name, &items[0])),
                    None => None,
                },
            }
        },
    }
}

/// The place of the first profile of a tablet from `from` on.
pub open spec fn profile_index(profiles: Seq<Tree>, tablet: Seq<char>, from: int) -> Option<int>
    decreases profiles.len() - from,
{
    if from < 0 || from >= profiles.len() {
        None
    } else if profiles[from].member_text("Tablet"@) == Some(tablet) {
        Some(from)
    } else {
        profile_index(profiles, tablet, from + 1)
    }
}

/// The profile of a tablet in the driver's settings.
pub open spec fn tablet_profile(settings: Tree, tablet: Seq<char>) -> Option<Tree> {
    match settings.member_items("Profiles"@) {
        Some(profiles) => match profile_index(profiles, tablet, 0) {
            Some(i) => Some(profiles[i]),
            None => None,
        },
        None => None,
    }
}

/// The place of a tablet's profile.
pub fn find_profile(profiles: &Vec<Json>, tablet: &str) -> (place: Option<usize>)
    ensures
        match place {
            Some(i) => i < profiles@.len() && profile_index(json::trees(profiles@), tablet@, 0)
                == Some(i as int),
            None => profile_index(json::trees(profiles@), tablet@, 0) is None,
        },
{
    proof {
        reveal_strlit("Tablet");
    }
    let ghost all = json::trees(profiles@);
    let mut i: usize = 0;
    while i < profiles.len()
        invariant
            i <= profiles@.len(),
            "Tablet"@.len() > 0,
            all == json::trees(profiles@),
            profile_index(all, tablet@, 0) == profile_index(all, tablet@, i as int),
        decreases profiles@.len() - i,
    {
        assert(all[i as int] == profiles@[i as int]@);
        if profiles[i].member_is("Tablet", tablet) {
            return Some(i);
        }
        i = i + 1;
    }
    None
}

/// The profile of a tablet in the driver's settings.
pub fn settings_for_tablet<'a>(settings: &'a Json, tablet: &str) -> (profile: Option<&'a Json>)
    ensures
        match profile {
            Some(p) => tablet_profile(settings@, tablet@) == Some(p@),
            None => tablet_profile(settings@, tablet@) is None,
        },
{
    proof {
        reveal_strlit("Profiles");
    }
    match settings.json_member("Profiles") {
        None => None,
        Some(member) => match member.as_array() {
            None => None,
            Some(profiles) => match find_profile(profiles, tablet) {
                Some(i) => {
                    assert(json::trees(profiles@)[i as int] == profiles@[i as int]@);
                    Some(&profiles[i])
                },
                None => None,
            },
        },
    }
}

// ---- the report rate ----

/// The setting holds the frequency of a filter.
pub open spec fn is_frequency(setting: Tree) -> bool {
    setting.member_text("Property"@) == Some("Frequency"@)
}

/// The text of the first frequency among some settings from `from` on.
pub open spec fn frequency_text(settings: Seq<Tree>, from: int) -> Seq<char>
    decreases settings.len() - from,
{
    if from < 0 || from >= settings.len() {
        Seq::empty()
    } else if is_frequency(settings[from]) {
        settings[from].number_text("Value"@)
    } else {
        frequency_text(settings, from + 1)
    }
}

/// The frequency of a filter, where it has one.
pub open spec fn filter_text(filter: Tree) -> Seq<char> {
    match filter.member_items("Settings"@) {
        Some(settings) => frequency_text(settings, 0),
        None => Seq::empty(),
    }
}

/// The filter is on.
pub open spec fn is_enabled(filter: Tree) -> bool {
    filter.member_bool("Enable"@) == Some(true)
}

/// The first frequency among some filters from `from` on, or among those that are on.
pub open spec fn first_frequency(filters: Seq<Tree>, enabled_only: bool, from: int) -> Seq<char>
    decreases filters.len() - from,
{
    if from < 0 || from >= filters.len() {
        Seq::empty()
    } else if (is_enabled(filters[from]) || !enabled_only) && filter_text(filters[from]).len()
        > 0 {
        filter_text(filters[from])
    } else {
        first_frequency(filters, enabled_only, from + 1)
    }
}

/// The frequency of a profile: of its first filter that is on and has one, else of its first
/// filter that has one, else 1000.
pub open spec fn profile_frequency(profile: Tree) -> Seq<char> {
    match profile.member_items("Filters"@) {
        Some(filters) => if first_frequency(filters, true, 0).len() > 0 {
            first_frequency(filters, true, 0)
        } else if first_frequency(filters, false, 0).len() > 0 {
            first_frequency(filters, false, 0)
        } else {
            "1000"@
        },
        None => "1000"@,
    }
}

fn frequency_from(filter: &Json) -> (text: String)
    ensures
        text@ == filter_text(filter@),
{
    proof {
        reveal_strlit("Settings");
        reveal_strlit("Property");
        reveal_strlit("Value");
    }
    let settings = match filter.json_member("Settings") {
        Some(member) => match member.as_array() {
            Some(settings) => settings,
            None => return String::new(),
        },
        None => return String::new(),
    };
    let ghost all = json::trees(settings@);
    let mut i: usize = 0;
    while i < settings.len()
        invariant
            i <= settings@.len(),
            "Property"@.len() > 0,
            "Value"@.len() > 0,
            all == json::trees(settings@),
            filter_text(filter@) == frequency_text(all, i as int),
        decreases settings@.len() - i,
    {
        assert(all[i as int] == settings@[i as int]@);
        if settings[i].member_is("Property", "Frequency") {
            return settings[i].json_number_string("Value");
        }
        i = i + 1;
    }
    String::new()
}

fn enabled(filter: &Json) -> (on: bool)
    ensures
        on == is_enabled(filter@),
{
    proof {
        reveal_strlit("Enable");
    }
    match filter.json_member("Enable") {
        Some(Json::Bool(on)) => *on,
        _ => false,
    }
}

fn find_frequency(filters: &Vec<Json>, enabled_only: bool) -> (text: String)
    ensures
        text@ == first_frequency(json::trees(filters@), enabled_only, 0),
{
    let ghost all = json::trees(filters@);
    let mut i: usize = 0;
    while i < filters.len()
        invariant
            i <= filters@.len(),
            all == json::trees(filters@),
            first_frequency(all, enabled_only, 0) == first_frequency(
                all,
                enabled_only,
                i as int,
            ),
        decreases filters@.len() - i,
    {
        assert(all[i as int] == filters@[i as int]@);
        if enabled(&filters[i]) || !enabled_only {
            let text = frequency_from(&filters[i]);
            if !text.as_str().is_empty() {
                return text;
            }
        }
        i = i + 1;
    }
    String::new()
}

/// The frequency of a profile.
pub fn filter_frequency(profile: &Json) -> (text: String)
    ensures
        text@ == profile_frequency(profile@),
{
    proof {
        reveal_strlit("Filters");
    }
    let filters = match profile.json_member("Filters") {
        Some(member) => match member.as_array() {
            Some(filters) => filters,
            None => return "1000".to_owned(),
        },
        None => return "1000".to_owned(),
    };
    let among_enabled = find_frequency(filters, true);
    if !among_enabled.as_str().is_empty() {
        return among_enabled;
    }
    let among_all = find_frequency(filters, false);
    if !among_all.as_str().is_empty() {
        return among_all;
    }
    "1000".to_owned()
}

// ---- laws ----

/// The tablet that is taken is the first of the driver's list, under the name that its properties
/// give; there is none in an empty list, nor where the first has no name.
pub proof fn the_first_tablet_is_taken(result: Tree)
    ensures
        result matches Tree::Array(items) ==> (items.len() > 0 ==> match items[0].member(
            "Properties"@,
        ) {
            Some(properties) => match properties.member("Name"@) {
                Some(Tree::Text(name)) => first_tablet(result) == Some((name, items[0])),
                _ => first_tablet(result) is None,
            },
            None => first_tablet(result) is None,
        }),
        result matches Tree::Array(items) ==> (items.len() == 0 ==> first_tablet(result) is None),
        !(result is Array) ==> first_tablet(result) is None,
{
}

/// A filter gives a frequency: its first setting with that property has a value, which is written
/// as this text.
pub open spec fn gives_frequency(filter: Tree, text: Seq<char>) -> bool {
    filter.member("Settings"@) matches Some(Tree::Array(items)) && exists|j: int|
        0 <= j < items.len() && (#[trigger] items[j]).member("Property"@) == Some(
            Tree::Text("Frequency"@),
        ) && text == items[j].number_text("Value"@) && text.len() > 0 && forall|m: int|
            0 <= m < j ==> (#[trigger] items[m]).member("Property"@) != Some(
                Tree::Text("Frequency"@),
            )
}

/// A filter is on.
pub open spec fn is_on(filter: Tree) -> bool {
    filter.member("Enable"@) == Some(Tree::Bool(true))
}

/// A text is the frequency of the first filter that gives one, of those that count.
pub open spec fn first_gives(filters: Seq<Tree>, only_on: bool, text: Seq<char>, k: int) -> bool {
    &&& 0 <= k < filters.len()
    &&& only_on ==> is_on(filters[k])
    &&& gives_frequency(filters[k], text)
    &&& forall|m: int, other: Seq<char>|
        #![trigger gives_frequency(filters[m], other)]
        0 <= m < k && (only_on ==> is_on(filters[m])) ==> !gives_frequency(filters[m], other)
}

/// None of the filters that count gives a frequency.
pub open spec fn none_gives(filters: Seq<Tree>, only_on: bool) -> bool {
    forall|m: int, other: Seq<char>|
        #![trigger gives_frequency(filters[m], other)]
        0 <= m < filters.len() && (only_on ==> is_on(filters[m])) ==> !gives_frequency(
            filters[m],
            other,
        )
}

proof fn given_frequency(items: Seq<Tree>, from: int)
    requires
        0 <= from <= items.len(),
        forall|m: int|
            0 <= m < from ==> (#[trigger] items[m]).member("Property"@) != Some(
                Tree::Text("Frequency"@),
            ),
    ensures
        ({
            let found = frequency_text(items, from);
            &&& found.len() > 0 ==> exists|j: int|
                0 <= j < items.len() && (#[trigger] items[j]).member("Property"@) == Some(
                    Tree::Text("Frequency"@),
                ) && found == items[j].number_text("Value"@) && forall|m: int|
                    0 <= m < j ==> (#[trigger] items[m]).member("Property"@) != Some(
                        Tree::Text("Frequency"@),
                    )
            &&& forall|j: int|
                0 <= j < items.len() && (#[trigger] items[j]).member("Property"@) == Some(
                    Tree::Text("Frequency"@),
                ) && (forall|m: int|
                    0 <= m < j ==> (#[trigger] items[m]).member("Property"@) != Some(
                        Tree::Text("Frequency"@),
                    )) ==> found == items[j].number_text("Value"@)
        }),
    decreases items.len() - from,
{
    if from < items.len() {
        if is_frequency(items[from]) {
            assert forall|j: int|
                0 <= j < items.len() && (#[trigger] items[j]).member("Property"@) == Some(
                    Tree::Text("Frequency"@),
                ) && (forall|m: int|
                    0 <= m < j ==> (#[trigger] items[m]).member("Property"@) != Some(
                        Tree::Text("Frequency"@),
                    )) implies j == from by {
                if j > from {
                    assert(items[from].member("Property"@) == Some(Tree::Text("Frequency"@)));
                }
            }
            assert(items[from].member("Property"@) == Some(Tree::Text("Frequency"@)));
        } else {
            given_frequency(items, from + 1);
        }
    }
}

proof fn filter_gives_its_text(filter: Tree)
    ensures
        filter_text(filter).len() > 0 ==> gives_frequency(filter, filter_text(filter)),
        forall|text: Seq<char>| #[trigger]
            gives_frequency(filter, text) ==> text == filter_text(filter) && text.len() > 0,
{
    match filter.member("Settings"@) {
        Some(Tree::Array(items)) => {
            given_frequency(items, 0);
            let found = frequency_text(items, 0);
            if found.len() > 0 {
                let j = choose|j: int|
                    0 <= j < items.len() && (#[trigger] items[j]).member("Property"@) == Some(
                        Tree::Text("Frequency"@),
                    ) && found == items[j].number_text("Value"@) && forall|m: int|
                        0 <= m < j ==> (#[trigger] items[m]).member("Property"@) != Some(
                            Tree::Text("Frequency"@),
                        );
                assert(items[j].member("Property"@) == Some(Tree::Text("Frequency"@)));
            }
        },
        _ => {},
    }
}

proof fn first_given_frequency(filters: Seq<Tree>, only_on: bool, from: int)
    requires
        0 <= from <= filters.len(),
        forall|m: int, other: Seq<char>|
            #![trigger gives_frequency(filters[m], other)]
            0 <= m < from && (only_on ==> is_on(filters[m])) ==> !gives_frequency(
                filters[m],
                other,
            ),
    ensures
        ({
            let found = first_frequency(filters, only_on, from);
            if found.len() > 0 {
                exists|k: int| #[trigger] first_gives(filters, only_on, found, k)
            } else {
                none_gives(filters, only_on)
            }
        }),
    decreases filters.len() - from,
{
    if from < filters.len() {
        filter_gives_its_text(filters[from]);
        if (is_enabled(filters[from]) || !only_on) && filter_text(filters[from]).len() > 0 {
            assert(first_gives(filters, only_on, filter_text(filters[from]), from));
        } else {
            first_given_frequency(filters, only_on, from + 1);
        }
    }
}

/// The frequency of a profile is that of the first filter that is on and gives one, else that of
/// the first filter that gives one, else 1000.
pub proof fn frequency_is_that_of_a_filter(profile: Tree)
    ensures
        ({
            let text = profile_frequency(profile);
            match profile.member("Filters"@) {
                Some(Tree::Array(filters)) => {
                    ||| exists|k: int| #[trigger] first_gives(filters, true, text, k)
                    ||| none_gives(filters, true) && exists|k: int| #[trigger]
                        first_gives(filters, false, text, k)
                    ||| none_gives(filters, true) && none_gives(filters, false) && text == "1000"@
                },
                _ => text == "1000"@,
            }
        }),
{
    match profile.member("Filters"@) {
        Some(Tree::Array(filters)) => {
            first_given_frequency(filters, true, 0);
            first_given_frequency(filters, false, 0);
            let among_on = first_frequency(filters, true, 0);
            let among_all = first_frequency(filters, false, 0);
            if among_on.len() > 0 {
                let k = choose|k: int| #[trigger] first_gives(filters, true, among_on, k);
                assert(first_gives(filters, true, profile_frequency(profile), k));
            } else if among_all.len() > 0 {
                let k = choose|k: int| #[trigger] first_gives(filters, false, among_all, k);
                assert(first_gives(filters, false, profile_frequency(profile), k));
            }
        },
        _ => {},
    }
}

/// The profile of a tablet is the first one that names it.
pub proof fn the_first_profile_is_taken(settings: Tree, tablet: Seq<char>)
    ensures
        match settings.member("Profiles"@) {
            Some(Tree::Array(profiles)) => match tablet_profile(settings, tablet) {
                Some(found) => exists|i: int|
                    0 <= i < profiles.len() && found == #[trigger] profiles[i] && found.member(
                        "Tablet"@,
                    ) == Some(Tree::Text(tablet)) && forall|k: int|
                        0 <= k < i ==> (#[trigger] profiles[k]).member("Tablet"@) != Some(
                            Tree::Text(tablet),
                        ),
                None => forall|k: int|
                    0 <= k < profiles.len() ==> (#[trigger] profiles[k]).member("Tablet"@) != Some(
                        Tree::Text(tablet),
                    ),
            },
            _ => tablet_profile(settings, tablet) is None,
        },
{
    match settings.member("Profiles"@) {
        Some(Tree::Array(profiles)) => {
            index_is_first(profiles, tablet, 0);
            match profile_index(profiles, tablet, 0) {
                Some(i) => {
                    assert(profiles[i].member("Tablet"@) == Some(Tree::Text(tablet)));
                },
                None => {},
            }
        },
        _ => {},
    }
}

/// The place of a tablet's profile is the first one that names it.
pub proof fn index_is_first(profiles: Seq<Tree>, tablet: Seq<char>, from: int)
    requires
        0 <= from,
    ensures
        match profile_index(profiles, tablet, from) {
            Some(i) => from <= i < profiles.len() && profiles[i].member("Tablet"@) == Some(
                Tree::Text(tablet),
            ) && forall|k: int|
                from <= k < i ==> (#[trigger] profiles[k]).member("Tablet"@) != Some(
                    Tree::Text(tablet),
                ),
            None => forall|k: int|
                from <= k < profiles.len() ==> (#[trigger] profiles[k]).member("Tablet"@) != Some(
                    Tree::Text(tablet),
                ),
        },
    decreases profiles.len() - from,
{
    if from < profiles.len() && profiles[from].member_text("Tablet"@) != Some(tablet) {
        index_is_first(profiles, tablet, from + 1);
    }
}

} // verus!
