use serde_json::Value;
use tabletflow::display::DisplayInfo;
use tabletflow::json::{Json, JsonEntry, JsonNumber};
use tabletflow::profile::{filter_frequency, settings_for_tablet, tablet_from_result};
use tabletflow::query::{
    build_snapshot, query_backend, query_tablets, target_display, DriverCall, QueryMemory,
    QueryRules, QueryState, QueryStep,
};

const MAPPING: QueryRules = QueryRules { restore_pipeline: false, auto_map: true };
const RESTORING: QueryRules = QueryRules { restore_pipeline: true, auto_map: false };

fn read(value: &Value) -> Json {
    match value {
        Value::Null => Json::Null,
        Value::Bool(flag) => Json::Bool(*flag),
        Value::Number(number) => Json::Number(match number.as_i64() {
            Some(integer) => JsonNumber::Integer(integer as i128),
            None => match number.as_u64() {
                Some(integer) => JsonNumber::Integer(integer as i128),
                None => JsonNumber::Double(number.as_f64().unwrap().to_bits()),
            },
        }),
        Value::String(text) => Json::Text(text.clone()),
        Value::Array(items) => Json::Array(items.iter().map(read).collect()),
        Value::Object(entries) => {
            let mut list = Vec::new();
            for (key, value) in entries {
                list.push(JsonEntry { key: key.clone(), value: read(value) });
            }
            Json::Object(list)
        }
    }
}

fn json(text: &str) -> Json {
    read(&serde_json::from_str(text).unwrap())
}

fn tablets() -> Json {
    json(
        "[{\"Properties\": {\"Name\": \"Pen\", \"Specifications\": {\"Digitizer\": \
         {\"Width\": 216.5, \"Height\": 135}}}}]",
    )
}

fn settings() -> Json {
    json(
        "{\"Profiles\": [{\"Tablet\": \"Pen\", \"AbsoluteModeSettings\": {\
         \"Display\": {\"Width\": 1920, \"Height\": 1080, \"X\": 960, \"Y\": 540}, \
         \"Tablet\": {\"Width\": 100.125, \"Height\": 60, \"X\": 50, \"Y\": 30, \"Rotation\": 0}}, \
         \"Filters\": [{\"Enable\": false, \"Settings\": [{\"Property\": \"Frequency\", \
         \"Value\": 300}]}, {\"Enable\": true, \"Settings\": [{\"Property\": \"Frequency\", \
         \"Value\": 500}]}]}]}",
    )
}

fn display(index: i32, width: f32, x: f32, primary: bool) -> DisplayInfo {
    DisplayInfo {
        index,
        label: format!("Display {index}"),
        width: width.to_bits(),
        height: 1080f32.to_bits(),
        x: x.to_bits(),
        y: 540f32.to_bits(),
        detected: true,
        primary,
    }
}

fn fresh() -> QueryMemory {
    QueryMemory { driver_settings: None, mapping_attempted: false }
}

fn state_of(step: QueryStep) -> (DriverCall, QueryState) {
    match step {
        QueryStep::Call(call, state) => (call, state),
        other => panic!("{other:?}"),
    }
}

#[test]
fn a_tablet_is_described_by_its_replies() {
    let list = vec![display(4, 1920.0, 960.0, true)];
    let tablets = tablets();
    let (name, tablet) = tablet_from_result(&tablets).unwrap();
    assert_eq!(name, "Pen");
    let snapshot = build_snapshot("Pen", tablet, &settings(), &list);
    assert_eq!(snapshot.state, "ready");
    assert_eq!(snapshot.device_name, "Pen");
    assert_eq!(f32::from_bits(snapshot.tablet_width), 216.5);
    assert_eq!(f32::from_bits(snapshot.tablet_height), 135.0);
    assert_eq!(f32::from_bits(snapshot.preview_width), 192.0);
    assert_eq!(f32::from_bits(snapshot.preview_height), 108.0);
    assert_eq!(snapshot.area_width, "100.12");
    assert_eq!(snapshot.area_height, "60");
    assert_eq!(snapshot.area_frequency, "500");
    assert_eq!(snapshot.monitor_index, 4);
    assert!(snapshot.pen_data_available);
}

#[test]
fn a_tablet_without_a_profile_has_the_usual_sizes() {
    let odd = json("[{\"Properties\": {\"Name\": \"Pen\"}}]");
    let (_, tablet) = tablet_from_result(&odd).unwrap();
    let snapshot = build_snapshot("Pen", tablet, &Json::Null, &Vec::new());
    assert_eq!(f32::from_bits(snapshot.tablet_width), 152.0);
    assert_eq!(f32::from_bits(snapshot.preview_height), 95.0);
    assert_eq!(snapshot.area_frequency, "1000");
    assert_eq!(snapshot.area_width, "");
    assert_eq!(snapshot.monitor_index, -1);
    assert!(!snapshot.pen_data_available);
}

#[test]
fn profiles_are_found_by_the_tablets_name() {
    let settings = settings();
    assert!(settings_for_tablet(&settings, "Pen").is_some());
    assert!(settings_for_tablet(&settings, "pen").is_none());
    assert!(tablet_from_result(&Json::Null).is_none());
    assert!(tablet_from_result(&json("[]")).is_none());
    assert!(tablet_from_result(&json("[{\"Properties\": {}}]")).is_none());
}

#[test]
fn enabled_filters_give_the_frequency_first() {
    let frequency = |text: &str| filter_frequency(&json(text));
    assert_eq!(frequency("{}"), "1000");
    assert_eq!(frequency("{\"Filters\": []}"), "1000");
    assert_eq!(
        frequency(
            "{\"Filters\": [{\"Settings\": [{\"Property\": \"Frequency\", \"Value\": 250.5}]}]}"
        ),
        "250.50"
    );
    assert_eq!(
        frequency(
            "{\"Filters\": [{\"Settings\": [{\"Property\": \"Frequency\", \"Value\": \"x\"}]}]}"
        ),
        "1000"
    );
}

#[test]
fn a_query_without_a_detection_asks_for_tablets_and_settings() {
    let mut memory = fresh();
    memory.mapping_attempted = true;
    let list = Vec::new();
    let (call, state) = state_of(query_tablets(false));
    assert!(matches!(call, DriverCall::GetTablets));
    let (call, state) =
        state_of(query_backend(state, Some(tablets()), RESTORING, &list, &mut memory));
    assert!(matches!(call, DriverCall::GetSettings));
    match query_backend(state, Some(settings()), RESTORING, &list, &mut memory) {
        QueryStep::Done(snapshot) => assert_eq!(snapshot.state, "ready"),
        other => panic!("{other:?}"),
    }
    assert!(memory.driver_settings.is_some());
}

#[test]
fn a_detection_restores_the_pipeline() {
    let mut memory = fresh();
    let list = Vec::new();
    let (call, state) = state_of(query_tablets(true));
    assert!(matches!(call, DriverCall::DetectTablets));
    let (call, state) =
        state_of(query_backend(state, Some(json("[]")), RESTORING, &list, &mut memory));
    assert!(matches!(call, DriverCall::GetSettings));
    let (call, state) =
        state_of(query_backend(state, Some(settings()), RESTORING, &list, &mut memory));
    match call {
        DriverCall::SetSettings(sent) => assert!(sent.same(&settings())),
        other => panic!("{other:?}"),
    }
    let (call, state) =
        state_of(query_backend(state, Some(Json::Null), RESTORING, &list, &mut memory));
    assert!(matches!(call, DriverCall::GetSettings));
    match query_backend(state, Some(settings()), RESTORING, &list, &mut memory) {
        QueryStep::Done(snapshot) => assert_eq!(snapshot.state, "no-tablet"),
        other => panic!("{other:?}"),
    }
    assert!(memory.driver_settings.is_some());
}

#[test]
fn a_failed_call_fails_the_query() {
    let mut memory = fresh();
    let (_, state) = state_of(query_tablets(false));
    let step = query_backend(state, None, MAPPING, &Vec::new(), &mut memory);
    assert!(matches!(step, QueryStep::Failed));
}

#[test]
fn an_unmapped_tablet_is_mapped_once() {
    let mut memory = fresh();
    let list = vec![display(0, 2560.0, 1280.0, false), display(1, 1280.0, 3200.0, true)];
    memory.driver_settings = Some(settings());
    let (_, state) = state_of(query_tablets(false));
    let step = query_backend(state, Some(tablets()), MAPPING, &list, &mut memory);
    let (request, state) = match step {
        QueryStep::MapTo(request, state) => (request, state),
        other => panic!("{other:?}"),
    };
    assert!(memory.mapping_attempted);
    assert_eq!(request.tablet_name, "Pen");
    assert_eq!(request.width, "100.12");
    assert_eq!(request.frequency, "500");
    assert_eq!(request.display.unwrap().index, 1);
    match query_backend(state, Some(settings()), MAPPING, &list, &mut memory) {
        QueryStep::Done(snapshot) => {
            assert_eq!(snapshot.monitor_index, 1);
            assert_eq!(f32::from_bits(snapshot.preview_width), 128.0);
        }
        other => panic!("{other:?}"),
    }
    let (_, state) = state_of(query_tablets(false));
    let step = query_backend(state, Some(tablets()), MAPPING, &list, &mut memory);
    assert!(matches!(step, QueryStep::Done(_)));
}

#[test]
fn the_primary_display_is_the_target() {
    let mut list = vec![display(0, 1.0, 0.0, false), display(1, 1.0, 0.0, true)];
    assert_eq!(target_display(&list).unwrap().index, 1);
    list[1].primary = false;
    assert_eq!(target_display(&list).unwrap().index, 0);
    list[0].detected = false;
    list[1].detected = false;
    assert!(target_display(&list).is_none());
}

#[test]
fn members_may_be_written_in_lower_case() {
    let value = json("{\"Width\": 2.5, \"height\": 3, \"name\": \"n\", \"Off\": true}");
    assert_eq!(value.json_number("Width").map(f64::from_bits), Some(2.5));
    assert_eq!(value.json_number("Height").map(f64::from_bits), Some(3.0));
    assert_eq!(value.json_string("Name"), Some("n".to_string()));
    assert_eq!(value.json_string("Width"), None);
    assert_eq!(value.json_number_string("Width"), "2.50");
    assert_eq!(value.json_number_string("Height"), "3");
    assert_eq!(value.json_number_string("Depth"), "");
    assert!(value.json_member("off").is_none());
    assert!(value.member_is("Name", "n"));
    let mut changed = value.copy();
    *changed.json_member_mut("Height").unwrap() = Json::Null;
    assert!(matches!(changed.get("height"), Some(Json::Null)));
    assert!(!changed.same(&value));
}

#[test]
fn integers_and_doubles_are_told_apart() {
    assert!(json("1").same(&json("1")));
    assert!(!json("1").same(&json("1.0")));
    assert!(json("0.0").same(&json("-0.0")));
    assert!(json("{\"a\": [1, null, \"x\"]}").same(&json("{\"a\": [1, null, \"x\"]}")));
    assert!(!json("[1]").same(&json("[1, 2]")));
}
