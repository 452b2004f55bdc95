use serde_json::Value;
use tabletflow::apply::{
    begin_apply, confirm, frequency_shown, plan_area, ApplyAction, ApplyBegin, ApplyEvent,
    ApplyStart, Confirmation, ConfirmStep,
};
use tabletflow::display::DisplayInfo;
use tabletflow::json::{Json, JsonEntry, JsonNumber};
use tabletflow::models::AreaRequest;
use tabletflow::readings::{Reading, Readings};

const TABLET: &str = "Test Tablet";

fn read(value: &Value) -> Json {
    match value {
        Value::Null => Json::Null,
        Value::Bool(flag) => Json::Bool(*flag),
        Value::Number(number) => Json::Number(match number.as_i64() {
            Some(integer) => JsonNumber::Integer(integer as i128),
            None => match number.as_u64() {
                Some(integer) => JsonNumber::Integer(integer as i128),
                None => JsonNumber::Double(number.as_f64().unwrap().to_bits()),
            },
        }),
        Value::String(text) => Json::Text(text.clone()),
        Value::Array(items) => Json::Array(items.iter().map(read).collect()),
        Value::Object(entries) => {
            let mut list = Vec::new();
            for (key, value) in entries {
                list.push(JsonEntry { key: key.clone(), value: read(value) });
            }
            Json::Object(list)
        }
    }
}

fn json(text: &str) -> Json {
    read(&serde_json::from_str(text).unwrap())
}

fn readings(texts: &[&str]) -> Readings {
    let mut list = Vec::new();
    for text in texts {
        list.push(Reading {
            text: text.to_string(),
            single: text.parse::<f32>().ok().map(f32::to_bits),
            double: text.parse::<f64>().ok().map(f64::to_bits),
        });
    }
    Readings { list }
}

fn known() -> Readings {
    readings(&["150", "90", "75", "45", "0", "500", "1000", "152", "95"])
}

/// `tablet` is (Width, Height, X, Y, Rotation); `display` is (Width, Height, X, Y).
fn settings_with(tablet: [f64; 5], display: [f64; 4], frequency: f64) -> Json {
    let [tablet_w, tablet_h, tablet_x, tablet_y, rotation] = tablet;
    let [display_w, display_h, display_x, display_y] = display;
    json(&format!(
        "{{\"Profiles\": [{{\"Tablet\": \"{TABLET}\", \"AbsoluteModeSettings\": {{\
         \"Tablet\": {{\"Width\": {tablet_w:?}, \"Height\": {tablet_h:?}, \"X\": {tablet_x:?}, \
         \"Y\": {tablet_y:?}, \"Rotation\": {rotation:?}}}, \
         \"Display\": {{\"Width\": {display_w:?}, \"Height\": {display_h:?}, \
         \"X\": {display_x:?}, \"Y\": {display_y:?}}}}}, \
         \"Filters\": [{{\"Enable\": true, \"Settings\": [{{\"Property\": \"Frequency\", \
         \"Value\": {frequency:?}}}]}}]}}]}}"
    ))
}

fn area_request(display: Option<DisplayInfo>) -> AreaRequest {
    AreaRequest {
        tablet_name: TABLET.to_string(),
        width: "150".to_string(),
        height: "90".to_string(),
        x: "75".to_string(),
        y: "45".to_string(),
        rotation: "0".to_string(),
        frequency: "500".to_string(),
        display,
    }
}

fn display_info() -> DisplayInfo {
    DisplayInfo {
        index: 0,
        label: "Display 1".into(),
        width: 1920f32.to_bits(),
        height: 1080f32.to_bits(),
        x: 960f32.to_bits(),
        y: 540f32.to_bits(),
        detected: true,
        primary: true,
    }
}

/// Plays an application against a driver that gives the scripted settings back, one after
/// the other, and then fails.
fn apply_area(
    responses: Vec<Json>,
    settings: Json,
    request: AreaRequest,
) -> Result<AreaRequest, &'static str> {
    let mut responses = responses.into_iter();
    let begin = tabletflow::apply::apply_area(&settings, request, &known());
    let (mut application, mut event) = match begin {
        ApplyBegin::Refused(_) => return Err("refused"),
        ApplyBegin::Read(application) => (application, ApplyEvent::Read(responses.next())),
        ApplyBegin::Send(application, _) => (application, ApplyEvent::Sent(true)),
    };
    loop {
        event = match application.step(event, &known()) {
            ApplyAction::Read => ApplyEvent::Read(responses.next()),
            ApplyAction::Persist(_) => ApplyEvent::Persisted(true),
            ApplyAction::Finish(actual, _) => return Ok(actual),
            ApplyAction::Fail => return Err("failed"),
            ApplyAction::TimeOut => return Err("timed out"),
        };
    }
}

#[test]
fn confirmed_readback_reports_actual_tablet_display_and_frequency() {
    let responses = vec![settings_with(
        [150.0, 90.0, 75.0, 45.0, 0.0],
        [1920.0, 1080.0, 960.0, 540.0],
        500.0,
    )];
    let settings = settings_with(
        [152.0, 95.0, 0.0, 0.0, 0.0],
        [1920.0, 1080.0, 0.0, 0.0],
        1000.0,
    );
    let result = apply_area(responses, settings, area_request(Some(display_info())));
    let actual = result.expect("readback should confirm the requested area");
    assert_eq!(actual.width, "150");
    assert_eq!(actual.height, "90");
    assert_eq!(actual.frequency, "500");
}

#[test]
fn tablet_matches_but_display_mismatch_is_a_failure() {
    let responses = vec![settings_with(
        [150.0, 90.0, 75.0, 45.0, 0.0],
        [1920.0, 1080.0, 0.0, 0.0],
        500.0,
    )];
    let settings = settings_with(
        [152.0, 95.0, 0.0, 0.0, 0.0],
        [1920.0, 1080.0, 0.0, 0.0],
        1000.0,
    );
    let result = apply_area(responses, settings, area_request(Some(display_info())));
    assert!(
        result.is_err(),
        "a display-area mismatch must fail confirmation even though the tablet area matched"
    );
}

#[test]
fn tablet_matches_but_frequency_mismatch_is_a_failure() {
    let responses = vec![settings_with(
        [150.0, 90.0, 75.0, 45.0, 0.0],
        [1920.0, 1080.0, 960.0, 540.0],
        1000.0,
    )];
    let settings = settings_with(
        [152.0, 95.0, 0.0, 0.0, 0.0],
        [1920.0, 1080.0, 960.0, 540.0],
        1000.0,
    );
    let result = apply_area(responses, settings, area_request(None));
    assert!(
        result.is_err(),
        "a frequency mismatch must fail confirmation even though the tablet area matched"
    );
}

#[test]
fn failed_readback_never_yields_an_ok_result() {
    let settings = settings_with(
        [152.0, 95.0, 0.0, 0.0, 0.0],
        [1920.0, 1080.0, 960.0, 540.0],
        1000.0,
    );
    let result = apply_area(Vec::new(), settings, area_request(None));
    assert!(matches!(result, Err("timed out")));
}

#[test]
fn a_later_readback_may_confirm() {
    let settings = settings_with(
        [152.0, 95.0, 0.0, 0.0, 0.0],
        [1920.0, 1080.0, 960.0, 540.0],
        1000.0,
    );
    let wanted = settings_with(
        [150.004, 90.0, 75.0, 45.0, 0.0],
        [1920.0, 1080.0, 960.0, 540.0],
        499.6,
    );
    let responses = vec![settings.copy(), Json::Null, settings.copy(), settings.copy(), wanted];
    let mut waiting = match begin_apply(&settings, &area_request(None), &known()) {
        Ok(ApplyStart::Send(plan)) => Confirmation::new(plan, area_request(None)),
        other => panic!("{other:?}"),
    };
    let seen = readings(&["1000", "499.60"]);
    for (round, response) in responses.iter().enumerate() {
        match waiting.on_readback(Some(response), &seen) {
            ConfirmStep::Confirmed(actual) => {
                assert_eq!(round, 4);
                assert_eq!(actual.width, "150.00");
                assert_eq!(actual.frequency, "499.60");
            }
            ConfirmStep::ReadAgain => assert!(round < 4),
            ConfirmStep::TimedOut => panic!("not confirmed"),
        }
    }
}

#[test]
fn settings_that_are_so_already_are_not_sent() {
    let settings = settings_with(
        [150.0, 90.0, 75.0, 45.0, 0.0],
        [1920.0, 1080.0, 960.0, 540.0],
        500.0,
    );
    let start = begin_apply(&settings, &area_request(Some(display_info())), &known());
    assert!(matches!(start, Ok(ApplyStart::Read(_))));
}

#[test]
fn an_area_that_is_so_already_is_read_back() {
    let settings = || {
        settings_with([150.0, 90.0, 75.0, 45.0, 0.0], [1920.0, 1080.0, 960.0, 540.0], 500.0)
    };
    let mut request = area_request(None);
    request.width = "150.0".to_string();
    request.frequency = "5e2".to_string();
    let texts = ["150.0", "90", "75", "45", "0", "5e2", "500"];
    let mut application = match tabletflow::apply::apply_area(&settings(), request, &readings(&texts))
    {
        ApplyBegin::Read(application) => application,
        other => panic!("{other:?}"),
    };
    let known = readings(&texts);
    match application.step(ApplyEvent::Read(Some(settings())), &known) {
        ApplyAction::Persist(_) => {}
        other => panic!("{other:?}"),
    }
    match application.step(ApplyEvent::Persisted(true), &known) {
        ApplyAction::Finish(actual, kept) => {
            assert_eq!(actual.width, "150");
            assert_eq!(actual.frequency, "500");
            assert!(kept.same(&settings()));
        }
        other => panic!("{other:?}"),
    }
    // What the driver does not have is not reported, even where nothing had to be sent.
    let moved = settings_with([150.0, 90.0, 0.0, 0.0, 0.0], [1920.0, 1080.0, 960.0, 540.0], 500.0);
    let result = apply_area(vec![moved], settings(), area_request(None));
    assert!(matches!(result, Err("timed out")));
    let bare = || {
        json(
            "{\"Profiles\": [{\"Tablet\": \"Test Tablet\", \"AbsoluteModeSettings\": \
             {\"Tablet\": {\"Width\": 150.0, \"Height\": 90.0, \"X\": 75.0, \"Y\": 45.0, \
             \"Rotation\": 0.0}}}]}",
        )
    };
    // No filter of the profile has a frequency, so the driver's own one is reported.
    let actual = apply_area(vec![bare()], bare(), area_request(None)).unwrap();
    assert_eq!(actual.frequency, "1000");
}

#[test]
fn what_was_sent_confirms_itself() {
    let settings = settings_with(
        [152.0, 95.0, 0.0, 0.0, 0.0],
        [1920.0, 1080.0, 0.0, 0.0],
        1000.0,
    );
    let request = area_request(Some(display_info()));
    let plan = plan_area(&settings, &request, &known()).unwrap();
    let actual = confirm(&plan, &request, &plan.settings, &known()).unwrap();
    assert_eq!(actual.x, "75");
    assert_eq!(actual.rotation, "0");
    assert_eq!(frequency_shown(&plan.settings, TABLET), Some("500".to_string()));
    assert_eq!(frequency_shown(&plan.settings, "Other"), None);
}

#[test]
fn only_the_profile_of_the_tablet_changes() {
    let settings = json(
        "{\"profiles\": [{\"tablet\": \"Other\", \"x\": 1}, {\"tablet\": \"Test Tablet\", \
         \"absoluteModeSettings\": {\"tablet\": {\"width\": 1, \"height\": 1, \"x\": 1, \"y\": 1, \
         \"rotation\": 1}}}], \"Other\": true}",
    );
    let plan = plan_area(&settings, &area_request(None), &known()).unwrap();
    let wanted = json(
        "{\"profiles\": [{\"tablet\": \"Other\", \"x\": 1}, {\"tablet\": \"Test Tablet\", \
         \"absoluteModeSettings\": {\"tablet\": {\"width\": 150.0, \"height\": 90.0, \"x\": 75.0, \
         \"y\": 45.0, \"rotation\": 0.0}}}], \"Other\": true}",
    );
    assert!(plan.settings.same(&wanted));
    assert!(!plan.settings.same(&settings));
    assert_eq!(plan.frequency, None);
}

#[test]
fn impossible_areas_are_refused() {
    let refusal = |settings: &str, request: AreaRequest| {
        plan_area(&json(settings), &request, &known()).unwrap_err().message()
    };
    assert_eq!(refusal("{}", area_request(None)), "Profiles missing");
    assert_eq!(refusal("{\"Profiles\": 1}", area_request(None)), "Profiles missing");
    assert_eq!(refusal("{\"Profiles\": []}", area_request(None)), "Tablet profile missing");
    assert_eq!(
        refusal("{\"Profiles\": [{\"Tablet\": \"Test Tablet\"}]}", area_request(None)),
        "Tablet area missing"
    );
    let bare = "{\"Profiles\": [{\"Tablet\": \"Test Tablet\", \"AbsoluteModeSettings\": \
                {\"Tablet\": {\"Width\": 1, \"Height\": 1}}}]}";
    assert_eq!(refusal(bare, area_request(None)), "Area field X missing");
    let mut request = area_request(None);
    request.width = "0".to_string();
    assert_eq!(refusal(bare, request), "Width must be greater than 0");
    let plain = "{\"Profiles\": [{\"Tablet\": \"Test Tablet\", \"AbsoluteModeSettings\": \
                 {\"Tablet\": {\"Width\": 1, \"Height\": 1, \"X\": 1, \"Y\": 1, \"Rotation\": 1}}}]}";
    assert_eq!(refusal(plain, area_request(Some(display_info()))), "Display area missing");
    let shown = "{\"Profiles\": [{\"Tablet\": \"Test Tablet\", \"AbsoluteModeSettings\": \
                 {\"Display\": {\"Width\": 1}, \
                 \"Tablet\": {\"Width\": 1, \"Height\": 1, \"X\": 1, \"Y\": 1, \"Rotation\": 1}}}]}";
    assert_eq!(
        refusal(shown, area_request(Some(display_info()))),
        "Display field Height missing"
    );
    let mut request = area_request(None);
    request.frequency = "0".to_string();
    assert_eq!(refusal(plain, request), "Frequency must be between 1 and 1000 Hz");
}

#[test]
fn an_application_fails_with_what_it_asks_for() {
    let settings = || {
        settings_with([152.0, 95.0, 0.0, 0.0, 0.0], [1920.0, 1080.0, 960.0, 540.0], 1000.0)
    };
    let wanted = || {
        settings_with([150.0, 90.0, 75.0, 45.0, 0.0], [1920.0, 1080.0, 960.0, 540.0], 500.0)
    };
    let begin = || match tabletflow::apply::apply_area(&settings(), area_request(None), &known()) {
        ApplyBegin::Send(application, sent) => {
            assert!(sent.same(&wanted()));
            application
        }
        other => panic!("{other:?}"),
    };
    let mut application = begin();
    assert!(matches!(application.step(ApplyEvent::Sent(false), &known()), ApplyAction::Fail));
    let mut application = begin();
    assert!(matches!(application.step(ApplyEvent::Sent(true), &known()), ApplyAction::Read));
    match application.step(ApplyEvent::Read(Some(wanted())), &known()) {
        ApplyAction::Persist(kept) => assert!(kept.same(&wanted())),
        other => panic!("{other:?}"),
    }
    assert!(matches!(application.step(ApplyEvent::Persisted(false), &known()), ApplyAction::Fail));
    let mut request = area_request(None);
    request.x = "?".to_string();
    assert!(matches!(
        tabletflow::apply::apply_area(&settings(), request, &known()),
        ApplyBegin::Refused(_)
    ));
    assert!(matches!(
        tabletflow::apply::apply_area(&wanted(), area_request(None), &known()),
        ApplyBegin::Read(_)
    ));
}
