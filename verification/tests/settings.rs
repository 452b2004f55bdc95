use tabletflow::readings::{Reading, Readings};
use tabletflow::settings::{parse_bool, parse_float, readable, settings_numbers, Settings};

fn readings(texts: &[String]) -> Readings {
    let mut list = Vec::new();
    for text in texts {
        list.push(Reading {
            text: text.clone(),
            single: text.parse::<f32>().ok().map(f32::to_bits),
            double: text.parse::<f64>().ok().map(f64::to_bits),
        });
    }
    Readings { list }
}

fn parse(contents: &str, defaults: Settings) -> Settings {
    Settings::parse(contents, &readings(&settings_numbers(contents)), defaults)
}

#[test]
fn platform_default_controls_close_to_tray() {
    assert!(Settings::defaults_for(true).close_to_tray);
}

#[test]
fn parser_clamps_and_rejects_invalid_values() {
    let defaults = Settings::defaults_for(true);
    let parsed = parse(
        "theme=Dark\ncustom_background_hue=999\ncustom_accent_value=nan\npolling_interval=High\n",
        defaults,
    );
    assert_eq!(parsed.theme, "Dark");
    assert_eq!(f32::from_bits(parsed.custom_background_hue), 360.0);
    assert_eq!(f32::from_bits(parsed.custom_accent_value), 0.86);
    assert_eq!(parsed.polling_interval, "High");
}

#[test]
fn parsers_reject_invalid_values() {
    let known = readings(&["999".to_string(), "nan".to_string()]);
    let (ten, zero, full) = (10f32.to_bits(), 0f32.to_bits(), 360f32.to_bits());
    assert!(parse_bool("true", false));
    assert!(!parse_bool("invalid", false));
    assert_eq!(f32::from_bits(parse_float("999", &known, ten, zero, full)), 360.0);
    assert_eq!(f32::from_bits(parse_float("nan", &known, ten, zero, full)), 10.0);
}

#[test]
fn defaults_are_the_usual_ones() {
    let defaults = Settings::defaults_for(false);
    assert_eq!(defaults.theme, "System");
    assert_eq!(defaults.accent, "Blue");
    assert_eq!(f32::from_bits(defaults.custom_background_hue), 212.0);
    assert_eq!(f32::from_bits(defaults.custom_background_saturation), 0.10);
    assert_eq!(f32::from_bits(defaults.custom_background_value), 0.96);
    assert_eq!(f32::from_bits(defaults.custom_accent_hue), 212.0);
    assert_eq!(f32::from_bits(defaults.custom_accent_saturation), 0.42);
    assert_eq!(f32::from_bits(defaults.custom_accent_value), 0.86);
    assert!(defaults.check_updates);
    assert!(defaults.pause_hidden);
    assert!(!defaults.close_to_tray);
    assert_eq!(defaults.polling_interval, "Auto");
}

#[test]
fn settings_are_written_in_order() {
    let settings = Settings::defaults_for(true);
    assert_eq!(
        settings.serialize(),
        "theme=System\naccent=Blue\ncustom_colors=false\ncustom_background_hue=212.00\n\
         custom_background_saturation=0.1000\ncustom_background_value=0.9600\n\
         custom_accent_hue=212.00\ncustom_accent_saturation=0.4200\ncustom_accent_value=0.8600\n\
         compact_ui=false\nreduce_animations=false\nstart_with_system=false\n\
         start_minimized=false\nclose_to_tray=true\ncheck_updates=true\npause_hidden=true\n\
         disable_unfocused_animations=false\npolling_interval=Auto\nlow_power_mode=false\n\
         show_diagnostics=false\n"
    );
}

#[test]
fn written_settings_are_read_back() {
    let mut settings = Settings::defaults_for(false);
    settings.theme = "Light".to_string();
    settings.accent = "Mint".to_string();
    settings.custom_colors = true;
    settings.custom_background_hue = 123.25f32.to_bits();
    settings.custom_accent_value = 0.5f32.to_bits();
    settings.start_with_system = true;
    settings.show_diagnostics = true;
    settings.polling_interval = "Low".to_string();
    let contents = settings.serialize();
    let read = parse(&contents, Settings::defaults_for(true));
    assert_eq!(read.serialize(), contents);
    assert_eq!(read.theme, "Light");
    assert_eq!(f32::from_bits(read.custom_background_hue), 123.25);
    assert!(!read.close_to_tray);
}

#[test]
fn saving_what_was_read_gives_the_same_file() {
    for (hue, value) in [(123.456f32, 0.123_456f32), (0.005, 0.999_96), (359.996, 0.0), (-0.0, 1.0)]
    {
        let mut settings = Settings::defaults_for(false);
        settings.custom_background_hue = hue.to_bits();
        settings.custom_accent_value = value.to_bits();
        let contents = settings.serialize();
        let mut other = Settings::defaults_for(true);
        other.custom_background_hue = 77f32.to_bits();
        other.theme = "Dark".to_string();
        let read = parse(&contents, other);
        assert_eq!(read.serialize(), contents);
        assert_eq!(read.custom_background_hue, format!("{hue:.2}").parse::<f32>().unwrap().to_bits());
        assert_eq!(read.custom_accent_value, format!("{value:.4}").parse::<f32>().unwrap().to_bits());
        assert_eq!(read.theme, "System");
        assert!(!read.close_to_tray);
    }
}

#[test]
fn an_empty_file_gives_the_defaults() {
    let mut defaults = Settings::defaults_for(true);
    defaults.accent = "Mint".to_string();
    defaults.custom_accent_hue = 12.345f32.to_bits();
    let read = parse("", defaults.clone());
    assert_eq!(read.custom_accent_hue, defaults.custom_accent_hue);
    assert_eq!(read.serialize(), defaults.serialize());
}

#[test]
fn unknown_lines_are_passed_over() {
    let read = parse(
        "nonsense\ntheme=Purple\naccent=Amber\r\nTHEME=Dark\ncompact_ui=true\ncompact_ui=maybe\n\
         custom_accent_saturation=-3\npause_hidden=false=\n\n=\ncheck_updates=false",
        Settings::defaults_for(false),
    );
    assert_eq!(read.theme, "System");
    assert_eq!(read.accent, "Amber");
    assert!(read.compact_ui);
    assert_eq!(f32::from_bits(read.custom_accent_saturation), 0.0);
    assert!(read.pause_hidden);
    assert!(!read.check_updates);
}

#[test]
fn only_colours_are_read_as_numbers() {
    assert_eq!(
        settings_numbers("theme=1\ncustom_accent_hue=12\nx=3\ncustom_background_value=no\n"),
        vec!["12".to_string(), "no".to_string()]
    );
}

#[test]
fn the_first_file_that_can_be_read_counts() {
    let contents = vec![None, Some("theme=Dark".to_string()), Some("theme=Light".to_string())];
    assert_eq!(readable(&contents), Some(1));
    assert_eq!(Settings::load(&contents, &readings(&[]), false).theme, "Dark");
    assert_eq!(Settings::load(&vec![None], &readings(&[]), true).theme, "System");
    assert!(Settings::load(&Vec::new(), &readings(&[]), true).close_to_tray);
}
