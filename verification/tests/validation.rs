use tabletflow::readings::{Reading, Readings};
use tabletflow::validation::{finite_number, frequency, positive_dimension, rotation};

fn readings(texts: &[&str]) -> Readings {
    let mut list = Vec::new();
    for text in texts {
        list.push(Reading {
            text: text.to_string(),
            single: text.parse::<f32>().ok().map(f32::to_bits),
            double: text.parse::<f64>().ok().map(f64::to_bits),
        });
    }
    Readings { list }
}

#[test]
fn frequency_rejects_invalid_values() {
    let known = readings(&["0", "1001", "nan", "500"]);
    assert!(frequency("0", &known).is_err());
    assert!(frequency("1001", &known).is_err());
    assert!(frequency("nan", &known).is_err());
    assert_eq!(f64::from_bits(frequency("500", &known).unwrap()), 500.0);
}

#[test]
fn positive_dimension_rejects_zero_and_negative() {
    let known = readings(&["0", "-1", "152.4"]);
    assert!(positive_dimension("Width", "0", &known).is_err());
    assert!(positive_dimension("Width", "-1", &known).is_err());
    assert_eq!(
        f64::from_bits(positive_dimension("Width", "152.4", &known).unwrap()),
        152.4
    );
}

#[test]
fn rotation_rejects_out_of_range_values() {
    let known = readings(&["361", "-361", "-360", "360"]);
    assert!(rotation("361", &known).is_err());
    assert!(rotation("-361", &known).is_err());
    assert_eq!(f64::from_bits(rotation("-360", &known).unwrap()), -360.0);
    assert_eq!(f64::from_bits(rotation("360", &known).unwrap()), 360.0);
}

#[test]
fn refusals_say_what_is_wrong() {
    let known = readings(&["0", "inf", "400", "x", "1", "1000"]);
    assert_eq!(
        frequency("0", &known).unwrap_err().message(),
        "Frequency must be between 1 and 1000 Hz"
    );
    assert_eq!(
        rotation("400", &known).unwrap_err().message(),
        "Rotation must be between -360 and 360 degrees"
    );
    assert_eq!(
        positive_dimension("Width", "0", &known).unwrap_err().message(),
        "Width must be greater than 0"
    );
    assert_eq!(finite_number("X", "inf", &known).unwrap_err().message(), "Invalid value for X");
    assert_eq!(finite_number("X", "x", &known).unwrap_err().message(), "Invalid value for X");
    assert_eq!(f64::from_bits(frequency("1", &known).unwrap()), 1.0);
    assert_eq!(f64::from_bits(frequency("1000", &known).unwrap()), 1000.0);
}
