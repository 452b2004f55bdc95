//! Which numbers a tablet area may have.

use crate::binary;
use crate::readings::Readings;
use vstd::arithmetic::power2;
use vstd::prelude::*;

verus! {

pub const ZERO: u64 = 0;

pub const ONE: u64 = 0x3ff0_0000_0000_0000;

pub const THOUSAND: u64 = 0x408f_4000_0000_0000;

pub const FULL_TURN: u64 = 0x4076_8000_0000_0000;

pub const FULL_TURN_BACK: u64 = 0xc076_8000_0000_0000;

/// Why a value is refused.
#[derive(Debug)]
pub enum ValidationError {
    /// The value of this name is no finite number.
    Invalid(String),
    /// The value of this name is not above zero.
    NotPositive(String),
    /// The frequency is out of its range.
    FrequencyRange,
    /// The rotation is out of its range.
    RotationRange,
}

/// Why a value is refused.
pub enum Fault {
    Invalid(Seq<char>),
    NotPositive(Seq<char>),
    FrequencyRange,
    RotationRange,
}

impl View for ValidationError {
    type V = Fault;

    open spec fn view(&self) -> Fault {
        match self {
            ValidationError::Invalid(name) => Fault::Invalid(name@),
            ValidationError::NotPositive(name) => Fault::NotPositive(name@),
            ValidationError::FrequencyRange => Fault::FrequencyRange,
            ValidationError::RotationRange => Fault::RotationRange,
        }
    }
}

impl Fault {
    /// What to tell the user.
    pub open spec fn says(self) -> Seq<char> {
        match self {
            Fault::Invalid(name) => "Invalid value for "@ + name,
            Fault::NotPositive(name) => name + " must be greater than 0"@,
            Fault::FrequencyRange => "Frequency must be between 1 and 1000 Hz"@,
            Fault::RotationRange => "Rotation must be between -360 and 360 degrees"@,
        }
    }
}

impl ValidationError {
    /// What to tell the user.
    pub fn message(&self) -> (text: String)
        ensures
            text@ == self@.says(),
    {
        match self {
            ValidationError::Invalid(name) => "Invalid value for ".to_owned().concat(
                name.as_str(),
            ),
            ValidationError::NotPositive(name) => name.clone().concat(" must be greater than 0"),
            ValidationError::FrequencyRange => "Frequency must be between 1 and 1000 Hz".to_owned(),
            ValidationError::RotationRange => {
                "Rotation must be between -360 and 360 degrees".to_owned()
            },
        }
    }
}

/// The checked value of a name: the number that a text reads as, where it is finite.
pub open spec fn finite(name: Seq<char>, value: Seq<char>, readings: Readings) -> Result<
    u64,
    Fault,
> {
    match readings.double_of(value) {
        Some(bits) => if binary::is_finite64(bits) {
            Ok(bits)
        } else {
            Err(Fault::Invalid(name))
        },
        None => Err(Fault::Invalid(name)),
    }
}

/// `low <= a <= high`.
pub open spec fn between(a: u64, low: u64, high: u64) -> bool {
    !binary::below64(a, low) && !binary::below64(high, a) && !binary::is_nan64(a)
}

/// A frequency: a finite number from 1 to 1000.
pub open spec fn valid_frequency(value: Seq<char>, readings: Readings) -> Result<u64, Fault> {
    match finite("Frequency"@, value, readings) {
        Ok(bits) => if between(bits, ONE, THOUSAND) {
            Ok(bits)
        } else {
            Err(Fault::FrequencyRange)
        },
        Err(fault) => Err(fault),
    }
}

/// A dimension: a finite number above 0.
pub open spec fn valid_dimension(name: Seq<char>, value: Seq<char>, readings: Readings) -> Result<
    u64,
    Fault,
> {
    match finite(name, value, readings) {
        Ok(bits) => if binary::below64(ZERO, bits) {
            Ok(bits)
        } else {
            Err(Fault::NotPositive(name))
        },
        Err(fault) => Err(fault),
    }
}

/// A rotation: a finite number from -360 to 360.
pub open spec fn valid_rotation(value: Seq<char>, readings: Readings) -> Result<u64, Fault> {
    match finite("Rotation"@, value, readings) {
        Ok(bits) => if between(bits, FULL_TURN_BACK, FULL_TURN) {
            Ok(bits)
        } else {
            Err(Fault::RotationRange)
        },
        Err(fault) => Err(fault),
    }
}

/// What a check gave, without its text.
pub open spec fn verdict(result: Result<u64, ValidationError>) -> Result<u64, Fault> {
    match result {
        Ok(bits) => Ok(bits),
        Err(error) => Err(error@),
    }
}

pub fn finite_number(name: &str, value: &str, readings: &Readings) -> (number: Result<
    u64,
    ValidationError,
>)
    ensures
        verdict(number) == finite(name@, value@, *readings),
{
    match readings.double(value) {
        Some(bits) => if binary::finite64(bits) {
            Ok(bits)
        } else {
            Err(ValidationError::Invalid(name.to_owned()))
        },
        None => Err(ValidationError::Invalid(name.to_owned())),
    }
}

fn in_range(a: u64, low: u64, high: u64) -> (is: bool)
    requires
        binary::is_finite64(a),
    ensures
        is == between(a, low, high),
{
    !binary::lt64(a, low) && !binary::lt64(high, a)
}

pub fn frequency(value: &str, readings: &Readings) -> (number: Result<u64, ValidationError>)
    ensures
        verdict(number) == valid_frequency(value@, *readings),
{
    match finite_number("Frequency", value, readings) {
        Ok(bits) => if in_range(bits, ONE, THOUSAND) {
            Ok(bits)
        } else {
            Err(ValidationError::FrequencyRange)
        },
        Err(error) => Err(error),
    }
}

pub fn positive_dimension(name: &str, value: &str, readings: &Readings) -> (number: Result<
    u64,
    ValidationError,
>)
    ensures
        verdict(number) == valid_dimension(name@, value@, *readings),
{
    match finite_number(name, value, readings) {
        Ok(bits) => if binary::lt64(ZERO, bits) {
            Ok(bits)
        } else {
            Err(ValidationError::NotPositive(name.to_owned()))
        },
        Err(error) => Err(error),
    }
}

pub fn rotation(value: &str, readings: &Readings) -> (number: Result<u64, ValidationError>)
    ensures
        verdict(number) == valid_rotation(value@, *readings),
{
    match finite_number("Rotation", value, readings) {
        Ok(bits) => if in_range(bits, FULL_TURN_BACK, FULL_TURN) {
            Ok(bits)
        } else {
            Err(ValidationError::RotationRange)
        },
        Err(error) => Err(error),
    }
}

/// A frequency that passes its check is a number of Hertz from 1 to 1000: its value is
/// between theirs.
pub proof fn valid_frequency_is_in_range(value: Seq<char>, readings: Readings)
    requires
        valid_frequency(value, readings) is Ok,
    ensures
        binary::value64(ONE) <= binary::value64(valid_frequency(value, readings)->Ok_0)
            <= binary::value64(THOUSAND),
{
    let bits = valid_frequency(value, readings)->Ok_0;
    binary::order_is_by_value64(bits, ONE);
    binary::order_is_by_value64(THOUSAND, bits);
}

/// A dimension that passes its check is above zero.
pub proof fn valid_dimension_is_positive(name: Seq<char>, value: Seq<char>, readings: Readings)
    requires
        valid_dimension(name, value, readings) is Ok,
    ensures
        binary::value64(valid_dimension(name, value, readings)->Ok_0) > 0,
{
    let bits = valid_dimension(name, value, readings)->Ok_0;
    binary::order_is_by_value64(ZERO, bits);
    assert(binary::value64(ZERO) == 0) by {
        assert(binary::exact64(ZERO).significand == 0);
        assert(0 * vstd::arithmetic::power2::pow2(0) == 0);
    }
}

/// A rotation that passes its check is at most a full turn either way.
pub proof fn valid_rotation_is_in_range(value: Seq<char>, readings: Readings)
    requires
        valid_rotation(value, readings) is Ok,
    ensures
        binary::value64(FULL_TURN_BACK) <= binary::value64(valid_rotation(value, readings)->Ok_0)
            <= binary::value64(FULL_TURN),
{
    let bits = valid_rotation(value, readings)->Ok_0;
    binary::order_is_by_value64(bits, FULL_TURN_BACK);
    binary::order_is_by_value64(FULL_TURN, bits);
}

/// A text reads as a finite number.
pub open spec fn reads_finite(value: Seq<char>, readings: Readings) -> bool {
    readings.double_of(value) is Some && binary::is_finite64(readings.double_of(value)->0)
}

/// A text reads as a number from a whole number on, up to another one where there is one.
pub open spec fn reads_between(
    value: Seq<char>,
    readings: Readings,
    low: int,
    high: Option<int>,
) -> bool {
    reads_finite(value, readings) && ({
        let exact = binary::value64(readings.double_of(value)->0);
        low * binary::one() <= exact && (high matches Some(top) ==> exact <= top * binary::one())
    })
}

/// The numbers that the checks compare with.
proof fn bounds()
    ensures
        binary::value64(ZERO) == 0,
        binary::value64(ONE) == binary::one(),
        binary::value64(THOUSAND) == 1000 * binary::one(),
        binary::value64(FULL_TURN) == 360 * binary::one(),
        binary::value64(FULL_TURN_BACK) == -360 * binary::one(),
{
    assert(power2::pow2(52) == 0x10_0000_0000_0000 && power2::pow2(43) == 0x800_0000_0000
        && power2::pow2(44) == 0x1000_0000_0000) by {
        power2::lemma2_to64_rest();
    }
    let zero = binary::exact64(ZERO);
    assert(zero.significand == 0);
    let y = power2::pow2(zero.shift as nat) as int;
    assert(0 * y == 0);
    let one = binary::exact64(ONE);
    assert(one.significand == 0x10_0000_0000_0000 && one.shift == 1022);
    power2::lemma_pow2_adds(52, 1022);
    let thousand = binary::exact64(THOUSAND);
    assert(thousand.significand == 1000 * 0x800_0000_0000 && thousand.shift == 1031);
    power2::lemma_pow2_adds(43, 1031);
    let z = power2::pow2(1031) as int;
    assert((1000 * 0x800_0000_0000) * z == 1000 * (0x800_0000_0000 * z)) by (nonlinear_arith);
    let turn = binary::exact64(FULL_TURN);
    assert(turn.significand == 360 * 0x1000_0000_0000 && turn.shift == 1030);
    let back = binary::exact64(FULL_TURN_BACK);
    assert(back.significand == 360 * 0x1000_0000_0000 && back.shift == 1030 && back.negative);
    power2::lemma_pow2_adds(44, 1030);
    let w = power2::pow2(1030) as int;
    assert((360 * 0x1000_0000_0000) * w == 360 * (0x1000_0000_0000 * w)) by (nonlinear_arith);
}

/// A check passes exactly where the text reads as a finite number in its range: above 0 for a
/// dimension, from -360 to 360 for a rotation, from 1 to 1000 for a frequency. What passes is the
/// number that the text reads as.
pub proof fn checks_mean_what_they_say(value: Seq<char>, readings: Readings)
    ensures
        forall|name: Seq<char>|
            #![trigger finite(name, value, readings)]
            finite(name, value, readings) is Ok <==> reads_finite(value, readings),
        forall|name: Seq<char>|
            #![trigger valid_dimension(name, value, readings)]
            valid_dimension(name, value, readings) is Ok <==> reads_between(
                value,
                readings,
                0,
                None,
            ) && binary::value64(readings.double_of(value)->0) != 0,
        valid_rotation(value, readings) is Ok <==> reads_between(value, readings, -360, Some(360)),
        valid_frequency(value, readings) is Ok <==> reads_between(value, readings, 1, Some(1000)),
        forall|name: Seq<char>|
            #![trigger finite(name, value, readings)]
            finite(name, value, readings) matches Ok(bits) ==> readings.double_of(value) == Some(
                bits,
            ),
        forall|name: Seq<char>|
            #![trigger valid_dimension(name, value, readings)]
            valid_dimension(name, value, readings) matches Ok(bits) ==> readings.double_of(value)
                == Some(bits),
        valid_rotation(value, readings) matches Ok(bits) ==> readings.double_of(value) == Some(
            bits,
        ),
        valid_frequency(value, readings) matches Ok(bits) ==> readings.double_of(value) == Some(
            bits,
        ),
{
    bounds();
    if reads_finite(value, readings) {
        let bits = readings.double_of(value)->0;
        binary::order_is_by_value64(bits, ZERO);
        binary::order_is_by_value64(bits, ONE);
        binary::order_is_by_value64(bits, THOUSAND);
        binary::order_is_by_value64(bits, FULL_TURN);
        binary::order_is_by_value64(bits, FULL_TURN_BACK);
        assert(!binary::is_nan64(bits));
        assert(1 * binary::one() == binary::one() && 0 * binary::one() == 0);
    }
}

/// Each fault is told in its own words, with the name of the field where it is that of one.
pub proof fn faults_are_told(name: Seq<char>)
    ensures
        Fault::Invalid(name).says() == "Invalid value for "@ + name,
        Fault::NotPositive(name).says() == name + " must be greater than 0"@,
        Fault::FrequencyRange.says() == "Frequency must be between 1 and 1000 Hz"@,
        Fault::RotationRange.says() == "Rotation must be between -360 and 360 degrees"@,
{
}

} // verus!
