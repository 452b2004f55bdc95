//! Numbers written out in decimal.

use crate::binary;
use crate::text;
use vstd::arithmetic::div_mod;
use vstd::arithmetic::power2;
use vstd::prelude::*;

verus! {

/// A decimal digit.
pub open spec fn digit(d: nat) -> char {
    ((d + 48) as u8) as char
}

/// An integer in decimal.
pub open spec fn decimal(n: nat) -> Seq<char>
    decreases n,
{
    if n < 10 {
        seq![digit(n)]
    } else {
        decimal(n / 10).push(digit(n % 10))
    }
}

/// The last `places` decimal digits of an integer.
pub open spec fn last_digits(n: nat, places: nat) -> Seq<char>
    decreases places,
{
    if places == 0 {
        Seq::empty()
    } else {
        last_digits(n / 10, (places - 1) as nat).push(digit(n % 10))
    }
}

/// Ten to a small power.
pub open spec fn ten_to(places: nat) -> nat
    decreases places,
{
    if places == 0 {
        1
    } else {
        10 * ten_to((places - 1) as nat)
    }
}

/// `n` divided by ten to the power `places`, written out with that many places.
pub open spec fn with_places(n: nat, places: nat) -> Seq<char> {
    if places == 0 {
        decimal(n)
    } else {
        decimal(n / ten_to(places)).push('.') + last_digits(n % ten_to(places), places)
    }
}

/// A finite number in units of its last decimal place, rounded to the nearest, ties to even.
pub open spec fn scaled(x: binary::Exact, places: nat) -> nat {
    binary::half_even(x.magnitude() as nat * ten_to(places), power2::pow2(1074))
}

/// A finite number to `places` decimal places, rounded to the nearest, ties to even.
pub open spec fn fixed(x: binary::Exact, places: nat) -> Seq<char> {
    let digits = with_places(scaled(x, places), places);
    if x.negative {
        seq!['-'] + digits
    } else {
        digits
    }
}

/// A binary64 number to `places` decimal places.
#[verifier::opaque]
pub open spec fn fixed64(bits: u64, places: nat) -> Seq<char> {
    if binary::is_nan64(bits) {
        seq!['N', 'a', 'N']
    } else if !binary::is_finite64(bits) {
        if binary::negative64(bits) {
            seq!['-', 'i', 'n', 'f']
        } else {
            seq!['i', 'n', 'f']
        }
    } else {
        fixed(binary::exact64(bits), places)
    }
}

/// A binary32 number to `places` decimal places.
#[verifier::opaque]
pub open spec fn fixed32(bits: u32, places: nat) -> Seq<char> {
    if binary::is_nan32(bits) {
        seq!['N', 'a', 'N']
    } else if !binary::is_finite32(bits) {
        if binary::negative32(bits) {
            seq!['-', 'i', 'n', 'f']
        } else {
            seq!['i', 'n', 'f']
        }
    } else {
        fixed(binary::exact32(bits), places)
    }
}

/// A binary32 number after it was rounded to `places` decimal places: the binary32 number
/// nearest to the decimal one.
pub open spec fn rounded32(bits: u32, places: nat) -> u32 {
    binary::signed32(
        binary::negative32(bits),
        binary::nearest(
            scaled(binary::exact32(bits), places) * power2::pow2(1074),
            ten_to(places),
            binary::Format::Single,
        ),
    )
}

// ---- the characters of numbers ----

/// An integer in decimal is made of digits.
pub proof fn decimal_is_digits(n: nat)
    ensures
        decimal(n).len() > 0,
        forall|i: int| 0 <= i < decimal(n).len() ==> '0' <= #[trigger] decimal(n)[i] <= '9',
        text::digits_value(decimal(n)) == Some(n),
    decreases n,
{
    let s = decimal(n);
    if n < 10 {
        assert(s.drop_last() =~= Seq::<char>::empty());
        assert(text::digits_value(s.drop_last()) == Some(0nat));
    } else {
        decimal_is_digits(n / 10);
        assert(s.drop_last() =~= decimal(n / 10));
    }
}

proof fn last_digits_are_digits(n: nat, places: nat)
    ensures
        last_digits(n, places).len() == places,
        forall|i: int|
            0 <= i < places ==> '0' <= #[trigger] last_digits(n, places)[i] <= '9',
    decreases places,
{
    if places > 0 {
        last_digits_are_digits(n / 10, (places - 1) as nat);
    }
}

/// A number that is written out is not broken over lines.
pub proof fn fixed_is_on_one_line(bits: u32, places: nat)
    ensures
        fixed32(bits, places).len() > 0,
        forall|i: int|
            0 <= i < fixed32(bits, places).len() ==> #[trigger] fixed32(bits, places)[i] != '\n'
                && fixed32(bits, places)[i] != '\r',
{
    reveal(fixed32);
    let x = binary::exact32(bits);
    let n = binary::half_even(x.magnitude() as nat * ten_to(places), power2::pow2(1074));
    decimal_is_digits(n);
    decimal_is_digits(n / ten_to(places));
    last_digits_are_digits(n % ten_to(places), places);
    let whole = decimal(n / ten_to(places)).push('.');
    let d = with_places(n, places);
    assert forall|i: int| 0 <= i < d.len() implies #[trigger] d[i] != '\n' && d[i] != '\r' by {
        if places > 0 {
            if i < whole.len() - 1 {
                assert(d[i] == decimal(n / ten_to(places))[i]);
            } else if i >= whole.len() {
                assert(d[i] == last_digits(n % ten_to(places), places)[i - whole.len()]);
            }
        }
    }
    if binary::is_finite32(bits) && x.negative {
        assert forall|i: int| 0 <= i < fixed32(bits, places).len() implies #[trigger] fixed32(
            bits,
            places,
        )[i] != '\n' && fixed32(bits, places)[i] != '\r' by {
            if i > 0 {
                assert(fixed32(bits, places)[i] == d[i - 1]);
            }
        }
    }
}

// ---- digits, the last one first ----

/// The integer that some digits stand for.
spec fn number(digits: Seq<u8>) -> nat
    decreases digits.len(),
{
    if digits.len() == 0 {
        0
    } else {
        digits[0] as nat + 10 * number(digits.drop_first())
    }
}

/// Digits of one integer: there is at least one, and no zero leads.
spec fn are_digits(digits: Seq<u8>) -> bool {
    &&& digits.len() > 0
    &&& forall|i: int| 0 <= i < digits.len() ==> digits[i] < 10
    &&& digits.len() > 1 ==> digits.last() > 0
}

/// The digits as text, the first one first.
spec fn spelled(digits: Seq<u8>) -> Seq<char> {
    Seq::new(digits.len(), |i: int| digit(digits[digits.len() - 1 - i] as nat))
}

proof fn positive_number(digits: Seq<u8>)
    requires
        digits.len() > 0,
        digits.last() > 0,
    ensures
        number(digits) > 0,
    decreases digits.len(),
{
    if digits.len() > 1 {
        assert(digits.drop_first().last() == digits.last());
        positive_number(digits.drop_first());
    }
}

/// Digits spell the decimal form of their number.
proof fn spelling(digits: Seq<u8>)
    requires
        are_digits(digits),
    ensures
        spelled(digits) == decimal(number(digits)),
    decreases digits.len(),
{
    let rest = digits.drop_first();
    if digits.len() == 1 {
        assert(number(rest) == 0);
        assert(spelled(digits) =~= seq![digit(digits[0] as nat)]);
    } else {
        assert(rest.last() == digits.last());
        assert forall|i: int| 0 <= i < rest.len() implies rest[i] < 10 by {
            assert(rest[i] == digits[i + 1]);
        }
        spelling(rest);
        positive_number(rest);
        assert(spelled(digits) =~= spelled(rest).push(digit(digits[0] as nat)));
    }
}

/// One more digit in front.
proof fn number_push(digits: Seq<u8>, d: u8)
    ensures
        number(digits.push(d)) == number(digits) + d * ten_to(digits.len()),
    decreases digits.len(),
{
    if digits.len() == 0 {
        assert(digits.push(d).drop_first() =~= Seq::<u8>::empty());
        assert(number(Seq::<u8>::empty()) == 0);
        assert(ten_to(0) == 1);
        assert(d * 1 == d);
    } else {
        assert(digits.push(d).drop_first() =~= digits.drop_first().push(d));
        assert(digits.push(d)[0] == digits[0]);
        number_push(digits.drop_first(), d);
        let t = ten_to((digits.len() - 1) as nat) as int;
        assert(10 * (d * t) == d * (10 * t)) by (nonlinear_arith);
    }
}

fn digits_of(n: u128) -> (digits: Vec<u8>)
    ensures
        are_digits(digits@),
        number(digits@) == n,
{
    let mut digits: Vec<u8> = Vec::new();
    let mut left: u128 = n;
    proof {
        assert(left * 1 == left);
    }
    while left >= 10
        invariant
            forall|i: int| 0 <= i < digits@.len() ==> digits@[i] < 10,
            digits@.len() > 0 ==> left > 0,
            number(digits@) + left * ten_to(digits@.len()) == n,
        decreases left,
    {
        let d: u8 = (left % 10) as u8;
        proof {
            number_push(digits@, d);
            let t = ten_to(digits@.len()) as int;
            let q = left as int / 10;
            assert(left * t == d * t + q * (10 * t)) by (nonlinear_arith)
                requires
                    left == 10 * q + d,
            ;
        }
        digits.push(d);
        left = left / 10;
    }
    proof {
        number_push(digits@, left as u8);
    }
    digits.push(left as u8);
    digits
}

/// The number of `digits` from place `i` on.
proof fn number_at(digits: Seq<u8>, i: int)
    requires
        0 <= i < digits.len(),
    ensures
        number(digits.skip(i)) == digits[i] as nat + 10 * number(digits.skip(i + 1)),
{
    assert(digits.skip(i).drop_first() =~= digits.skip(i + 1));
}

/// The digits of twice the number.
fn twice(digits: &Vec<u8>) -> (doubled: Vec<u8>)
    requires
        are_digits(digits@),
    ensures
        are_digits(doubled@),
        number(doubled@) == 2 * number(digits@),
{
    let mut doubled: Vec<u8> = Vec::new();
    let mut carry: u8 = 0;
    let mut i: usize = 0;
    proof {
        assert(digits@.skip(0) =~= digits@);
        assert(1 * (2 * number(digits@) + 0) == 2 * number(digits@));
    }
    while i < digits.len()
        invariant
            i <= digits@.len(),
            are_digits(digits@),
            carry <= 1,
            doubled@.len() == i,
            forall|k: int| 0 <= k < i ==> doubled@[k] < 10,
            i > 1 && carry == 0 ==> i < digits@.len() || doubled@.last() > 0,
            number(doubled@) + ten_to(i as nat) * (2 * number(digits@.skip(i as int)) + carry) == 2
                * number(digits@),
        decreases digits@.len() - i,
    {
        let d: u8 = 2 * digits[i] + carry;
        proof {
            number_at(digits@, i as int);
            number_push(doubled@, d % 10);
            let t = ten_to(i as nat) as int;
            let x = number(digits@.skip(i + 1)) as int;
            let low = d as int % 10;
            let high = d as int / 10;
            assert(t * (2 * (digits@[i as int] + 10 * x) + carry) == low * t + (10 * t) * (2 * x
                + high)) by (nonlinear_arith)
                requires
                    10 * high + low == 2 * digits@[i as int] + carry,
            ;
        }
        doubled.push(d % 10);
        carry = d / 10;
        i = i + 1;
    }
    assert(digits@.skip(i as int) =~= Seq::<u8>::empty());
    if carry > 0 {
        proof {
            number_push(doubled@, carry);
            let t = ten_to(i as nat) as int;
            assert(t * 1 == 1 * t);
        }
        doubled.push(carry);
    } else {
        proof {
            let t = ten_to(i as nat) as int;
            assert(t * 0 == 0);
        }
    }
    doubled
}

/// The digits, the first one first, after what is written already.
fn push_digits(out: &mut String, digits: &Vec<u8>)
    requires
        are_digits(digits@),
    ensures
        final(out)@ == old(out)@ + decimal(number(digits@)),
{
    proof {
        spelling(digits@);
    }
    let mut left: usize = digits.len();
    while left > 0
        invariant
            left <= digits@.len(),
            are_digits(digits@),
            out@ == old(out)@ + spelled(digits@).take(digits@.len() - left),
        decreases left,
    {
        left = left - 1;
        let d: u8 = digits[left];
        out.push((d + 48) as char);
        assert(spelled(digits@).take(digits@.len() - left) =~= spelled(digits@).take(
            digits@.len() - left - 1,
        ).push(digit(d as nat)));
    }
    assert(spelled(digits@).take(digits@.len() as int) =~= spelled(digits@));
}

/// Writes an integer in decimal.
pub fn push_decimal(out: &mut String, n: u128)
    ensures
        final(out)@ == old(out)@ + decimal(n as nat),
{
    let digits = digits_of(n);
    push_digits(out, &digits);
}

/// An integer in decimal.
pub fn decimal_text(n: u128) -> (text: String)
    ensures
        text@ == decimal(n as nat),
{
    let mut text = String::new();
    push_decimal(&mut text, n);
    assert(Seq::<char>::empty() + decimal(n as nat) =~= decimal(n as nat));
    text
}

/// Writes the last `places` digits of an integer.
fn push_last_digits(out: &mut String, n: u128, places: u32)
    ensures
        final(out)@ == old(out)@ + last_digits(n as nat, places as nat),
    decreases places,
{
    if places > 0 {
        let ghost before = out@;
        push_last_digits(out, n / 10, places - 1);
        out.push(((n % 10) as u8 + 48) as char);
        assert(out@ =~= before + last_digits(n as nat, places as nat));
    }
}

/// Ten to a small power.
fn power_of_ten(places: u32) -> (power: u128)
    requires
        places <= 4,
    ensures
        power == ten_to(places as nat),
        1 <= power <= 10_000,
{
    reveal_with_fuel(ten_to, 5);
    match places {
        0 => 1,
        1 => 10,
        2 => 100,
        3 => 1_000,
        _ => 10_000,
    }
}

/// Writes `n` divided by ten to the power `places`.
fn push_with_places(out: &mut String, n: u128, places: u32)
    requires
        places <= 4,
    ensures
        final(out)@ == old(out)@ + with_places(n as nat, places as nat),
{
    if places == 0 {
        push_decimal(out, n);
        return;
    }
    let ghost before = out@;
    let power: u128 = power_of_ten(places);
    push_decimal(out, n / power);
    out.push('.');
    push_last_digits(out, n % power, places);
    assert(out@ =~= before + with_places(n as nat, places as nat));
}

/// The last digits of a multiple of the power of ten are zeros.
proof fn whole_with_places(n: nat, places: nat)
    ensures
        (n * ten_to(places)) / ten_to(places) == n,
        (n * ten_to(places)) % ten_to(places) == 0,
    decreases places,
{
    ten_is_positive(places);
    div_mod::lemma_fundamental_div_mod_converse(
        (n * ten_to(places)) as int,
        ten_to(places) as int,
        n as int,
        0,
    );
}

proof fn ten_is_positive(places: nat)
    ensures
        ten_to(places) > 0,
    decreases places,
{
    if places > 0 {
        ten_is_positive((places - 1) as nat);
    }
}

/// A finite number of at least 2^52 units: the integer `m` times 2^`j`.
fn push_large(out: &mut String, m: u64, j: u32, places: u32)
    requires
        places <= 4,
        j <= 2046,
    ensures
        final(out)@ == old(out)@ + with_places(
            (m * power2::pow2(j as nat)) as nat * ten_to(places as nat),
            places as nat,
        ),
{
    let mut digits = digits_of(m as u128);
    let mut i: u32 = 0;
    proof {
        power2::lemma2_to64();
        assert(m * 1 == m);
    }
    while i < j
        invariant
            i <= j <= 2046,
            are_digits(digits@),
            number(digits@) == m * power2::pow2(i as nat),
        decreases j - i,
    {
        digits = twice(&digits);
        proof {
            power2::lemma_pow2_unfold((i + 1) as nat);
            let x = power2::pow2(i as nat) as int;
            assert(m * (2 * x) == 2 * (m * x)) by (nonlinear_arith);
        }
        i = i + 1;
    }
    let ghost before = out@;
    let ghost n = (m * power2::pow2(j as nat)) as nat;
    push_digits(out, &digits);
    proof {
        whole_with_places(n, places as nat);
        assert(n * 1 == n);
    }
    if places > 0 {
        out.push('.');
        push_last_digits(out, 0, places);
        assert(out@ =~= before + with_places(n * ten_to(places as nat), places as nat));
    }
}

/// Writes a finite number to `places` decimal places.
fn push_fixed(out: &mut String, x: binary::Exact, places: u32)
    requires
        x.decoded(),
        places <= 4,
    ensures
        final(out)@ == old(out)@ + fixed(x, places as nat),
{
    let ghost before = out@;
    if x.negative {
        out.push('-');
    }
    let ghost signed = out@;
    let ghost ten = ten_to(places as nat);
    let ghost mag = x.magnitude() as nat;
    let ghost rounded = binary::half_even(mag * ten, power2::pow2(1074));
    proof {
        power2::lemma_pow2_pos(x.shift as nat);
        assert(x.significand * power2::pow2(x.shift as nat) >= 0) by (nonlinear_arith)
            requires
                power2::pow2(x.shift as nat) > 0,
        ;
    }
    if x.shift >= 1074 {
        let j: u32 = x.shift - 1074;
        proof {
            power2::lemma_pow2_adds(1074, j as nat);
            power2::lemma_pow2_pos(1074);
            let a = power2::pow2(1074) as int;
            let b = power2::pow2(j as nat) as int;
            let sig = x.significand as int;
            assert(sig * b >= 0) by (nonlinear_arith)
                requires
                    sig >= 0,
                    b >= 0,
            ;
            assert((sig * (a * b)) * ten == ((sig * b) * ten) * a) by (nonlinear_arith);
            assert((sig * b) * ten >= 0) by (nonlinear_arith)
                requires
                    sig * b >= 0,
                    ten >= 0,
            ;
            div_mod::lemma_fundamental_div_mod_converse(
                (mag * ten) as int,
                a,
                (sig * b) * ten,
                0,
            );
        }
        push_large(out, x.significand, j, places);
    } else {
        let drop: u32 = 1074 - x.shift;
        let power: u128 = power_of_ten(places);
        assert(x.significand * power <= 0x20_0000_0000_0000 * 10_000) by (nonlinear_arith)
            requires
                x.significand <= 0x20_0000_0000_0000,
                power <= 10_000,
        ;
        assert(x.significand * power >= 0) by (nonlinear_arith);
        let scaled: u128 = x.significand as u128 * power;
        proof {
            power2::lemma_pow2_adds(x.shift as nat, drop as nat);
            power2::lemma_pow2_pos(drop as nat);
            let c = power2::pow2(x.shift as nat);
            binary::cancel(scaled as nat, power2::pow2(drop as nat), c);
            let sig = x.significand as int;
            assert((sig * c) * ten == (sig * ten) * c) by (nonlinear_arith);
            assert(power2::pow2(drop as nat) * c == c * power2::pow2(drop as nat))
                by (nonlinear_arith);
            let r = scaled as int % power2::pow2(drop as nat) as int;
            let den = power2::pow2(drop as nat) as int;
            assert(2 * (r * c) < den * c <==> 2 * r < den) by (nonlinear_arith)
                requires
                    c > 0,
            ;
            assert(2 * (r * c) == den * c <==> 2 * r == den) by (nonlinear_arith)
                requires
                    c > 0,
            ;
            assert(rounded == binary::half_even(scaled as nat, power2::pow2(drop as nat)));
        }
        let n: u128 = if drop > 100 {
            proof {
                power2::lemma_pow2_strictly_increases(100, drop as nat);
                power2::lemma_pow2_adds(50, 50);
                power2::lemma2_to64_rest();
                div_mod::lemma_fundamental_div_mod_converse(
                    scaled as int,
                    power2::pow2(drop as nat) as int,
                    0,
                    scaled as int,
                );
            }
            0
        } else {
            let den: u128 = binary::power_of_two(drop);
            let q: u128 = scaled / den;
            let r: u128 = scaled % den;
            proof {
                div_mod::lemma_fundamental_div_mod(scaled as int, den as int);
                assert(q <= scaled) by (nonlinear_arith)
                    requires
                        scaled == den * q + r,
                        den >= 1,
                        r >= 0,
                        q >= 0,
                ;
            }
            if 2 * r < den || (2 * r == den && q % 2 == 0) {
                q
            } else {
                q + 1
            }
        };
        push_with_places(out, n, places);
    }
    assert(out@ =~= before + fixed(x, places as nat));
}

/// A binary64 number to `places` decimal places.
pub fn fixed_text64(bits: u64, places: u32) -> (text: String)
    requires
        places <= 4,
    ensures
        text@ == fixed64(bits, places as nat),
{
    proof {
        reveal(fixed64);
    }
    let mut text = String::new();
    if binary::finite64(bits) {
        push_fixed(&mut text, binary::decode64(bits), places);
    } else if bits % 0x8000_0000_0000_0000 > 0x7ff0_0000_0000_0000 {
        push_special(&mut text, true, false);
    } else {
        push_special(&mut text, false, bits >= 0x8000_0000_0000_0000);
    }
    assert(text@ =~= fixed64(bits, places as nat));
    text
}

/// A binary32 number to `places` decimal places.
pub fn fixed_text32(bits: u32, places: u32) -> (text: String)
    requires
        places <= 4,
    ensures
        text@ == fixed32(bits, places as nat),
{
    proof {
        reveal(fixed32);
    }
    let mut text = String::new();
    if binary::finite32(bits) {
        push_fixed(&mut text, binary::decode32(bits), places);
    } else if bits % 0x8000_0000 > 0x7f80_0000 {
        push_special(&mut text, true, false);
    } else {
        push_special(&mut text, false, bits >= 0x8000_0000);
    }
    assert(text@ =~= fixed32(bits, places as nat));
    text
}

/// Writes what stands for an infinity or for no number.
fn push_special(out: &mut String, nan: bool, negative: bool)
    ensures
        final(out)@ == old(out)@ + if nan {
            seq!['N', 'a', 'N']
        } else if negative {
            seq!['-', 'i', 'n', 'f']
        } else {
            seq!['i', 'n', 'f']
        },
{
    let ghost before = out@;
    if nan {
        out.push('N');
        out.push('a');
        out.push('N');
        assert(out@ =~= before + seq!['N', 'a', 'N']);
    } else {
        if negative {
            out.push('-');
        }
        out.push('i');
        out.push('n');
        out.push('f');
        if negative {
            assert(out@ =~= before + seq!['-', 'i', 'n', 'f']);
        } else {
            assert(out@ =~= before + seq!['i', 'n', 'f']);
        }
    }
}

/// The number has no fractional part.
pub open spec fn is_whole64(bits: u64) -> bool {
    binary::is_finite64(bits) && binary::value64(bits) % binary::one() == 0
}

/// Whether a number has no fractional part.
pub fn whole64(bits: u64) -> (whole: bool)
    ensures
        whole == is_whole64(bits),
{
    if !binary::finite64(bits) {
        return false;
    }
    let x = binary::decode64(bits);
    let ghost a = power2::pow2(1074) as int;
    let ghost sig = x.significand as int;
    proof {
        power2::lemma_pow2_pos(1074);
        power2::lemma_pow2_pos(x.shift as nat);
    }
    let whole: bool = if x.shift >= 1074 {
        proof {
            power2::lemma_pow2_adds(1074, (x.shift - 1074) as nat);
            let b = power2::pow2((x.shift - 1074) as nat) as int;
            assert(sig * (a * b) == (sig * b) * a) by (nonlinear_arith);
            div_mod::lemma_fundamental_div_mod_converse(x.magnitude(), a, sig * b, 0);
        }
        true
    } else {
        let drop: u32 = 1074 - x.shift;
        proof {
            power2::lemma_pow2_adds(x.shift as nat, drop as nat);
            power2::lemma_pow2_pos(drop as nat);
            let c = power2::pow2(x.shift as nat);
            let den = power2::pow2(drop as nat);
            binary::cancel(x.significand as nat, den, c);
            assert(den * c == c * den) by (nonlinear_arith);
            let r = sig % den as int;
            assert(r * c == 0 <==> r == 0) by (nonlinear_arith)
                requires
                    c > 0,
            ;
        }
        if drop > 100 {
            proof {
                power2::lemma_pow2_strictly_increases(100, drop as nat);
                power2::lemma_pow2_adds(50, 50);
                power2::lemma2_to64_rest();
                div_mod::lemma_fundamental_div_mod_converse(
                    sig,
                    power2::pow2(drop as nat) as int,
                    0,
                    sig,
                );
            }
            x.significand == 0
        } else {
            x.significand as u128 % binary::power_of_two(drop) == 0
        }
    };
    proof {
        let v = x.magnitude();
        if v % a == 0 {
            div_mod::lemma_fundamental_div_mod(v, a);
            assert(-v == (-(v / a)) * a) by (nonlinear_arith)
                requires
                    v == a * (v / a),
            ;
            div_mod::lemma_fundamental_div_mod_converse(-v, a, -(v / a), 0);
        }
        if (-v) % a == 0 {
            div_mod::lemma_fundamental_div_mod(-v, a);
            assert(v == (-((-v) / a)) * a) by (nonlinear_arith)
                requires
                    -v == a * ((-v) / a),
            ;
            div_mod::lemma_fundamental_div_mod_converse(v, a, -((-v) / a), 0);
        }
    }
    whole
}

/// Rounding a number to some decimal places changes nothing that is written of it, and takes
/// it past no whole number.
pub proof fn rounding_is_not_seen(bits: u32, places: nat, bound: nat)
    requires
        binary::is_finite32(bits),
        places <= 4,
        bound < 512,
        binary::exact32(bits).magnitude() <= bound * power2::pow2(1074),
    ensures
        binary::is_finite32(rounded32(bits, places)),
        binary::negative32(rounded32(bits, places)) == binary::negative32(bits),
        binary::exact32(rounded32(bits, places)).magnitude() <= bound * power2::pow2(1074),
        fixed32(rounded32(bits, places), places) == fixed32(bits, places),
{
    reveal(fixed32);
    reveal_with_fuel(ten_to, 5);
    let ten = ten_to(places);
    assert(0 < ten <= 10_000);
    let x = binary::exact32(bits);
    let n = scaled(x, places);
    let m = x.magnitude();
    power2::lemma_pow2_pos(1074);
    power2::lemma_pow2_pos(x.shift as nat);
    let o = power2::pow2(1074) as int;
    let b = bound as int;
    let t = ten as int;
    assert(m >= 0) by (nonlinear_arith)
        requires
            m == x.significand * power2::pow2(x.shift as nat),
            power2::pow2(x.shift as nat) > 0,
    ;
    assert(m * t <= (b * t) * o) by (nonlinear_arith)
        requires
            m <= b * o,
            t > 0,
    ;
    binary::half_even_keeps_bounds(m as nat * ten, power2::pow2(1074), bound * ten);
    binary::nearest_is_near(n, ten, bound);
    let pattern = binary::nearest(
        n * power2::pow2(1074),
        ten,
        binary::Format::Single,
    ) as u32;
    let r = rounded32(bits, places);
    assert(binary::exact32(r).magnitude() == binary::exact32(pattern).magnitude());
}

// ---- reading what was written ----

/// The integer that a text with `places` decimal places says, in units of the last one: digits,
/// at least one before the point, after a minus sign or not.
pub open spec fn said(s: Seq<char>, places: nat) -> Option<int> {
    let negative = s.len() > 0 && s[0] == '-';
    let rest = if negative {
        s.drop_first()
    } else {
        s
    };
    let size = if places == 0 {
        if rest.len() > 0 {
            text::digits_value(rest)
        } else {
            None
        }
    } else if rest.len() >= places + 2 && rest[rest.len() - places - 1] == '.' {
        match (
            text::digits_value(rest.take(rest.len() - places - 1)),
            text::digits_value(rest.skip(rest.len() - places)),
        ) {
            (Some(whole), Some(part)) => Some(whole * ten_to(places) + part),
            _ => None,
        }
    } else {
        None
    };
    match size {
        Some(n) => Some(
            if negative {
                -n
            } else {
                n as int
            },
        ),
        None => None,
    }
}

/// The last digits of an integer are its rest.
proof fn last_digits_say_the_rest(n: nat, places: nat)
    ensures
        last_digits(n, places).len() == places,
        text::digits_value(last_digits(n, places)) == Some(n % ten_to(places)),
    decreases places,
{
    ten_is_positive(places);
    if places == 0 {
        assert(n % 1 == 0);
    } else {
        let t = ten_to((places - 1) as nat) as int;
        ten_is_positive((places - 1) as nat);
        last_digits_say_the_rest(n / 10, (places - 1) as nat);
        let all = last_digits(n, places);
        assert(all.drop_last() =~= last_digits(n / 10, (places - 1) as nat));
        let q = (n as int / 10) / t;
        let r = (n as int / 10) % t;
        div_mod::lemma_fundamental_div_mod(n as int / 10, t);
        assert(n == (10 * t) * q + (10 * r + n as int % 10)) by (nonlinear_arith)
            requires
                n == 10 * (t * q + r) + n as int % 10,
        ;
        assert((10 * t) * q == q * (10 * t)) by (nonlinear_arith);
        div_mod::lemma_fundamental_div_mod_converse(n as int, 10 * t, q, 10 * r + n as int % 10);
    }
}

/// What is written with some places says the integer that it was made of.
proof fn places_say_the_integer(n: nat, places: nat, negative: bool)
    ensures
        ({
            let digits = with_places(n, places);
            let s = if negative {
                seq!['-'] + digits
            } else {
                digits
            };
            said(s, places) == Some(
                if negative {
                    -n
                } else {
                    n as int
                },
            )
        }),
{
    let digits = with_places(n, places);
    let t = ten_to(places);
    ten_is_positive(places);
    decimal_is_digits(n);
    decimal_is_digits(n / t);
    last_digits_say_the_rest(n % t, places);
    let s = if negative {
        seq!['-'] + digits
    } else {
        digits
    };
    if places == 0 {
        assert(digits[0] == decimal(n)[0]);
    } else {
        assert(digits[0] == decimal(n / t)[0]);
    }
    assert(digits[0] != '-');
    if negative {
        assert(s.drop_first() =~= digits);
    }
    if places > 0 {
        let whole = decimal(n / t);
        let part = last_digits(n % t, places);
        let len = digits.len();
        assert(len == whole.len() + 1 + places);
        assert(digits[len - places - 1] == '.');
        assert(digits.take(len - places - 1) =~= whole);
        assert(digits.skip(len - places) =~= part);
        div_mod::lemma_fundamental_div_mod(n as int, t as int);
        div_mod::lemma_small_mod(n % t, t);
        assert((n / t) * t == t * (n / t)) by (nonlinear_arith);
    }
}

/// A finite number that is written to some places says what it is: no integer of units of the
/// last place is nearer to it.
pub proof fn written_numbers_say_their_value64(bits: u64, places: nat)
    requires
        binary::is_finite64(bits),
    ensures
        said(fixed64(bits, places), places) is Some,
        ({
            let n = said(fixed64(bits, places), places)->0;
            let exact = binary::value64(bits) * ten_to(places);
            -binary::one() <= 2 * (n * binary::one() - exact) <= binary::one()
        }),
{
    reveal(fixed64);
    let x = binary::exact64(bits);
    let n = scaled(x, places);
    places_say_the_integer(n, places, x.negative);
    rounded_is_near(x, places);
}

/// A finite binary32 number that is written to some places says what it is.
pub proof fn written_numbers_say_their_value32(bits: u32, places: nat)
    requires
        binary::is_finite32(bits),
    ensures
        said(fixed32(bits, places), places) is Some,
        ({
            let n = said(fixed32(bits, places), places)->0;
            let exact = binary::value32(bits) * ten_to(places);
            -binary::one() <= 2 * (n * binary::one() - exact) <= binary::one()
        }),
{
    reveal(fixed32);
    let x = binary::exact32(bits);
    let n = scaled(x, places);
    places_say_the_integer(n, places, x.negative);
    rounded_is_near(x, places);
}

proof fn rounded_is_near(x: binary::Exact, places: nat)
    ensures
        ({
            let n = scaled(x, places) as int;
            let exact = x.value() * ten_to(places);
            let signed = if x.negative {
                -n
            } else {
                n
            };
            -binary::one() <= 2 * (signed * binary::one() - exact) <= binary::one()
        }),
{
    let o = binary::one();
    let t = ten_to(places) as int;
    let m = x.magnitude();
    let n = scaled(x, places) as int;
    power2::lemma_pow2_pos(1074);
    power2::lemma_pow2_pos(x.shift as nat);
    assert(m >= 0) by (nonlinear_arith)
        requires
            m == x.significand * power2::pow2(x.shift as nat),
            power2::pow2(x.shift as nat) > 0,
    ;
    binary::half_even_is_near((m as nat) * ten_to(places), power2::pow2(1074));
    assert((-m) * t == -(m * t)) by (nonlinear_arith);
    assert((-n) * o == -(n * o)) by (nonlinear_arith);
}

/// A whole number says itself exactly.
pub proof fn whole_numbers_are_written_exactly(bits: u64)
    requires
        is_whole64(bits),
    ensures
        said(fixed64(bits, 0), 0) is Some,
        said(fixed64(bits, 0), 0)->0 * binary::one() == binary::value64(bits),
{
    written_numbers_say_their_value64(bits, 0);
    let o = binary::one();
    let v = binary::value64(bits);
    let n = said(fixed64(bits, 0), 0)->0;
    power2::lemma_pow2_pos(1074);
    div_mod::lemma_fundamental_div_mod(v, o);
    let k = v / o;
    assert(v * 1 == v);
    assert(n == k) by (nonlinear_arith)
        requires
            v == o * k,
            -o <= 2 * (n * o - v) <= o,
            o > 0,
    ;
    assert(o * k == k * o) by (nonlinear_arith);
}

/// A number midway between two that can be written to some places is written as the one whose last
/// digit is even.
pub proof fn midway_numbers_are_written_evenly(x: binary::Exact, places: nat, q: nat)
    requires
        2 * (x.magnitude() * ten_to(places)) == (2 * q + 1) * power2::pow2(1074),
    ensures
        scaled(x, places) == if q % 2 == 0 {
            q
        } else {
            q + 1
        },
{
    let o = power2::pow2(1074);
    power2::lemma_pow2_pos(1074);
    power2::lemma_pow2_unfold(1074);
    let half = power2::pow2(1073);
    let num = (x.magnitude() as nat * ten_to(places)) as nat;
    let v = x.magnitude() * ten_to(places);
    assert((2 * q + 1) * o == 2 * (q * o + half)) by (nonlinear_arith)
        requires
            o == 2 * half,
    ;
    ten_is_positive(places);
    assert(x.magnitude() >= 0) by (nonlinear_arith)
        requires
            v == x.magnitude() * ten_to(places),
            v > 0,
            ten_to(places) > 0,
    ;
    assert(num == q * o + half);
    binary::ties_go_to_the_even(q, half, o);
}

/// What is no finite number is written in words.
pub proof fn other_numbers_are_written_in_words(bits: u64, single: u32, places: nat)
    ensures
        binary::is_nan64(bits) ==> fixed64(bits, places) == "NaN"@,
        !binary::is_nan64(bits) && !binary::is_finite64(bits) ==> fixed64(bits, places)
            == if binary::negative64(bits) {
            "-inf"@
        } else {
            "inf"@
        },
        binary::is_nan32(single) ==> fixed32(single, places) == "NaN"@,
        !binary::is_nan32(single) && !binary::is_finite32(single) ==> fixed32(single, places)
            == if binary::negative32(single) {
            "-inf"@
        } else {
            "inf"@
        },
{
    reveal(fixed64);
    reveal(fixed32);
    reveal_strlit("NaN");
    reveal_strlit("inf");
    reveal_strlit("-inf");
    assert(seq!['N', 'a', 'N'] =~= "NaN"@);
    assert(seq!['i', 'n', 'f'] =~= "inf"@);
    assert(seq!['-', 'i', 'n', 'f'] =~= "-inf"@);
}

} // verus!
