//! Numbers are carried as the bit pattern of an IEEE-754 double, so the
//! language's numeric semantics can be stated without floating-point types.
//! Comparisons, truthiness and truncation to an integer are defined here at
//! the bit level and verified; rounding arithmetic, decimal parsing and
//! decimal formatting rely on a software implementation of IEEE-754 behind
//! trusted wrappers.
use vstd::prelude::*;

use rustc_apfloat::Float;

verus! {

/// The sign bit of a double.
pub const SIGN_BIT: u64 = 0x8000_0000_0000_0000;

/// The magnitude (everything but the sign) of positive infinity.
pub const INF_MAGNITUDE: u64 = 0x7FF0_0000_0000_0000;

/// The bit pattern of the double `1.0`.
pub const ONE_BITS: u64 = 0x3FF0_0000_0000_0000;

/// The magnitude of a double: its bit pattern with the sign bit cleared.
pub open spec fn magnitude_of(bits: u64) -> u64 {
    bits & !SIGN_BIT
}

/// A double is a NaN when its magnitude is above that of infinity.
pub open spec fn is_nan(bits: u64) -> bool {
    magnitude_of(bits) > INF_MAGNITUDE
}

/// A double is zero when its magnitude is zero; both signed zeroes qualify.
pub open spec fn is_zero(bits: u64) -> bool {
    magnitude_of(bits) == 0
}

/// The key of a double orders every non-NaN value as IEEE-754 comparison
/// does: the magnitude, negated when the sign bit is set, with both zeroes
/// at zero.
pub open spec fn key_of(bits: u64) -> int {
    if bits >= SIGN_BIT {
        -(magnitude_of(bits) as int)
    } else {
        bits as int
    }
}

/// IEEE-754 `<` on doubles: false when either side is a NaN, the order of
/// the keys otherwise.
pub open spec fn num_lt(a: u64, b: u64) -> bool {
    !is_nan(a) && !is_nan(b) && key_of(a) < key_of(b)
}

/// IEEE-754 `==` on doubles: false when either side is a NaN, equality of
/// the keys otherwise, so the two zeroes are equal.
pub open spec fn num_eq(a: u64, b: u64) -> bool {
    !is_nan(a) && !is_nan(b) && key_of(a) == key_of(b)
}

/// A number is truthy exactly when it is not equal to zero; a NaN is truthy.
pub open spec fn num_truthy(bits: u64) -> bool {
    !num_eq(bits, 0)
}

/// Whether the magnitude of `bits` is above the magnitude of infinity.
pub fn exec_is_nan(bits: u64) -> (r: bool)
    ensures
        r == is_nan(bits),
{
    (bits & !SIGN_BIT) > INF_MAGNITUDE
}

/// IEEE-754 `<` on doubles, computed on the bit patterns.
pub fn exec_num_lt(a: u64, b: u64) -> (r: bool)
    ensures
        r == num_lt(a, b),
{
    proof {
        lemma_magnitude(a);
        lemma_magnitude(b);
    }
    if exec_is_nan(a) || exec_is_nan(b) {
        false
    } else {
        let a_neg = a >= SIGN_BIT;
        let b_neg = b >= SIGN_BIT;
        let a_mag = a & !SIGN_BIT;
        let b_mag = b & !SIGN_BIT;
        if a_neg {
            if b_neg {
                b_mag < a_mag
            } else {
                a_mag != 0 || b_mag != 0
            }
        } else {
            if b_neg {
                false
            } else {
                a_mag < b_mag
            }
        }
    }
}

/// The elementary facts relating a bit pattern, its sign bit and its
/// magnitude.
proof fn lemma_magnitude(a: u64)
    ensures
        a < SIGN_BIT ==> magnitude_of(a) == a,
        a >= SIGN_BIT ==> magnitude_of(a) + SIGN_BIT == a,
        magnitude_of(a) == 0 ==> a == 0 || a == SIGN_BIT,
        magnitude_of(a) < SIGN_BIT,
{
    assert(a < 0x8000_0000_0000_0000u64 ==> (a & !0x8000_0000_0000_0000u64) == a)
        by (bit_vector);
    assert(a >= 0x8000_0000_0000_0000u64 ==> (a & !0x8000_0000_0000_0000u64) + 0x8000_0000_0000_0000u64
        == a) by (bit_vector);
    assert((a & !0x8000_0000_0000_0000u64) == 0 ==> a == 0 || a == 0x8000_0000_0000_0000u64)
        by (bit_vector);
    assert((a & !0x8000_0000_0000_0000u64) < 0x8000_0000_0000_0000u64) by (bit_vector);
}

/// IEEE-754 `==` on doubles, computed on the bit patterns.
pub fn exec_num_eq(a: u64, b: u64) -> (r: bool)
    ensures
        r == num_eq(a, b),
{
    proof {
        lemma_magnitude(a);
        lemma_magnitude(b);
    }
    if exec_is_nan(a) || exec_is_nan(b) {
        false
    } else {
        let a_mag = a & !SIGN_BIT;
        let b_mag = b & !SIGN_BIT;
        (a_mag == 0 && b_mag == 0) || a == b
    }
}

/// Whether a number is truthy, computed on the bit pattern.
pub fn exec_num_truthy(bits: u64) -> (r: bool)
    ensures
        r == num_truthy(bits),
{
    !exec_num_eq(bits, 0)
}

/// The sum of two doubles, rounding to nearest, ties to even.
pub uninterp spec fn add_bits(a: u64, b: u64) -> u64;

/// The difference of two doubles, rounding to nearest, ties to even.
pub uninterp spec fn sub_bits(a: u64, b: u64) -> u64;

/// The product of two doubles, rounding to nearest, ties to even.
pub uninterp spec fn mul_bits(a: u64, b: u64) -> u64;

/// The quotient of two doubles, rounding to nearest, ties to even.
pub uninterp spec fn div_bits(a: u64, b: u64) -> u64;

/// The C `fmod` remainder of two doubles.
pub uninterp spec fn rem_bits(a: u64, b: u64) -> u64;

/// The double nearest to a machine integer, ties to even.
pub uninterp spec fn num_of_count(n: u64) -> u64;

/// The double that a run of digits and dots denotes, rounded to nearest,
/// or `None` where the run is not a well-formed decimal number.
pub uninterp spec fn num_of_text(s: Seq<char>) -> Option<u64>;

/// The decimal text of a double.
pub uninterp spec fn text_of_num(bits: u64) -> Seq<char>;

/// Relies on `rustc_apfloat::ieee::Double::add_r`: IEEE-754 double addition,
/// rounding to nearest, ties to even.
#[verifier::external_body]
pub(crate) fn exec_add(a: u64, b: u64) -> (r: u64)
    ensures
        r == add_bits(a, b),
{
    let x = rustc_apfloat::ieee::Double::from_bits(a as u128);
    let y = rustc_apfloat::ieee::Double::from_bits(b as u128);
    x.add_r(y, rustc_apfloat::Round::NearestTiesToEven).value.to_bits() as u64
}

/// Relies on `rustc_apfloat::ieee::Double::sub_r`: IEEE-754 double
/// subtraction, rounding to nearest, ties to even.
#[verifier::external_body]
pub(crate) fn exec_sub(a: u64, b: u64) -> (r: u64)
    ensures
        r == sub_bits(a, b),
{
    let x = rustc_apfloat::ieee::Double::from_bits(a as u128);
    let y = rustc_apfloat::ieee::Double::from_bits(b as u128);
    x.sub_r(y, rustc_apfloat::Round::NearestTiesToEven).value.to_bits() as u64
}

/// Relies on `rustc_apfloat::ieee::Double::mul_r`: IEEE-754 double
/// multiplication, rounding to nearest, ties to even.
#[verifier::external_body]
pub(crate) fn exec_mul(a: u64, b: u64) -> (r: u64)
    ensures
        r == mul_bits(a, b),
{
    let x = rustc_apfloat::ieee::Double::from_bits(a as u128);
    let y = rustc_apfloat::ieee::Double::from_bits(b as u128);
    x.mul_r(y, rustc_apfloat::Round::NearestTiesToEven).value.to_bits() as u64
}

/// Relies on `rustc_apfloat::ieee::Double::div_r`: IEEE-754 double division,
/// rounding to nearest, ties to even.
#[verifier::external_body]
pub(crate) fn exec_div(a: u64, b: u64) -> (r: u64)
    ensures
        r == div_bits(a, b),
{
    let x = rustc_apfloat::ieee::Double::from_bits(a as u128);
    let y = rustc_apfloat::ieee::Double::from_bits(b as u128);
    x.div_r(y, rustc_apfloat::Round::NearestTiesToEven).value.to_bits() as u64
}

/// Relies on `rustc_apfloat::ieee::Double::c_fmod`: the C `fmod` remainder,
/// which is what `%` means on doubles.
#[verifier::external_body]
pub(crate) fn exec_rem(a: u64, b: u64) -> (r: u64)
    ensures
        r == rem_bits(a, b),
{
    let x = rustc_apfloat::ieee::Double::from_bits(a as u128);
    let y = rustc_apfloat::ieee::Double::from_bits(b as u128);
    x.c_fmod(y).value.to_bits() as u64
}

/// Relies on `rustc_apfloat::ieee::Double::from_u128`: the conversion of a
/// machine integer to the nearest double, ties to even.
#[verifier::external_body]
pub(crate) fn exec_num_of_count(n: u64) -> (r: u64)
    ensures
        r == num_of_count(n),
{
    rustc_apfloat::ieee::Double::from_u128(n as u128).value.to_bits() as u64
}

/// Relies on `rustc_apfloat::ieee::Double::from_str`: correctly rounded
/// decimal-to-double conversion, with an error for text that is not a
/// well-formed decimal number (such as one with two dots).
#[verifier::external_body]
pub(crate) fn exec_num_of_text(digits: &Vec<char>) -> (r: Option<u64>)
    ensures
        r == num_of_text(digits@),
{
    let s: String = digits.iter().collect();
    match s.parse::<rustc_apfloat::ieee::Double>() {
        Ok(d) => Some(d.to_bits() as u64),
        Err(_) => None,
    }
}

/// Relies on the `Display` implementation of `rustc_apfloat::ieee::Double`:
/// the decimal text of a double, with enough digits to round-trip.
#[verifier::external_body]
pub(crate) fn exec_text_of_num(bits: u64) -> (r: String)
    ensures
        r@ == text_of_num(bits),
{
    format!("{}", rustc_apfloat::ieee::Double::from_bits(bits as u128))
}

} // verus!
