//! A JSON number held as sign, 64-bit decimal mantissa and 16-bit decimal
//! exponent, with a dedicated tag for "not a number".

use crate::grisu::{all_digits, digits_value, grisu3, grisu3_spec, is_finite};
use crate::literal::{magnitude_bits, sign_bit};
use vstd::prelude::*;
use vstd::wrapping::i64_specs::signed_crop;

verus! {

const NEGATIVE: u8 = 0;

const POSITIVE: u8 = 1;

const NAN_TAG: u8 = 254;

/// 2^64, the modulus of `u64` arithmetic.
pub open spec fn two_pow_64() -> int {
    0x1_0000_0000_0000_0000
}

/// `10^n`.
pub open spec fn pow10(n: nat) -> nat
    decreases n,
{
    if n == 0 {
        1
    } else {
        10 * pow10((n - 1) as nat)
    }
}

/// `10^n` reduced modulo 2^64, the value that `u64` arithmetic yields.
pub open spec fn pow10_wrapped(n: nat) -> int {
    pow10(n) as int % two_pow_64()
}

pub proof fn lemma_pow10_positive(n: nat)
    ensures
        pow10(n) >= 1,
    decreases n,
{
    if n > 0 {
        lemma_pow10_positive((n - 1) as nat);
    }
}

/// The powers of ten from `10^0` to `10^20`.
pub(crate) proof fn lemma_pow10_table()
    ensures
        pow10(0) == 1,
        pow10(1) == 10,
        pow10(2) == 100,
        pow10(3) == 1000,
        pow10(4) == 10000,
        pow10(5) == 100000,
        pow10(6) == 1000000,
        pow10(7) == 10000000,
        pow10(8) == 100000000,
        pow10(9) == 1000000000,
        pow10(10) == 10000000000,
        pow10(11) == 100000000000,
        pow10(12) == 1000000000000,
        pow10(13) == 10000000000000,
        pow10(14) == 100000000000000,
        pow10(15) == 1000000000000000,
        pow10(16) == 10000000000000000,
        pow10(17) == 100000000000000000,
        pow10(18) == 1000000000000000000,
        pow10(19) == 10000000000000000000,
        pow10(20) == 100000000000000000000,
{
    reveal_with_fuel(pow10, 21);
}

/// `10^e`, wrapping modulo 2^64 from `e == 20` on.
pub fn decimal_power(e: u16) -> (r: u64)
    ensures
        r == pow10_wrapped(e as nat),
{
    proof {
        lemma_pow10_table();
    }
    match e {
        0 => 1,
        1 => 10,
        2 => 100,
        3 => 1000,
        4 => 10000,
        5 => 100000,
        6 => 1000000,
        7 => 10000000,
        8 => 100000000,
        9 => 1000000000,
        10 => 10000000000,
        11 => 100000000000,
        12 => 1000000000000,
        13 => 10000000000000,
        14 => 100000000000000,
        15 => 1000000000000000,
        16 => 10000000000000000,
        17 => 100000000000000000,
        18 => 1000000000000000000,
        19 => 10000000000000000000,
        _ => {
            let mut r: u64 = 10000000000000000000;
            let mut i: u16 = 19;
            while i < e
                invariant
                    19 <= i <= e,
                    r == pow10_wrapped(i as nat),
                decreases e - i,
            {
                proof {
                    vstd::arithmetic::div_mod::lemma_mul_mod_noop_left(
                        pow10(i as nat) as int,
                        10,
                        two_pow_64(),
                    );
                    assert(pow10((i + 1) as nat) == 10 * pow10(i as nat));
                }
                r = r.wrapping_mul(10);
                i = i + 1;
            }
            r
        },
    }
}


/// Magnitude of `m × 10^d` with the fractional digits dropped.
pub open spec fn scaled_magnitude(m: nat, d: int) -> nat {
    if d >= 0 {
        m * pow10(d as nat)
    } else {
        m / pow10((-d) as nat)
    }
}

/// The `i64` that two's-complement arithmetic yields for `±mag`.
pub open spec fn signed_wrap(positive: bool, mag: int) -> i64 {
    if positive {
        signed_crop(mag)
    } else {
        signed_crop(-mag)
    }
}

/// A decimal number `± mantissa × 10^exponent`, or the "not a number" tag.
///
/// The sign and the tag share one byte: 0 is negative, 1 positive, and any
/// larger value marks NaN. Zero may carry either sign.
#[derive(Copy, Clone, Debug)]
pub struct Number {
    category: u8,
    exponent: i16,
    mantissa: u64,
}

impl Number {
    pub closed spec fn spec_is_nan(self) -> bool {
        self.category > POSITIVE
    }

    pub closed spec fn spec_positive(self) -> bool {
        self.category == POSITIVE
    }

    pub closed spec fn spec_mantissa(self) -> u64 {
        self.mantissa
    }

    pub closed spec fn spec_exponent(self) -> i16 {
        self.exponent
    }

    pub open spec fn spec_is_zero(self) -> bool {
        self.spec_mantissa() == 0 && !self.spec_is_nan()
    }

    /// The number with the given parts.
    pub closed spec fn parts(positive: bool, mantissa: u64, exponent: i16) -> Number {
        Number {
            category: if positive {
                POSITIVE
            } else {
                NEGATIVE
            },
            exponent: exponent,
            mantissa: mantissa,
        }
    }

    /// The "not a number" value.
    pub closed spec fn spec_nan() -> Number {
        Number { category: NAN_TAG, exponent: 0, mantissa: 0 }
    }

    /// The "not a number" value; it equals itself.
    pub fn nan() -> (r: Number)
        ensures
            r == Number::spec_nan(),
            r.spec_is_nan(),
    {
        Number { category: NAN_TAG, exponent: 0, mantissa: 0 }
    }

    /// The number `± mantissa × 10^exponent`; never NaN.
    pub fn from_parts(positive: bool, mantissa: u64, exponent: i16) -> (r: Number)
        ensures
            r == Number::parts(positive, mantissa, exponent),
            !r.spec_is_nan(),
            r.spec_positive() == positive,
            r.spec_mantissa() == mantissa,
            r.spec_exponent() == exponent,
    {
        Number {
            category: if positive {
                POSITIVE
            } else {
                NEGATIVE
            },
            exponent: exponent,
            mantissa: mantissa,
        }
    }

    /// Sign, mantissa and exponent, the inverse of `from_parts`.
    pub fn as_parts(&self) -> (r: (bool, u64, i16))
        ensures
            r == (self.spec_positive(), self.spec_mantissa(), self.spec_exponent()),
    {
        (self.category == POSITIVE, self.mantissa, self.exponent)
    }

    pub fn is_sign_positive(&self) -> (r: bool)
        ensures
            r == self.spec_positive(),
    {
        self.category == POSITIVE
    }

    pub fn is_zero(&self) -> (r: bool)
        ensures
            r == self.spec_is_zero(),
    {
        self.mantissa == 0 && !self.is_nan()
    }

    pub fn is_nan(&self) -> (r: bool)
        ensures
            r == self.spec_is_nan(),
    {
        self.category > POSITIVE
    }

    /// NaN or zero.
    pub fn is_empty(&self) -> (r: bool)
        ensures
            r == (self.spec_mantissa() == 0 || self.spec_is_nan()),
    {
        self.mantissa == 0 || self.is_nan()
    }

    /// The number times `10^point`, fractional digits dropped, modulo 2^64;
    /// `None` for NaN and for a negative sign.
    pub fn as_fixed_point_u64(&self, point: u16) -> (r: Option<u64>)
        ensures
            r == (if self.spec_is_nan() || !self.spec_positive() {
                None
            } else {
                Some(
                    (scaled_magnitude(
                        self.spec_mantissa() as nat,
                        point + self.spec_exponent(),
                    ) as int % two_pow_64()) as u64,
                )
            }),
    {
        if self.category != POSITIVE {
            return None;
        }
        Some(scaled_mantissa(self.mantissa, point as i32 + self.exponent as i32))
    }

    /// The number times `10^point`, fractional digits dropped, in
    /// two's-complement `i64` arithmetic; `None` for NaN.
    pub fn as_fixed_point_i64(&self, point: u16) -> (r: Option<i64>)
        ensures
            r == (if self.spec_is_nan() {
                None
            } else {
                Some(
                    signed_wrap(
                        self.spec_positive(),
                        scaled_magnitude(
                            self.spec_mantissa() as nat,
                            point + self.spec_exponent(),
                        ) as int % two_pow_64(),
                    ),
                )
            }),
    {
        if self.is_nan() {
            return None;
        }
        let mag = scaled_mantissa(self.mantissa, point as i32 + self.exponent as i32);
        Some(signed_from_magnitude(self.is_sign_positive(), mag))
    }
}

/// `m × 10^d` with the fractional digits dropped, modulo 2^64.
fn scaled_mantissa(m: u64, d: i32) -> (r: u64)
    requires
        -0x1_0000 < d < 0x2_0000,
    ensures
        r == scaled_magnitude(m as nat, d as int) as int % two_pow_64(),
{
    if d >= 0 {
        let p = pow10_wrapping(d as u32);
        proof {
            vstd::arithmetic::div_mod::lemma_mul_mod_noop_right(
                m as int,
                pow10(d as nat) as int,
                two_pow_64(),
            );
        }
        m.wrapping_mul(p)
    } else if d > -20 {
        let p = decimal_power((-d) as u16);
        proof {
            lemma_pow10_table();
            lemma_pow10_monotone((-d) as nat, 19);
            lemma_pow10_positive((-d) as nat);
            assert(p == pow10((-d) as nat));
            assert(m / p <= m) by {
                vstd::arithmetic::div_mod::lemma_div_is_ordered_by_denominator(m as int, 1, p as int);
            }
        }
        m / p
    } else {
        proof {
            lemma_pow10_table();
            lemma_pow10_monotone(20, (-d) as nat);
            vstd::arithmetic::div_mod::lemma_basic_div(m as int, pow10((-d) as nat) as int);
        }
        0
    }
}

/// The `i64` that two's-complement arithmetic gives for `±mag`.
fn signed_from_magnitude(positive: bool, mag: u64) -> (r: i64)
    ensures
        r == signed_wrap(positive, mag as int),
{
    let t: i64 = if mag <= 0x7fff_ffff_ffff_ffff {
        mag as i64
    } else {
        (mag - 0x8000_0000_0000_0000) as i64 + i64::MIN
    };
    if positive {
        t
    } else {
        0i64.wrapping_sub(t)
    }
}

pub proof fn lemma_pow10_monotone(a: nat, b: nat)
    requires
        a <= b,
    ensures
        pow10(a) <= pow10(b),
    decreases b - a,
{
    if a < b {
        lemma_pow10_monotone(a, (b - 1) as nat);
        lemma_pow10_positive((b - 1) as nat);
    }
}

/// `10^e` modulo 2^64.
fn pow10_wrapping(e: u32) -> (r: u64)
    ensures
        r == pow10_wrapped(e as nat),
{
    let mut r: u64 = 1;
    let mut i: u32 = 0;
    while i < e
        invariant
            i <= e,
            r == pow10_wrapped(i as nat),
        decreases e - i,
    {
        proof {
            vstd::arithmetic::div_mod::lemma_mul_mod_noop_left(
                pow10(i as nat) as int,
                10,
                two_pow_64(),
            );
            assert(pow10((i + 1) as nat) == 10 * pow10(i as nat));
        }
        r = r.wrapping_mul(10);
        i = i + 1;
    }
    r
}


/// Value equality of two numbers: zeros of either sign are equal, NaN equals
/// NaN, and otherwise the signs must agree and the mantissa with the larger
/// exponent is scaled to the other's exponent. That scaling wraps modulo 2^64.
pub open spec fn numbers_equal(a: Number, b: Number) -> bool {
    if (a.spec_is_zero() && b.spec_is_zero()) || (a.spec_is_nan() && b.spec_is_nan()) {
        true
    } else if a.spec_is_nan() != b.spec_is_nan() || a.spec_positive() != b.spec_positive() {
        false
    } else {
        let d = a.spec_exponent() - b.spec_exponent();
        if d >= 0 {
            (a.spec_mantissa() * pow10(d as nat)) as int % two_pow_64() == b.spec_mantissa()
        } else {
            a.spec_mantissa() == (b.spec_mantissa() * pow10((-d) as nat)) as int % two_pow_64()
        }
    }
}

impl PartialEq for Number {
    fn eq(&self, other: &Number) -> (r: bool) {
        if self.is_zero() && other.is_zero() || self.is_nan() && other.is_nan() {
            return true;
        }
        if self.category != other.category {
            return false;
        }
        let e_diff: i32 = self.exponent as i32 - other.exponent as i32;
        if e_diff == 0 {
            proof {
                lemma_scale_by_one(self.mantissa);
                lemma_scale_by_one(other.mantissa);
            }
            self.mantissa == other.mantissa
        } else if e_diff > 0 {
            let power = decimal_power(e_diff as u16);
            proof {
                vstd::arithmetic::div_mod::lemma_mul_mod_noop_right(
                    self.mantissa as int,
                    pow10(e_diff as nat) as int,
                    two_pow_64(),
                );
            }
            self.mantissa.wrapping_mul(power) == other.mantissa
        } else {
            let power = decimal_power((-e_diff) as u16);
            proof {
                vstd::arithmetic::div_mod::lemma_mul_mod_noop_right(
                    other.mantissa as int,
                    pow10((-e_diff) as nat) as int,
                    two_pow_64(),
                );
            }
            self.mantissa == other.mantissa.wrapping_mul(power)
        }
    }
}

impl vstd::std_specs::cmp::PartialEqSpecImpl for Number {
    open spec fn obeys_eq_spec() -> bool {
        true
    }

    open spec fn eq_spec(&self, other: &Number) -> bool {
        numbers_equal(*self, *other)
    }
}

/// The number that an integer converts to: its magnitude with exponent 0,
/// positive for zero.
pub closed spec fn number_of_int(v: int) -> Number {
    Number {
        category: if v >= 0 {
            POSITIVE
        } else {
            NEGATIVE
        },
        exponent: 0,
        mantissa: (if v >= 0 {
            v
        } else {
            -v
        }) as u64,
    }
}

pub proof fn lemma_number_of_int(v: int)
    requires
        -two_pow_64() < v < two_pow_64(),
    ensures
        !number_of_int(v).spec_is_nan(),
        number_of_int(v).spec_positive() == (v >= 0),
        number_of_int(v).spec_mantissa() == (if v >= 0 {
            v
        } else {
            -v
        }),
        number_of_int(v).spec_exponent() == 0,
{
}

impl Number {
    /// The number truncated toward zero, in two's-complement `i64`
    /// arithmetic; 0 for NaN.
    pub open spec fn spec_to_i64(self) -> i64 {
        if self.spec_is_nan() {
            0
        } else {
            signed_wrap(
                self.spec_positive(),
                scaled_magnitude(self.spec_mantissa() as nat, self.spec_exponent() as int) as int
                    % two_pow_64(),
            )
        }
    }

    /// The number truncated toward zero, modulo 2^64; 0 for NaN.
    pub open spec fn spec_to_u64(self) -> u64 {
        if self.spec_is_nan() {
            0
        } else {
            let mag = scaled_magnitude(
                self.spec_mantissa() as nat,
                self.spec_exponent() as int,
            ) as int % two_pow_64();
            ((if self.spec_positive() {
                mag
            } else {
                -mag
            }) % two_pow_64()) as u64
        }
    }
}

impl From<i64> for Number {
    fn from(num: i64) -> (r: Number) {
        proof {
            lemma_number_of_int(num as int);
        }
        if num < 0 {
            Number { category: NEGATIVE, exponent: 0, mantissa: (0 - num as i128) as u64 }
        } else {
            Number { category: POSITIVE, exponent: 0, mantissa: num as u64 }
        }
    }
}

impl vstd::std_specs::convert::FromSpecImpl<i64> for Number {
    open spec fn obeys_from_spec() -> bool {
        true
    }

    open spec fn from_spec(v: i64) -> Number {
        number_of_int(v as int)
    }
}

impl From<u64> for Number {
    fn from(num: u64) -> (r: Number) {
        Number { category: POSITIVE, exponent: 0, mantissa: num }
    }
}

impl vstd::std_specs::convert::FromSpecImpl<u64> for Number {
    open spec fn obeys_from_spec() -> bool {
        true
    }

    open spec fn from_spec(v: u64) -> Number {
        number_of_int(v as int)
    }
}

impl From<Number> for i64 {
    fn from(num: Number) -> (r: i64) {
        if num.is_nan() {
            return 0;
        }
        let mag = scaled_mantissa(num.mantissa, num.exponent as i32);
        signed_from_magnitude(num.is_sign_positive(), mag)
    }
}

impl vstd::std_specs::convert::FromSpecImpl<Number> for i64 {
    open spec fn obeys_from_spec() -> bool {
        true
    }

    open spec fn from_spec(v: Number) -> i64 {
        v.spec_to_i64()
    }
}

impl From<Number> for u64 {
    fn from(num: Number) -> (r: u64) {
        if num.is_nan() {
            return 0;
        }
        let mag = scaled_mantissa(num.mantissa, num.exponent as i32);
        if num.is_sign_positive() {
            mag
        } else {
            0u64.wrapping_sub(mag)
        }
    }
}

impl vstd::std_specs::convert::FromSpecImpl<Number> for u64 {
    open spec fn obeys_from_spec() -> bool {
        true
    }

    open spec fn from_spec(v: Number) -> u64 {
        v.spec_to_u64()
    }
}

/// Converting an `i64` to a number and back gives the same `i64`.
pub proof fn lemma_i64_round_trip(i: i64)
    ensures
        number_of_int(i as int).spec_to_i64() == i,
{
    lemma_number_of_int(i as int);
    let n = number_of_int(i as int);
    lemma_scale_by_one(n.spec_mantissa());
}

/// Converting a `u64` to a number and back gives the same `u64`.
pub proof fn lemma_u64_round_trip(u: u64)
    ensures
        number_of_int(u as int).spec_to_u64() == u,
{
    lemma_number_of_int(u as int);
    let n = number_of_int(u as int);
    lemma_scale_by_one(n.spec_mantissa());
}

/// NaN equals itself and differs from every number that is not NaN.
pub proof fn lemma_nan_equality(a: Number, b: Number)
    requires
        a.spec_is_nan(),
        !b.spec_is_nan(),
    ensures
        numbers_equal(a, a),
        !numbers_equal(a, b),
        !numbers_equal(b, a),
{
}

/// Two numbers of one sign whose mantissas differ by the factor
/// `10^(difference of exponents)` denote one value, and compare equal.
pub proof fn lemma_equal_across_exponents(a: Number, b: Number)
    requires
        !a.spec_is_nan(),
        !b.spec_is_nan(),
        a.spec_positive() == b.spec_positive(),
        a.spec_exponent() >= b.spec_exponent(),
        a.spec_mantissa() * pow10((a.spec_exponent() - b.spec_exponent()) as nat)
            == b.spec_mantissa(),
    ensures
        numbers_equal(a, b),
        numbers_equal(b, a),
{
    let d = (a.spec_exponent() - b.spec_exponent()) as nat;
    vstd::arithmetic::div_mod::lemma_small_mod(b.spec_mantissa() as nat, two_pow_64() as nat);
    if d == 0 {
        lemma_scale_by_one(a.spec_mantissa());
        lemma_scale_by_one(b.spec_mantissa());
    } else {
        assert((-(b.spec_exponent() - a.spec_exponent())) as nat == d);
    }
}

proof fn lemma_scale_by_one(m: u64)
    ensures
        m * pow10(0) == m,
        scaled_magnitude(m as nat, 0) == m,
        (m * pow10(0)) as int % two_pow_64() == m,
        m as int % two_pow_64() == m,
{
    assert(pow10(0) == 1);
    vstd::arithmetic::div_mod::lemma_small_mod(m as nat, two_pow_64() as nat);
}


/// The largest mantissa that still takes one more digit.
pub open spec fn mantissa_room() -> int {
    1844674407370955160
}

/// The number that `from_f64_bits` gives for a double's bit pattern.
pub open spec fn number_of_bits(bits: u64) -> Option<Number> {
    if !is_finite(bits) {
        Some(Number::spec_nan())
    } else if magnitude_bits(bits) == 0 {
        Some(Number::parts(!sign_bit(bits), 0, 0))
    } else {
        match grisu3_spec(magnitude_bits(bits)) {
            Some((d, k)) => if digits_value(d.drop_last()) > mantissa_room() {
                None
            } else {
                Some(Number::parts(!sign_bit(bits), digits_value(d) as u64, k as i16))
            },
            None => None,
        }
    }
}

impl Number {
    /// The number that a double converts to, given its bit pattern: NaN for
    /// NaN and the infinities, zero with the double's sign for zero, and
    /// otherwise the shortest digits that Grisu3 finds for the magnitude as
    /// mantissa, with their exponent, and the double's sign. `None` where
    /// Grisu3 cannot vouch for its digits or they overflow the mantissa.
    pub fn from_f64_bits(bits: u64) -> (r: Option<Number>)
        ensures
            r == number_of_bits(bits),
            !is_finite(bits) ==> (r matches Some(n) && n.spec_is_nan()),
            is_finite(bits) && magnitude_bits(bits) == 0 ==> (r matches Some(n) && !n.spec_is_nan()
                && n.spec_positive() == !sign_bit(bits) && n.spec_mantissa() == 0
                && n.spec_exponent() == 0),
    {
        assert((bits & 0x8000000000000000) != 0 <==> bits >= 0x8000_0000_0000_0000)
            by (bit_vector);
        assert(bits & !0x8000000000000000u64 == bits % 0x8000_0000_0000_0000) by (bit_vector);
        let positive = (bits & 0x8000000000000000) == 0;
        let magnitude = bits & !0x8000000000000000u64;
        if magnitude >= 0x7FF0_0000_0000_0000 {
            return Some(Number::nan());
        }
        if magnitude == 0 {
            return Some(Number::from_parts(positive, 0, 0));
        }
        match grisu3(magnitude) {
            Some((digits, d_exp)) => match digits_to_u64(&digits) {
                Some(mantissa) => Some(Number::from_parts(positive, mantissa, d_exp as i16)),
                None => None,
            },
            None => None,
        }
    }
}

/// The integer that a string of decimal digits spells, where it fits a
/// `u64` with room for one more digit.
fn digits_to_u64(digits: &Vec<u8>) -> (r: Option<u64>)
    requires
        all_digits(digits@),
        digits.len() >= 1,
    ensures
        r == (if digits_value(digits@.drop_last()) > mantissa_room() {
            None
        } else {
            Some(digits_value(digits@) as u64)
        }),
        r matches Some(m) ==> m == digits_value(digits@),
{
    let mut m: u64 = 0;
    let mut i: usize = 0;
    assert(digits@.subrange(0, 0) =~= Seq::<u8>::empty());
    while i < digits.len()
        invariant
            i <= digits.len(),
            digits.len() >= 1,
            all_digits(digits@),
            m == digits_value(digits@.subrange(0, i as int)),
            i >= 1 ==> digits_value(digits@.subrange(0, i - 1)) <= mantissa_room(),
        decreases digits.len() - i,
    {
        if m > 1844674407370955160 {
            proof {
                lemma_prefix_value_monotone(digits@, i as int, digits@.len() - 1);
                assert(digits@.subrange(0, digits@.len() - 1) =~= digits@.drop_last());
            }
            return None;
        }
        let d = digits[i] - 48;
        proof {
            crate::grisu::lemma_digits_value_push(digits@.subrange(0, i as int), digits@[i as int]);
            assert(digits@.subrange(0, i as int).push(digits@[i as int]) =~= digits@.subrange(
                0,
                i + 1,
            ));
        }
        m = m * 10 + d as u64;
        i = i + 1;
    }
    assert(digits@.subrange(0, digits@.len() as int) =~= digits@);
    assert(digits@.subrange(0, digits@.len() - 1) =~= digits@.drop_last());
    Some(m)
}

/// A longer prefix of a digit string spells at least as large a number.
proof fn lemma_prefix_value_monotone(d: Seq<u8>, i: int, j: int)
    requires
        0 <= i <= j <= d.len(),
        all_digits(d),
    ensures
        digits_value(d.subrange(0, i)) <= digits_value(d.subrange(0, j)),
    decreases j - i,
{
    if i < j {
        lemma_prefix_value_monotone(d, i, j - 1);
        crate::grisu::lemma_digits_value_push(d.subrange(0, j - 1), d[j - 1]);
        assert(d.subrange(0, j - 1).push(d[j - 1]) =~= d.subrange(0, j));
        lemma_digits_value_nonneg(d.subrange(0, j - 1));
    }
}

proof fn lemma_digits_value_nonneg(d: Seq<u8>)
    requires
        all_digits(d),
    ensures
        digits_value(d) >= 0,
    decreases d.len(),
{
    if d.len() > 0 {
        lemma_digits_value_nonneg(d.drop_last());
    }
}


/// The number with its sign flipped; NaN stays NaN.
pub closed spec fn negated(n: Number) -> Number {
    Number {
        category: if n.category == POSITIVE {
            NEGATIVE
        } else if n.category == NEGATIVE {
            POSITIVE
        } else {
            n.category
        },
        exponent: n.exponent,
        mantissa: n.mantissa,
    }
}

pub proof fn lemma_negated(n: Number)
    ensures
        negated(n).spec_is_nan() == n.spec_is_nan(),
        !n.spec_is_nan() ==> negated(n).spec_positive() == !n.spec_positive(),
        negated(n).spec_mantissa() == n.spec_mantissa(),
        negated(n).spec_exponent() == n.spec_exponent(),
{
}

impl core::ops::Neg for Number {
    type Output = Number;

    fn neg(self) -> (r: Number) {
        Number {
            category: if self.category == POSITIVE {
                NEGATIVE
            } else if self.category == NEGATIVE {
                POSITIVE
            } else {
                self.category
            },
            exponent: self.exponent,
            mantissa: self.mantissa,
        }
    }
}

impl vstd::std_specs::ops::NegSpecImpl for Number {
    open spec fn obeys_neg_spec() -> bool {
        true
    }

    open spec fn neg_req(self) -> bool {
        true
    }

    open spec fn neg_spec(self) -> Number {
        negated(self)
    }
}

impl From<i32> for Number {
    fn from(num: i32) -> (r: Number) {
        Number::from(num as i64)
    }
}

impl vstd::std_specs::convert::FromSpecImpl<i32> for Number {
    open spec fn obeys_from_spec() -> bool {
        true
    }

    open spec fn from_spec(v: i32) -> Number {
        number_of_int(v as int)
    }
}

impl From<i16> for Number {
    fn from(num: i16) -> (r: Number) {
        Number::from(num as i64)
    }
}

impl vstd::std_specs::convert::FromSpecImpl<i16> for Number {
    open spec fn obeys_from_spec() -> bool {
        true
    }

    open spec fn from_spec(v: i16) -> Number {
        number_of_int(v as int)
    }
}

impl From<i8> for Number {
    fn from(num: i8) -> (r: Number) {
        Number::from(num as i64)
    }
}

impl vstd::std_specs::convert::FromSpecImpl<i8> for Number {
    open spec fn obeys_from_spec() -> bool {
        true
    }

    open spec fn from_spec(v: i8) -> Number {
        number_of_int(v as int)
    }
}

impl From<isize> for Number {
    fn from(num: isize) -> (r: Number) {
        Number::from(num as i64)
    }
}

impl vstd::std_specs::convert::FromSpecImpl<isize> for Number {
    open spec fn obeys_from_spec() -> bool {
        true
    }

    open spec fn from_spec(v: isize) -> Number {
        number_of_int(v as int)
    }
}

impl From<u32> for Number {
    fn from(num: u32) -> (r: Number) {
        Number::from(num as u64)
    }
}

impl vstd::std_specs::convert::FromSpecImpl<u32> for Number {
    open spec fn obeys_from_spec() -> bool {
        true
    }

    open spec fn from_spec(v: u32) -> Number {
        number_of_int(v as int)
    }
}

impl From<u16> for Number {
    fn from(num: u16) -> (r: Number) {
        Number::from(num as u64)
    }
}

impl vstd::std_specs::convert::FromSpecImpl<u16> for Number {
    open spec fn obeys_from_spec() -> bool {
        true
    }

    open spec fn from_spec(v: u16) -> Number {
        number_of_int(v as int)
    }
}

impl From<u8> for Number {
    fn from(num: u8) -> (r: Number) {
        Number::from(num as u64)
    }
}

impl vstd::std_specs::convert::FromSpecImpl<u8> for Number {
    open spec fn obeys_from_spec() -> bool {
        true
    }

    open spec fn from_spec(v: u8) -> Number {
        number_of_int(v as int)
    }
}

impl From<usize> for Number {
    fn from(num: usize) -> (r: Number) {
        Number::from(num as u64)
    }
}

impl vstd::std_specs::convert::FromSpecImpl<usize> for Number {
    open spec fn obeys_from_spec() -> bool {
        true
    }

    open spec fn from_spec(v: usize) -> Number {
        number_of_int(v as int)
    }
}

impl From<Number> for i32 {
    fn from(num: Number) -> (r: i32) {
        let v = u64::from(num);
        assert((v as i32) == (if v % 0x100000000 >= 0x80000000 {
            v % 0x100000000 - 0x100000000
        } else {
            (v % 0x100000000) as int
        })) by (bit_vector);
        v as i32
    }
}

impl vstd::std_specs::convert::FromSpecImpl<Number> for i32 {
    open spec fn obeys_from_spec() -> bool {
        true
    }

    /// The low 32 bits of the `u64` conversion, as two's complement.
    open spec fn from_spec(v: Number) -> i32 {
        let low = v.spec_to_u64() as int % 0x100000000;
        (if low >= 0x80000000 {
            low - 0x100000000
        } else {
            low
        }) as i32
    }
}

impl From<Number> for i16 {
    fn from(num: Number) -> (r: i16) {
        let v = u64::from(num);
        assert((v as i16) == (if v % 0x10000 >= 0x8000 {
            v % 0x10000 - 0x10000
        } else {
            (v % 0x10000) as int
        })) by (bit_vector);
        v as i16
    }
}

impl vstd::std_specs::convert::FromSpecImpl<Number> for i16 {
    open spec fn obeys_from_spec() -> bool {
        true
    }

    /// The low 16 bits of the `u64` conversion, as two's complement.
    open spec fn from_spec(v: Number) -> i16 {
        let low = v.spec_to_u64() as int % 0x10000;
        (if low >= 0x8000 {
            low - 0x10000
        } else {
            low
        }) as i16
    }
}

impl From<Number> for i8 {
    fn from(num: Number) -> (r: i8) {
        let v = u64::from(num);
        assert((v as i8) == (if v % 0x100 >= 0x80 {
            v % 0x100 - 0x100
        } else {
            (v % 0x100) as int
        })) by (bit_vector);
        v as i8
    }
}

impl vstd::std_specs::convert::FromSpecImpl<Number> for i8 {
    open spec fn obeys_from_spec() -> bool {
        true
    }

    /// The low 8 bits of the `u64` conversion, as two's complement.
    open spec fn from_spec(v: Number) -> i8 {
        let low = v.spec_to_u64() as int % 0x100;
        (if low >= 0x80 {
            low - 0x100
        } else {
            low
        }) as i8
    }
}

impl From<Number> for u32 {
    fn from(num: Number) -> (r: u32) {
        let v = u64::from(num);
        assert((v as u32) == v % 0x100000000) by (bit_vector);
        v as u32
    }
}

impl vstd::std_specs::convert::FromSpecImpl<Number> for u32 {
    open spec fn obeys_from_spec() -> bool {
        true
    }

    /// The low 32 bits of the `u64` conversion.
    open spec fn from_spec(v: Number) -> u32 {
        (v.spec_to_u64() as int % 0x100000000) as u32
    }
}

impl From<Number> for u16 {
    fn from(num: Number) -> (r: u16) {
        let v = u64::from(num);
        assert((v as u16) == v % 0x10000) by (bit_vector);
        v as u16
    }
}

impl vstd::std_specs::convert::FromSpecImpl<Number> for u16 {
    open spec fn obeys_from_spec() -> bool {
        true
    }

    /// The low 16 bits of the `u64` conversion.
    open spec fn from_spec(v: Number) -> u16 {
        (v.spec_to_u64() as int % 0x10000) as u16
    }
}

impl From<Number> for u8 {
    fn from(num: Number) -> (r: u8) {
        let v = u64::from(num);
        assert((v as u8) == v % 0x100) by (bit_vector);
        v as u8
    }
}

impl vstd::std_specs::convert::FromSpecImpl<Number> for u8 {
    open spec fn obeys_from_spec() -> bool {
        true
    }

    /// The low 8 bits of the `u64` conversion.
    open spec fn from_spec(v: Number) -> u8 {
        (v.spec_to_u64() as int % 0x100) as u8
    }
}

impl PartialEq<i64> for Number {
    fn eq(&self, other: &i64) -> (r: bool) {
        *self == Number::from(*other)
    }
}

impl vstd::std_specs::cmp::PartialEqSpecImpl<i64> for Number {
    open spec fn obeys_eq_spec() -> bool {
        true
    }

    open spec fn eq_spec(&self, other: &i64) -> bool {
        numbers_equal(*self, number_of_int(*other as int))
    }
}

impl PartialEq<Number> for i64 {
    fn eq(&self, other: &Number) -> (r: bool) {
        Number::from(*self) == *other
    }
}

impl vstd::std_specs::cmp::PartialEqSpecImpl<Number> for i64 {
    open spec fn obeys_eq_spec() -> bool {
        true
    }

    open spec fn eq_spec(&self, other: &Number) -> bool {
        numbers_equal(number_of_int(*self as int), *other)
    }
}

impl PartialEq<u64> for Number {
    fn eq(&self, other: &u64) -> (r: bool) {
        *self == Number::from(*other)
    }
}

impl vstd::std_specs::cmp::PartialEqSpecImpl<u64> for Number {
    open spec fn obeys_eq_spec() -> bool {
        true
    }

    open spec fn eq_spec(&self, other: &u64) -> bool {
        numbers_equal(*self, number_of_int(*other as int))
    }
}

impl PartialEq<Number> for u64 {
    fn eq(&self, other: &Number) -> (r: bool) {
        Number::from(*self) == *other
    }
}

impl vstd::std_specs::cmp::PartialEqSpecImpl<Number> for u64 {
    open spec fn obeys_eq_spec() -> bool {
        true
    }

    open spec fn eq_spec(&self, other: &Number) -> bool {
        numbers_equal(number_of_int(*self as int), *other)
    }
}

impl PartialEq<i32> for Number {
    fn eq(&self, other: &i32) -> (r: bool) {
        *self == Number::from(*other)
    }
}

impl vstd::std_specs::cmp::PartialEqSpecImpl<i32> for Number {
    open spec fn obeys_eq_spec() -> bool {
        true
    }

    open spec fn eq_spec(&self, other: &i32) -> bool {
        numbers_equal(*self, number_of_int(*other as int))
    }
}

impl PartialEq<Number> for i32 {
    fn eq(&self, other: &Number) -> (r: bool) {
        Number::from(*self) == *other
    }
}

impl vstd::std_specs::cmp::PartialEqSpecImpl<Number> for i32 {
    open spec fn obeys_eq_spec() -> bool {
        true
    }

    open spec fn eq_spec(&self, other: &Number) -> bool {
        numbers_equal(number_of_int(*self as int), *other)
    }
}

impl PartialEq<i16> for Number {
    fn eq(&self, other: &i16) -> (r: bool) {
        *self == Number::from(*other)
    }
}

impl vstd::std_specs::cmp::PartialEqSpecImpl<i16> for Number {
    open spec fn obeys_eq_spec() -> bool {
        true
    }

    open spec fn eq_spec(&self, other: &i16) -> bool {
        numbers_equal(*self, number_of_int(*other as int))
    }
}

impl PartialEq<Number> for i16 {
    fn eq(&self, other: &Number) -> (r: bool) {
        Number::from(*self) == *other
    }
}

impl vstd::std_specs::cmp::PartialEqSpecImpl<Number> for i16 {
    open spec fn obeys_eq_spec() -> bool {
        true
    }

    open spec fn eq_spec(&self, other: &Number) -> bool {
        numbers_equal(number_of_int(*self as int), *other)
    }
}

impl PartialEq<i8> for Number {
    fn eq(&self, other: &i8) -> (r: bool) {
        *self == Number::from(*other)
    }
}

impl vstd::std_specs::cmp::PartialEqSpecImpl<i8> for Number {
    open spec fn obeys_eq_spec() -> bool {
        true
    }

    open spec fn eq_spec(&self, other: &i8) -> bool {
        numbers_equal(*self, number_of_int(*other as int))
    }
}

impl PartialEq<Number> for i8 {
    fn eq(&self, other: &Number) -> (r: bool) {
        Number::from(*self) == *other
    }
}

impl vstd::std_specs::cmp::PartialEqSpecImpl<Number> for i8 {
    open spec fn obeys_eq_spec() -> bool {
        true
    }

    open spec fn eq_spec(&self, other: &Number) -> bool {
        numbers_equal(number_of_int(*self as int), *other)
    }
}

impl PartialEq<isize> for Number {
    fn eq(&self, other: &isize) -> (r: bool) {
        *self == Number::from(*other)
    }
}

impl vstd::std_specs::cmp::PartialEqSpecImpl<isize> for Number {
    open spec fn obeys_eq_spec() -> bool {
        true
    }

    open spec fn eq_spec(&self, other: &isize) -> bool {
        numbers_equal(*self, number_of_int(*other as int))
    }
}

impl PartialEq<Number> for isize {
    fn eq(&self, other: &Number) -> (r: bool) {
        Number::from(*self) == *other
    }
}

impl vstd::std_specs::cmp::PartialEqSpecImpl<Number> for isize {
    open spec fn obeys_eq_spec() -> bool {
        true
    }

    open spec fn eq_spec(&self, other: &Number) -> bool {
        numbers_equal(number_of_int(*self as int), *other)
    }
}

impl PartialEq<u32> for Number {
    fn eq(&self, other: &u32) -> (r: bool) {
        *self == Number::from(*other)
    }
}

impl vstd::std_specs::cmp::PartialEqSpecImpl<u32> for Number {
    open spec fn obeys_eq_spec() -> bool {
        true
    }

    open spec fn eq_spec(&self, other: &u32) -> bool {
        numbers_equal(*self, number_of_int(*other as int))
    }
}

impl PartialEq<Number> for u32 {
    fn eq(&self, other: &Number) -> (r: bool) {
        Number::from(*self) == *other
    }
}

impl vstd::std_specs::cmp::PartialEqSpecImpl<Number> for u32 {
    open spec fn obeys_eq_spec() -> bool {
        true
    }

    open spec fn eq_spec(&self, other: &Number) -> bool {
        numbers_equal(number_of_int(*self as int), *other)
    }
}

impl PartialEq<u16> for Number {
    fn eq(&self, other: &u16) -> (r: bool) {
        *self == Number::from(*other)
    }
}

impl vstd::std_specs::cmp::PartialEqSpecImpl<u16> for Number {
    open spec fn obeys_eq_spec() -> bool {
        true
    }

    open spec fn eq_spec(&self, other: &u16) -> bool {
        numbers_equal(*self, number_of_int(*other as int))
    }
}

impl PartialEq<Number> for u16 {
    fn eq(&self, other: &Number) -> (r: bool) {
        Number::from(*self) == *other
    }
}

impl vstd::std_specs::cmp::PartialEqSpecImpl<Number> for u16 {
    open spec fn obeys_eq_spec() -> bool {
        true
    }

    open spec fn eq_spec(&self, other: &Number) -> bool {
        numbers_equal(number_of_int(*self as int), *other)
    }
}

impl PartialEq<u8> for Number {
    fn eq(&self, other: &u8) -> (r: bool) {
        *self == Number::from(*other)
    }
}

impl vstd::std_specs::cmp::PartialEqSpecImpl<u8> for Number {
    open spec fn obeys_eq_spec() -> bool {
        true
    }

    open spec fn eq_spec(&self, other: &u8) -> bool {
        numbers_equal(*self, number_of_int(*other as int))
    }
}

impl PartialEq<Number> for u8 {
    fn eq(&self, other: &Number) -> (r: bool) {
        Number::from(*self) == *other
    }
}

impl vstd::std_specs::cmp::PartialEqSpecImpl<Number> for u8 {
    open spec fn obeys_eq_spec() -> bool {
        true
    }

    open spec fn eq_spec(&self, other: &Number) -> bool {
        numbers_equal(number_of_int(*self as int), *other)
    }
}

impl PartialEq<usize> for Number {
    fn eq(&self, other: &usize) -> (r: bool) {
        *self == Number::from(*other)
    }
}

impl vstd::std_specs::cmp::PartialEqSpecImpl<usize> for Number {
    open spec fn obeys_eq_spec() -> bool {
        true
    }

    open spec fn eq_spec(&self, other: &usize) -> bool {
        numbers_equal(*self, number_of_int(*other as int))
    }
}

impl PartialEq<Number> for usize {
    fn eq(&self, other: &Number) -> (r: bool) {
        Number::from(*self) == *other
    }
}

impl vstd::std_specs::cmp::PartialEqSpecImpl<Number> for usize {
    open spec fn obeys_eq_spec() -> bool {
        true
    }

    open spec fn eq_spec(&self, other: &Number) -> bool {
        numbers_equal(number_of_int(*self as int), *other)
    }
}
} // verus!
