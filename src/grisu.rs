//! Grisu3: the shortest decimal digits that identify a double, found with
//! 64-bit fixed-point arithmetic, and the accept/reject rounding pass.

use crate::diy_fp::{
    biased_exponent, double2diy_fp, double_exponent, double_significand, fraction_bits, minus,
    multiply, norm_shift, normalize_diy_fp, rounded_product, DiyFp,
};
use crate::number::{lemma_pow10_positive, pow10};
use crate::powers::{
    cached_index, cached_pow, cached_power_spec, largest_pow10, largest_pow10_spec,
};
use vstd::arithmetic::power2::pow2;
use vstd::prelude::*;

verus! {

/// Every byte is an ASCII decimal digit.
pub open spec fn all_digits(s: Seq<u8>) -> bool {
    forall|i: int| 0 <= i < s.len() ==> 48 <= #[trigger] s[i] <= 57
}

/// The integer that a string of ASCII decimal digits spells.
pub open spec fn digits_value(s: Seq<u8>) -> int
    decreases s.len(),
{
    if s.len() == 0 {
        0
    } else {
        digits_value(s.drop_last()) * 10 + (s.last() - 48)
    }
}

pub proof fn lemma_digits_value_push(s: Seq<u8>, d: u8)
    ensures
        digits_value(s.push(d)) == digits_value(s) * 10 + (d - 48),
{
    assert(s.push(d).drop_last() =~= s);
}

proof fn lemma_digits_value_decrement_last(s: Seq<u8>)
    requires
        s.len() >= 1,
        s.last() >= 1,
    ensures
        digits_value(s.update(s.len() - 1, (s.last() - 1) as u8)) == digits_value(s) - 1,
{
    let t = s.update(s.len() - 1, (s.last() - 1) as u8);
    assert(t.drop_last() =~= s.drop_last());
}

proof fn lemma_mul_at_least_one(d: int, t: int, c: int)
    requires
        t >= 1,
        d * t >= c,
        c >= t,
    ensures
        d >= 1,
{
    if d <= 0 {
        assert(d * t <= 0) by (nonlinear_arith)
            requires
                d <= 0,
                t >= 1,
        ;
    }
}

/// Whether the rounding pass steps the last digit down once more: the
/// digits are still above `wp_w_up`, one more step stays inside the
/// interval, and it brings them no further from `wp_w_up`.
pub open spec fn weed_step(wp_w_up: int, delta: int, rest: int, ten_kappa: int) -> bool {
    rest < wp_w_up && delta - rest >= ten_kappa && (rest + ten_kappa < wp_w_up || wp_w_up - rest
        >= rest + ten_kappa - wp_w_up)
}

/// The digits with the last one stepped down by one.
pub open spec fn decrement_last(s: Seq<u8>) -> Seq<u8> {
    s.update(s.len() - 1, (s.last() - 1) as u8)
}

/// The stepping loop of the rounding pass: the digits and the remainder it
/// ends with.
pub open spec fn weed_loop(
    buf: Seq<u8>,
    wp_w_up: int,
    delta: int,
    rest: int,
    ten_kappa: int,
) -> (Seq<u8>, int)
    decreases delta - rest,
{
    if ten_kappa >= 1 && weed_step(wp_w_up, delta, rest, ten_kappa) {
        weed_loop(decrement_last(buf), wp_w_up, delta, rest + ten_kappa, ten_kappa)
    } else {
        (buf, rest)
    }
}

/// The rounding pass: the stepped digits, and whether they are accepted.
pub open spec fn round_weed_spec(
    buf: Seq<u8>,
    wp_w: int,
    delta: int,
    rest: int,
    ten_kappa: int,
    ulp: int,
) -> (Seq<u8>, bool) {
    let (b, r) = weed_loop(buf, wp_w - ulp, delta, rest, ten_kappa);
    let wp_w_down = wp_w + ulp;
    if r < wp_w_down && delta - r >= ten_kappa && (r + ten_kappa < wp_w_down || wp_w_down - r > r
        + ten_kappa - wp_w_down) {
        (b, false)
    } else {
        (b, 2 * ulp <= r && r + 4 * ulp <= delta)
    }
}

/// The rounding pass. The digits so far, followed by `rest` in units where
/// one step of the last digit is `ten_kappa`, overshoot the scaled value by
/// `wp_w`; `delta` is the width of the unsafe interval and `ulp` the error
/// of the scaled values. Steps the last digit down while that brings the
/// digits closer to the value, and accepts them only where they are known to
/// be the closest: the final remainder must keep `2 × ulp` from the upper end
/// of the interval and `4 × ulp` from the lower end.
///
/// The last digit never goes below `'0'`: a step is taken only while the
/// remainder stays within `delta`, and one more digit's worth of `ten_kappa`
/// on top of the digit's own value already reached `delta`.
pub fn round_weed(
    buffer: &mut Vec<u8>,
    wp_w: u64,
    delta: u64,
    rest: u64,
    ten_kappa: u64,
    ulp: u64,
) -> (r: bool)
    requires
        old(buffer).len() >= 1,
        all_digits(old(buffer)@),
        rest < delta,
        ten_kappa >= 1,
        ulp <= wp_w,
        wp_w + ulp <= delta,
        (old(buffer)@.last() - 48) * ten_kappa + rest >= delta,
    ensures
        (final(buffer)@, r) == round_weed_spec(
            old(buffer)@,
            wp_w as int,
            delta as int,
            rest as int,
            ten_kappa as int,
            ulp as int,
        ),
        final(buffer).len() == old(buffer).len(),
        all_digits(final(buffer)@),
        final(buffer)@.drop_last() == old(buffer)@.drop_last(),
        r ==> ({
            let remainder = digits_value(old(buffer)@) * ten_kappa + rest - digits_value(
                final(buffer)@,
            ) * ten_kappa;
            2 * ulp <= remainder && remainder + 4 * ulp <= delta
        }),
{
    let ghost start = buffer@;
    let ghost total = digits_value(buffer@) * ten_kappa + rest;
    let ghost last_total = (buffer@.last() - 48) * ten_kappa + rest;
    let len = buffer.len();
    let wp_w_up = wp_w - ulp;
    let wp_w_down = wp_w + ulp;
    let ghost rest0 = rest;
    let mut rest = rest;
    while rest < wp_w_up && delta - rest >= ten_kappa && (rest + ten_kappa < wp_w_up || wp_w_up
        - rest >= rest + ten_kappa - wp_w_up)
        invariant
            buffer.len() == len,
            len >= 1,
            all_digits(buffer@),
            buffer@.drop_last() == start.drop_last(),
            rest <= delta,
            ten_kappa >= 1,
            wp_w_up <= delta,
            (buffer@.last() - 48) * ten_kappa + rest == last_total,
            last_total >= delta,
            digits_value(buffer@) * ten_kappa + rest == total,
            weed_loop(buffer@, wp_w_up as int, delta as int, rest as int, ten_kappa as int)
                == weed_loop(start, wp_w - ulp, delta as int, rest0 as int, ten_kappa as int),
        decreases delta - rest,
    {
        let last = buffer[len - 1];
        let ghost t_before = buffer@;
        proof {
            lemma_mul_at_least_one(
                (last - 48) as int,
                ten_kappa as int,
                (last_total - rest) as int,
            );
            lemma_digits_value_decrement_last(buffer@);
            let t = buffer@.update(len - 1, (last - 1) as u8);
            assert(t.drop_last() =~= buffer@.drop_last());
            assert(((last - 1) - 48) * ten_kappa == (last - 48) * ten_kappa - ten_kappa)
                by (nonlinear_arith);
            assert((digits_value(buffer@) - 1) * ten_kappa == digits_value(buffer@) * ten_kappa
                - ten_kappa) by (nonlinear_arith);
        }
        buffer.set(len - 1, last - 1);
        rest = rest + ten_kappa;
        proof {
            assert(buffer@ =~= decrement_last(t_before));
        }
    }
    if rest < wp_w_down && delta - rest >= ten_kappa && (rest + ten_kappa < wp_w_down
        || wp_w_down - rest > rest + ten_kappa - wp_w_down) {
        return false;
    }
    ulp <= rest / 2 && ulp <= (delta - rest) / 4
}


/// The decimal `d × 10^kappa`, in units of `2^-s`, lies between `lo` and
/// `hi`.
pub open spec fn digits_within(d: int, kappa: int, s: nat, lo: int, hi: int) -> bool {
    if kappa >= 0 {
        lo <= d * pow10(kappa as nat) * pow2(s) <= hi
    } else {
        lo * pow10((-kappa) as nat) <= d * pow2(s) <= hi * pow10((-kappa) as nat)
    }
}

/// The digits and the decimal exponent of the last one, where the rounding
/// pass accepts them.
pub open spec fn weed_result(w: (Seq<u8>, bool), kappa: int) -> Option<(Seq<u8>, int)> {
    if w.1 {
        Some((w.0, kappa))
    } else {
        None
    }
}

/// Digits of the fraction `p2 / one`, `unit` being the scale of the error so
/// far and `ui` the unsafe interval at that scale.
pub open spec fn frac_phase(
    buf: Seq<u8>,
    kappa: int,
    p2: int,
    unit: int,
    ui: int,
    one: int,
    wp_w: int,
) -> Option<(Seq<u8>, int)>
    decreases one - ui,
{
    if ui < 1 || one < 1 {
        None
    } else {
        let p2t = p2 * 10;
        let unit2 = unit * 10;
        let ui2 = ui * 10;
        let digit = p2t / one;
        let buf2 = buf.push((48 + digit) as u8);
        let p2n = p2t % one;
        if p2n < ui2 {
            weed_result(round_weed_spec(buf2, wp_w * unit2, ui2, p2n, one, unit2), kappa - 1)
        } else if ui2 < one {
            frac_phase(buf2, kappa - 1, p2n, unit2, ui2, one, wp_w)
        } else {
            None
        }
    }
}

/// Digits of the integer part `p1`, `div` being the power of ten of the
/// next one; then those of the fraction.
pub open spec fn int_phase(
    buf: Seq<u8>,
    kappa: int,
    div: int,
    p1: int,
    p2: int,
    one: int,
    ui0: int,
    wp_w: int,
) -> Option<(Seq<u8>, int)>
    decreases (if kappa > 0 {
        kappa
    } else {
        0
    }),
{
    if kappa > 0 {
        let digit = p1 / div;
        let buf2 = buf.push((48 + digit) as u8);
        let p1n = p1 % div;
        let rest = p1n * one + p2;
        if rest < ui0 {
            weed_result(round_weed_spec(buf2, wp_w, ui0, rest, div * one, 1), kappa - 1)
        } else {
            int_phase(buf2, kappa - 1, div / 10, p1n, p2, one, ui0, wp_w)
        }
    } else {
        frac_phase(buf, kappa, p2, 1, ui0, one, wp_w)
    }
}

/// The digit generator on significands `low`, `w`, `high` at binary
/// exponent `e`.
pub open spec fn digit_gen_spec(low: int, w: int, high: int, e: int) -> Option<(Seq<u8>, int)> {
    let too_high = high + 1;
    let ui0 = too_high - (low - 1);
    let one = pow2((-e) as nat) as int;
    let p1 = too_high / one;
    let p2 = too_high % one;
    let (kappa0, div0) = largest_pow10_spec(p1, 64 + e);
    int_phase(Seq::empty(), kappa0, div0, p1, p2, one, ui0, too_high - w)
}

/// The digits and exponent of a result, as values.
pub open spec fn digits_result(r: Option<(Vec<u8>, i32)>) -> Option<(Seq<u8>, int)> {
    match r {
        Some((d, k)) => Some((d@, k as int)),
        None => None,
    }
}

/// One digit taken off the integer part: the digits, the part left and the
/// fraction still add up to the same value.
proof fn lemma_integer_digit(
    d: int,
    pk: int,
    div: int,
    one: int,
    p1: int,
    p2: int,
    th: int,
    digit: int,
    p1n: int,
)
    requires
        div >= 1,
        pk == 10 * div,
        d * pk * one + p1 * one + p2 == th,
        digit == p1 / div,
        p1n == p1 % div,
    ensures
        (d * 10 + digit) * div * one + p1n * one + p2 == th,
        digit * (div * one) + (p1n * one + p2) == p1 * one + p2,
{
    vstd::arithmetic::div_mod::lemma_fundamental_div_mod(p1, div);
    assert((d * 10 + digit) * div * one + p1n * one == d * (10 * div) * one + (div * digit + p1n)
        * one) by (nonlinear_arith);
    assert(digit * (div * one) + p1n * one == (div * digit + p1n) * one) by (nonlinear_arith);
}

/// One digit taken off the fraction: ten times the fraction is the digit
/// and the new fraction.
proof fn lemma_fraction_digit(
    d: int,
    one: int,
    p2: int,
    th: int,
    unit: int,
    digit: int,
    p2n: int,
)
    requires
        one >= 1,
        th * unit == d * one + p2,
        digit == (p2 * 10) / one,
        p2n == (p2 * 10) % one,
    ensures
        th * (unit * 10) == (d * 10 + digit) * one + p2n,
        digit * one + p2n == p2 * 10,
{
    vstd::arithmetic::div_mod::lemma_fundamental_div_mod(p2 * 10, one);
    assert(th * (unit * 10) == (d * one + p2) * 10) by (nonlinear_arith)
        requires
            th * unit == d * one + p2,
    ;
    assert((d * 10 + digit) * one == d * one * 10 + one * digit) by (nonlinear_arith);
}

/// Generates the digits of the upper end of the interval `(low, high)`,
/// all three values scaled to one binary exponent `e` between -60 and -32,
/// until the rest is inside the unsafe interval, and then rounds them
/// towards `w` (see `round_weed`).
///
/// On success returns the digits and the power of ten `kappa` of the last
/// one: the decimal `digits × 10^kappa`, in units of `2^e`, lies within
/// `[low + 3, high - 1]`.
pub fn digit_gen(low: DiyFp, w: DiyFp, high: DiyFp) -> (r: Option<(Vec<u8>, i32)>)
    requires
        low.e == w.e,
        w.e == high.e,
        -60 <= w.e <= -32,
        1 <= low.f,
        low.f <= w.f,
        w.f <= high.f,
        0x4000_0000_0000_0000 <= high.f <= 0xFFFF_FFFF_FFFF_FFFE,
    ensures
        digits_result(r) == digit_gen_spec(low.f as int, w.f as int, high.f as int, w.e as int),
        r matches Some((digits, kappa)) ==> {
            &&& 1 <= digits.len() <= 30
            &&& all_digits(digits@)
            &&& digits@[0] != 48
            &&& -20 < kappa <= 10
            &&& digits_within(
                digits_value(digits@),
                kappa as int,
                (-w.e) as nat,
                low.f + 3,
                high.f - 1,
            )
        },
{
    let too_low = DiyFp { f: low.f - 1, e: low.e };
    let too_high = DiyFp { f: high.f + 1, e: high.e };
    let ui0 = minus(&too_high, &too_low).f;
    let wp_w = minus(&too_high, &w).f;
    let th = too_high.f;
    let s: u64 = (-w.e) as u64;
    let ghost one = pow2(s as nat);
    proof {
        vstd::arithmetic::power2::lemma2_to64();
        vstd::arithmetic::power2::lemma2_to64_rest();
        vstd::arithmetic::power2::lemma_pow2_pos(s as nat);
        vstd::arithmetic::power2::lemma_pow2_adds((64 - s) as nat, s as nat);
        assert((64 - s) as nat + s as nat == 64);
        vstd::arithmetic::power2::lemma_pow2_strictly_increases(s as nat, 64);
        vstd::bits::lemma_u64_shl_is_mul(1, s);
        vstd::bits::lemma_u64_shr_is_div(th, s);
    }
    let one_f: u64 = 1u64 << s;
    let mask: u64 = one_f - 1;
    proof {
        vstd::bits::lemma_u64_low_bits_mask_is_mod(th, s as nat);
        assert(one * pow2((64 - s) as nat) == 0x1_0000_0000_0000_0000) by (nonlinear_arith)
            requires
                pow2((64 - s) as nat) * one == pow2(64),
                pow2(64) == 0x1_0000_0000_0000_0000,
        ;
        vstd::arithmetic::div_mod::lemma_fundamental_div_mod(th as int, one as int);
        vstd::arithmetic::div_mod::lemma_multiply_divide_lt(
            th as int,
            one as int,
            pow2((64 - s) as nat) as int,
        );
        if 64 - s < 32 {
            vstd::arithmetic::power2::lemma_pow2_strictly_increases((64 - s) as nat, 32);
        }
    }
    let p1_full: u32 = (th >> s) as u32;
    proof {
        // The upper end has its top two bits within reach: the integer
        // part has at least `n_bits - 1` bits, so its first digit is not 0.
        vstd::arithmetic::power2::lemma_pow2_adds((62 - s) as nat, s as nat);
        assert((62 - s) as nat + s as nat == 62);
        vstd::arithmetic::div_mod::lemma_div_is_ordered(
            pow2(62) as int,
            th as int,
            one as int,
        );
        vstd::arithmetic::div_mod::lemma_div_by_multiple(pow2((62 - s) as nat) as int, one as int);
    }
    let mut p2: u64 = th & mask;
    let n_bits: i32 = 64 + w.e;
    let (kappa0, div0) = largest_pow10(p1_full, n_bits);
    let mut kappa: i32 = kappa0;
    let mut div: u32 = div0;
    let mut p1: u32 = p1_full;
    let mut buffer: Vec<u8> = Vec::new();
    assert(digits_value(buffer@) == 0);
    let ghost target = digit_gen_spec(low.f as int, w.f as int, high.f as int, w.e as int);
    assert(p1 * one + p2 == th) by (nonlinear_arith)
        requires
            th as int == one * (th as int / one as int) + th as int % one as int,
            p1 as int == th as int / one as int,
            p2 as int == th as int % one as int,
    ;
    assert(digits_value(buffer@) * pow10(kappa as nat) * one == 0);
    assert(buffer@ =~= Seq::<u8>::empty());
    while kappa > 0
        invariant
            0 <= kappa <= kappa0 <= 10,
            kappa0 >= 1,
            kappa == kappa0 ==> div <= p1,
            kappa < kappa0 ==> buffer@[0] != 48,
            buffer.len() == kappa0 - kappa,
            all_digits(buffer@),
            kappa >= 1 ==> div == pow10((kappa - 1) as nat),
            div < pow2((64 - s) as nat),
            p1 < pow10(kappa as nat),
            digits_value(buffer@) * pow10(kappa as nat) * one + p1 * one + p2 == th,
            p1 * one + p2 >= ui0,
            p2 < one,
            one == pow2(s as nat),
            one_f == one,
            int_phase(buffer@, kappa as int, div as int, p1 as int, p2 as int, one as int, ui0 as int, wp_w as int)
                == target,
            target == digit_gen_spec(low.f as int, w.f as int, high.f as int, w.e as int),
            pow2((64 - s) as nat) * one == 0x1_0000_0000_0000_0000,
            32 <= s <= 60,
            s == -w.e,
            ui0 == th - (low.f - 1),
            wp_w == th - w.f,
            th == high.f + 1,
            1 <= low.f <= w.f <= high.f,
            high.f <= 0xFFFF_FFFF_FFFF_FFFE,
        decreases kappa,
    {
        let ghost p1_old = p1;
        let ghost d_old = digits_value(buffer@);
        proof {
            assert(pow10(kappa as nat) == 10 * pow10((kappa - 1) as nat));
            vstd::arithmetic::div_mod::lemma_div_pos_is_pos(p1 as int, div as int);
            vstd::arithmetic::div_mod::lemma_div_is_ordered(p1 as int, (10 * div - 1) as int, div as int);
            vstd::arithmetic::div_mod::lemma_fundamental_div_mod_converse(
                (10 * div - 1) as int,
                div as int,
                9,
                (div - 1) as int,
            );
        }
        let digit = (p1 / div) as u8;
        proof {
            if kappa == kappa0 {
                vstd::arithmetic::div_mod::lemma_div_is_ordered(div as int, p1 as int, div as int);
                vstd::arithmetic::div_mod::lemma_div_by_self(div as int);
            }
        }
        let ghost before_push = buffer@;
        buffer.push(digit + 48);
        proof {
            lemma_digits_value_push(before_push, (digit + 48) as u8);
            assert(digits_value(buffer@) == d_old * 10 + digit);
        }
        p1 = p1 % div;
        kappa = kappa - 1;
        proof {
            lemma_integer_digit(
                d_old,
                pow10((kappa + 1) as nat) as int,
                div as int,
                one as int,
                p1_old as int,
                p2 as int,
                th as int,
                digit as int,
                p1 as int,
            );
            vstd::arithmetic::mul::lemma_mul_strict_inequality(p1 as int, div as int, one as int);
            vstd::arithmetic::mul::lemma_mul_strict_inequality(
                div as int,
                pow2((64 - s) as nat) as int,
                one as int,
            );
            assert((p1 + 1) * one <= div * one) by (nonlinear_arith)
                requires
                    p1 < div,
                    one >= 0,
            ;
            assert(p1 * one + p2 < div * one) by (nonlinear_arith)
                requires
                    (p1 + 1) * one <= div * one,
                    p2 < one,
            ;
            vstd::bits::lemma_u64_shl_is_mul(p1 as u64, s);
            vstd::bits::lemma_u64_shl_is_mul(div as u64, s);
        }
        let rest = ((p1 as u64) << s) + p2;
        if rest < ui0 {
            let ten_kappa = (div as u64) << s;
            let ghost before = buffer@;
            proof {
                assert(int_phase(
                    before_push,
                    kappa + 1,
                    div as int,
                    p1_old as int,
                    p2 as int,
                    one as int,
                    ui0 as int,
                    wp_w as int,
                ) == weed_result(
                    round_weed_spec(before, wp_w as int, ui0 as int, rest as int, div * one, 1),
                    kappa as int,
                ));
            }
            let ok = round_weed(&mut buffer, wp_w, ui0, rest, ten_kappa, 1);
            if !ok {
                return None;
            }
            proof {
                let dn = digits_value(buffer@);
                assert(1 <= buffer.len() <= 30);
                assert(digits_value(before) * ten_kappa + rest == th) by (nonlinear_arith)
                    requires
                        digits_value(before) * pow10(kappa as nat) * one + p1 * one + p2 == th,
                        ten_kappa == div * one,
                        div == pow10(kappa as nat),
                        rest == p1 * one + p2,
                ;
                assert(dn * ten_kappa == dn * pow10(kappa as nat) * one) by (nonlinear_arith)
                    requires
                        ten_kappa == div * one,
                        div == pow10(kappa as nat),
                ;
                assert(digits_value(before) * ten_kappa == digits_value(before) * pow10(
                    kappa as nat,
                ) * one) by (nonlinear_arith)
                    requires
                        ten_kappa == div * one,
                        div == pow10(kappa as nat),
                ;
                // The first digit is not 0: it is untouched when more follow,
                // and a lone digit spells a value above the lower end.
                if buffer.len() >= 2 {
                    assert(buffer@[0] == buffer@.drop_last()[0]);
                    assert(before[0] == before.drop_last()[0]);
                    assert(before.drop_last() =~= before_push);
                } else {
                    assert(buffer@.drop_last() =~= Seq::<u8>::empty());
                    assert(dn == buffer@[0] - 48);
                    lemma_pow10_positive(kappa as nat);
                    if dn <= 0 {
                        assert(dn * pow10(kappa as nat) * one <= 0) by (nonlinear_arith)
                            requires
                                dn <= 0,
                                pow10(kappa as nat) >= 1,
                                one >= 1,
                        ;
                    }
                }
            }
            return Some((buffer, kappa));
        }
        div = div / 10;
        proof {
            if kappa >= 1 {
                assert(pow10(kappa as nat) == 10 * pow10((kappa - 1) as nat));
            }
        }
    }
    // The integer part is spent: the digits and the fraction make up the
    // upper end.
    assert(p1 == 0);
    assert(pow10(0) == 1);
    let mut unit: u64 = 1;
    let mut ui: u64 = ui0;
    proof {
        assert(th * 1 == digits_value(buffer@) * one + p2) by (nonlinear_arith)
            requires
                digits_value(buffer@) * pow10(0) * one + 0 * one + p2 == th,
                pow10(0) == 1,
        ;
    }
    loop
        invariant
            -20 < kappa <= 0,
            buffer.len() == kappa0 - kappa,
            kappa0 >= 1,
            buffer@[0] != 48,
            kappa0 <= 10,
            all_digits(buffer@),
            unit == pow10((-kappa) as nat),
            th * unit == digits_value(buffer@) * one + p2,
            p2 < one,
            p2 >= ui,
            ui == ui0 * unit,
            ui0 >= 2,
            ui >= 2,
            frac_phase(buffer@, kappa as int, p2 as int, unit as int, ui as int, one as int, wp_w as int)
                == target,
            target == digit_gen_spec(low.f as int, w.f as int, high.f as int, w.e as int),
            one == pow2(s as nat),
            one_f == one,
            one_f == 1u64 << s,
            mask == one_f - 1,
            one <= 0x1000_0000_0000_0000,
            32 <= s <= 60,
            s == -w.e,
            ui0 == th - (low.f - 1),
            wp_w == th - w.f,
            th == high.f + 1,
            1 <= low.f <= w.f <= high.f,
            high.f <= 0xFFFF_FFFF_FFFF_FFFE,
        decreases one - ui,
    {
        let ghost d_old = digits_value(buffer@);
        let ghost p2_old = p2;
        let ghost unit_old = unit;
        let ghost ui_old = ui;
        proof {
            assert(unit <= ui) by (nonlinear_arith)
                requires
                    ui == ui0 * unit,
                    ui0 >= 2,
                    unit >= 0,
            ;
        }
        p2 = p2 * 10;
        unit = unit * 10;
        ui = ui * 10;
        proof {
            vstd::bits::lemma_u64_shr_is_div(p2, s);
            vstd::arithmetic::div_mod::lemma_div_is_ordered(p2 as int, (10 * one - 1) as int, one as int);
            vstd::arithmetic::div_mod::lemma_fundamental_div_mod_converse(
                (10 * one - 1) as int,
                one as int,
                9,
                (one - 1) as int,
            );
        }
        let digit = (p2 >> s) as u8;
        let ghost before_push = buffer@;
        buffer.push(digit + 48);
        proof {
            lemma_digits_value_push(before_push, (digit + 48) as u8);
            assert(digits_value(buffer@) == d_old * 10 + digit);
        }
        proof {
            vstd::bits::lemma_u64_low_bits_mask_is_mod(p2, s as nat);
        }
        p2 = p2 & mask;
        kappa = kappa - 1;
        proof {
            lemma_fraction_digit(
                d_old,
                one as int,
                p2_old as int,
                th as int,
                unit_old as int,
                digit as int,
                p2 as int,
            );
            assert(pow10((-kappa) as nat) == 10 * pow10((-kappa - 1) as nat));
            assert(ui == ui0 * unit) by (nonlinear_arith)
                requires
                    ui == (ui0 * unit_old) * 10,
                    unit == unit_old * 10,
            ;
            if -kappa >= 20 {
                crate::number::lemma_pow10_table();
                crate::number::lemma_pow10_monotone(20, (-kappa) as nat);
                assert(unit <= ui) by (nonlinear_arith)
                    requires
                        ui == ui0 * unit,
                        ui0 >= 2,
                        unit >= 0,
                ;
            }
        }
        if p2 < ui {
            let ghost before = buffer@;
            proof {
                assert(wp_w * unit + unit <= ui) by (nonlinear_arith)
                    requires
                        ui == ui0 * unit,
                        wp_w + 1 <= ui0,
                        unit >= 0,
                ;
                assert(unit <= wp_w * unit) by (nonlinear_arith)
                    requires
                        wp_w >= 1,
                        unit >= 0,
                ;
            }
            proof {
                assert(frac_phase(
                    before_push,
                    kappa + 1,
                    p2_old as int,
                    unit_old as int,
                    ui_old as int,
                    one as int,
                    wp_w as int,
                ) == weed_result(
                    round_weed_spec(
                        before,
                        wp_w * unit,
                        ui as int,
                        p2 as int,
                        one as int,
                        unit as int,
                    ),
                    kappa as int,
                ));
            }
            let ok = round_weed(&mut buffer, wp_w * unit, ui, p2, one_f, unit);
            if !ok {
                return None;
            }
            proof {
                let dn = digits_value(buffer@);
                assert((low.f + 3) * unit <= dn * one <= (high.f - 1) * unit) by (nonlinear_arith)
                    requires
                        th * unit == digits_value(before) * one + p2,
                        2 * unit <= digits_value(before) * one + p2 - dn * one,
                        digits_value(before) * one + p2 - dn * one + 4 * unit <= ui,
                        ui == ui0 * unit,
                        ui0 == th - (low.f - 1),
                        th == high.f + 1,
                ;
                assert(buffer@[0] == buffer@.drop_last()[0]);
                assert(before[0] == before.drop_last()[0]);
                assert(before.drop_last() =~= before_push);
            }
            return Some((buffer, kappa));
        }
    }
}

const D64_EXP_MASK: u64 = 0x7FF0000000000000;

const D64_FRACT_MASK: u64 = 0x000FFFFFFFFFFFFF;

const DIYFP_FRACT_SIZE: i32 = 64;

const MIN_TARGET_EXP: i32 = -60;

/// The bit pattern of a finite double whose sign bit is clear and that is not
/// zero: a strictly positive finite double.
pub open spec fn is_positive_finite(bits: u64) -> bool {
    0 < bits < 0x7FF0_0000_0000_0000
}

/// The bit pattern of a finite double (not NaN, not an infinity).
pub open spec fn is_finite(bits: u64) -> bool {
    bits % 0x8000_0000_0000_0000 < 0x7FF0_0000_0000_0000
}

/// A value with `f < 2^(64 - s)` shifted left by `s` leaves room for
/// `2^s` more.
proof fn lemma_room_above(f: int, s: nat)
    requires
        f >= 0,
        s <= 64,
        f * pow2(s) < 0x1_0000_0000_0000_0000,
    ensures
        f * pow2(s) + pow2(s) <= 0x1_0000_0000_0000_0000,
{
    vstd::arithmetic::power2::lemma2_to64();
    vstd::arithmetic::power2::lemma2_to64_rest();
    vstd::arithmetic::power2::lemma_pow2_adds((64 - s) as nat, s);
    vstd::arithmetic::power2::lemma_pow2_pos(s);
    assert((64 - s) as nat + s == 64);
    let q = pow2((64 - s) as nat);
    if f >= q {
        assert(f * pow2(s) >= q * pow2(s)) by (nonlinear_arith)
            requires
                f >= q,
                pow2(s) > 0,
        ;
    }
    assert(f * pow2(s) + pow2(s) <= q * pow2(s)) by (nonlinear_arith)
        requires
            f + 1 <= q,
            pow2(s) > 0,
    ;
}

/// The scaled interval that Grisu3 works in for a strictly positive finite
/// double: the lower boundary, the value and the upper boundary, normalized
/// and multiplied by the cached power of ten `10^-mk`, their common binary
/// exponent, and `mk`.
#[verifier::opaque]
pub open spec fn scaled_interval(bits: u64) -> (int, int, int, int, int) {
    let f = double_significand(bits);
    let s = norm_shift(f);
    let w = f * pow2(s);
    let we = double_exponent(bits) - s;
    let plus = w + pow2((s - 1) as nat);
    let minus = if fraction_bits(bits) == 0 && biased_exponent(bits) != 0 {
        w - pow2((s - 2) as nat)
    } else {
        w - pow2((s - 1) as nat)
    };
    let c = cached_power_spec(cached_index(-124 - we) as usize);
    (
        rounded_product(minus as nat, c.0 as nat) as int,
        rounded_product(w, c.0 as nat) as int,
        rounded_product(plus as nat, c.0 as nat) as int,
        we + c.1 + 64,
        c.2 as int,
    )
}

/// Grisu3 on a strictly positive finite double: the digit generator on the
/// scaled interval, the exponent of its result less `mk`.
#[verifier::opaque]
pub open spec fn grisu3_spec(bits: u64) -> Option<(Seq<u8>, int)> {
    let (low, w, high, e, mk) = scaled_interval(bits);
    match digit_gen_spec(low, w, high, e) {
        Some((d, kappa)) => Some((d, kappa - mk)),
        None => None,
    }
}

/// Scaling by one cached power keeps the order of the boundaries and the
/// value, and keeps them within the digit generator's range.
proof fn lemma_scaled_order(minus_f: u64, w: u64, plus_f: u64, c: u64)
    requires
        0x4000_0000_0000_0000 <= minus_f <= w <= plus_f,
        0x8000_0000_0000_0000 <= plus_f,
        0x8000_0000_0000_0000 <= c,
    ensures
        1 <= rounded_product(minus_f as nat, c as nat),
        rounded_product(minus_f as nat, c as nat) <= rounded_product(w as nat, c as nat),
        rounded_product(w as nat, c as nat) <= rounded_product(plus_f as nat, c as nat),
        0x4000_0000_0000_0000 <= rounded_product(plus_f as nat, c as nat)
            <= 0xFFFF_FFFF_FFFF_FFFE,
{
    crate::diy_fp::lemma_rounded_product_monotone(minus_f as nat, w as nat, c as nat);
    crate::diy_fp::lemma_rounded_product_monotone(w as nat, plus_f as nat, c as nat);
    crate::diy_fp::lemma_rounded_product_bound(plus_f, c);
    crate::diy_fp::lemma_rounded_product_monotone(0x4000_0000_0000_0000, minus_f as nat, c as nat);
    vstd::arithmetic::div_mod::lemma_div_is_ordered(
        0x1_0000_0000_0000_0000,
        (0x4000_0000_0000_0000 * c + 0x8000_0000_0000_0000) as int,
        0x1_0000_0000_0000_0000,
    );
    crate::diy_fp::lemma_rounded_product_monotone(0x8000_0000_0000_0000, plus_f as nat, c as nat);
    vstd::arithmetic::div_mod::lemma_div_is_ordered(
        0x1000_0000_0000_0000_0000_0000_0000_0000int,
        (0x8000_0000_0000_0000 * c + 0x8000_0000_0000_0000) as int,
        0x1_0000_0000_0000_0000,
    );
}

/// `grisu3_spec` spelled out over the intermediate values of the driver.
proof fn lemma_grisu3_spec_steps(
    bits: u64,
    s: nat,
    w: int,
    we: int,
    minus_f: int,
    plus_f: int,
    cf: u64,
    ce: i32,
    mk: i32,
)
    requires
        s == norm_shift(double_significand(bits)),
        w == double_significand(bits) * pow2(s),
        we == double_exponent(bits) - s,
        plus_f == w + pow2((s - 1) as nat),
        minus_f == (if fraction_bits(bits) == 0 && biased_exponent(bits) != 0 {
            w - pow2((s - 2) as nat)
        } else {
            w - pow2((s - 1) as nat)
        }),
        (cf, ce, mk) == cached_power_spec(cached_index(-124 - we) as usize),
    ensures
        scaled_interval(bits) == (
            rounded_product(minus_f as nat, cf as nat) as int,
            rounded_product(w as nat, cf as nat) as int,
            rounded_product(plus_f as nat, cf as nat) as int,
            we + ce + 64,
            mk as int,
        ),
        grisu3_spec(bits) == match digit_gen_spec(
            rounded_product(minus_f as nat, cf as nat) as int,
            rounded_product(w as nat, cf as nat) as int,
            rounded_product(plus_f as nat, cf as nat) as int,
            we + ce + 64,
        ) {
            Some((d, kappa)) => Some((d, kappa - mk)),
            None => None,
        },
{
    reveal(scaled_interval);
    reveal(grisu3_spec);
}

/// Runs Grisu3 on a strictly positive finite double, given by its bit
/// pattern. On success returns the shortest digits that identify it and the
/// decimal exponent of the last one; `None` where the algorithm cannot vouch
/// for its digits, which a caller must then produce another way.
///
/// The digits, times `10^(d_exp + mk)`, lie strictly inside the scaled
/// rounding interval, clear of its ends by the error margins.
pub fn grisu3(bits: u64) -> (r: Option<(Vec<u8>, i32)>)
    requires
        is_positive_finite(bits),
    ensures
        digits_result(r) == grisu3_spec(bits),
        r matches Some((digits, d_exp)) ==> {
            let (low, w, high, e, mk) = scaled_interval(bits);
            &&& 1 <= digits.len() <= 30
            &&& digits@[0] != 48
            &&& digits_within(digits_value(digits@), d_exp + mk, (-e) as nat, low + 3, high - 1)
            &&& all_digits(digits@)
            &&& -368 < d_exp <= 358
        },
{
    let dfp = double2diy_fp(bits);
    assert(bits as nat / 0x10_0000_0000_0000 < 0x7FF);
    assert(dfp.f >= 1);
    assert(dfp.f < 0x20_0000_0000_0000);
    let w0 = normalize_diy_fp(dfp);
    let ghost s = (dfp.e - w0.e) as nat;
    proof {
        vstd::arithmetic::power2::lemma2_to64();
        vstd::arithmetic::power2::lemma2_to64_rest();
        if s <= 10 {
            vstd::arithmetic::power2::lemma_pow2_strictly_increases(s, 11);
            assert(dfp.f * pow2(s) < 0x8000_0000_0000_0000) by (nonlinear_arith)
                requires
                    dfp.f < 0x20_0000_0000_0000,
                    pow2(s) <= 1024,
                    pow2(s) >= 0,
            ;
        }
        lemma_room_above(dfp.f as int, s);
        vstd::arithmetic::power2::lemma_pow2_adds((s - 1) as nat, 1);
        vstd::arithmetic::power2::lemma_pow2_adds((s - 2) as nat, 1);
        vstd::arithmetic::power2::lemma_pow2_pos((s - 2) as nat);
        vstd::arithmetic::power2::lemma_pow2_strictly_increases((s - 1) as nat, 63);
        vstd::bits::lemma_u64_shl_is_mul(1, (s - 1) as u64);
        vstd::bits::lemma_u64_shl_is_mul(1, (s - 2) as u64);
        assert(pow2(63) == 0x8000_0000_0000_0000);
    }
    let shift: u64 = (dfp.e - w0.e) as u64;
    // The boundaries are the midpoints to the neighbouring doubles: half a
    // unit in the last place above, and below too except at a power of two
    // (not subnormal), where the neighbour below is half as far.
    let half: u64 = 1u64 << (shift - 1);
    let b_plus = DiyFp { f: w0.f + half, e: w0.e };
    assert(bits & 0x000FFFFFFFFFFFFF == bits % 0x10_0000_0000_0000) by (bit_vector);
    assert((bits & 0x7FF0000000000000) == 0 <==> (bits / 0x10_0000_0000_0000) % 0x800 == 0)
        by (bit_vector);
    let b_minus = if (bits & D64_FRACT_MASK) == 0 && (bits & D64_EXP_MASK) != 0 {
        DiyFp { f: w0.f - (1u64 << (shift - 2)), e: w0.e }
    } else {
        DiyFp { f: w0.f - half, e: w0.e }
    };
    let (c_mk, mk) = cached_pow(MIN_TARGET_EXP - DIYFP_FRACT_SIZE - w0.e);
    let w = multiply(&w0, &c_mk);
    let low = multiply(&b_minus, &c_mk);
    let high = multiply(&b_plus, &c_mk);
    proof {
        lemma_scaled_order(b_minus.f, w0.f, b_plus.f, c_mk.f);
    }
    let generated = digit_gen(low, w, high);
    proof {
        lemma_grisu3_spec_steps(
            bits,
            shift as nat,
            w0.f as int,
            w0.e as int,
            b_minus.f as int,
            b_plus.f as int,
            c_mk.f,
            c_mk.e,
            mk,
        );
    }
    match generated {
        Some((digits, kappa)) => Some((digits, kappa - mk)),
        None => None,
    }
}
} // verus!
