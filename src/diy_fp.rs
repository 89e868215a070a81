//! Fixed-point binary floats: a 64-bit significand with a binary exponent,
//! and the bit layout of an IEEE-754 double.

use vstd::arithmetic::power2::pow2;
use vstd::prelude::*;

verus! {

const D64_EXP_MASK: u64 = 0x7FF0000000000000;

const D64_FRACT_MASK: u64 = 0x000FFFFFFFFFFFFF;

const D64_IMPLICIT_ONE: u64 = 0x0010000000000000;

const D64_EXP_POS: u64 = 52;

const D64_EXP_BIAS: i32 = 1075;

const MASK32: u64 = 0xFFFFFFFF;

/// `significand × 2^exponent`.
#[derive(Copy, Clone, Debug)]
pub struct DiyFp {
    pub f: u64,
    pub e: i32,
}

/// The 52 fraction bits of a double's bit pattern.
pub open spec fn fraction_bits(bits: u64) -> nat {
    bits as nat % 0x10_0000_0000_0000
}

/// The 11 biased exponent bits of a double's bit pattern.
pub open spec fn biased_exponent(bits: u64) -> nat {
    (bits as nat / 0x10_0000_0000_0000) % 0x800
}

/// The significand of a finite double, with the implicit leading one of a
/// normal number.
pub open spec fn double_significand(bits: u64) -> nat {
    if biased_exponent(bits) == 0 {
        fraction_bits(bits)
    } else {
        fraction_bits(bits) + 0x10_0000_0000_0000
    }
}

/// The binary exponent that goes with `double_significand`.
pub open spec fn double_exponent(bits: u64) -> int {
    if biased_exponent(bits) == 0 {
        -1074
    } else {
        biased_exponent(bits) - 1075
    }
}

/// Splits a double's bit pattern into significand and exponent; a subnormal
/// takes the smallest normal exponent.
pub fn double2diy_fp(bits: u64) -> (r: DiyFp)
    ensures
        r.f == double_significand(bits),
        r.e == double_exponent(bits),
{
    assert(bits & 0x000FFFFFFFFFFFFF == bits % 0x10_0000_0000_0000) by (bit_vector);
    assert((bits & 0x7FF0000000000000) >> 52 == (bits / 0x10_0000_0000_0000) % 0x800)
        by (bit_vector);
    assert((bits & 0x7FF0000000000000) == 0 <==> (bits / 0x10_0000_0000_0000) % 0x800 == 0)
        by (bit_vector);
    if (bits & D64_EXP_MASK) == 0 {
        DiyFp { f: bits & D64_FRACT_MASK, e: 1 - D64_EXP_BIAS }
    } else {
        DiyFp {
            f: (bits & D64_FRACT_MASK) + D64_IMPLICIT_ONE,
            e: (((bits & D64_EXP_MASK) >> D64_EXP_POS) as i32) - D64_EXP_BIAS,
        }
    }
}

/// `x - y` of two values with one exponent.
pub fn minus(x: &DiyFp, y: &DiyFp) -> (r: DiyFp)
    requires
        x.e == y.e,
        x.f >= y.f,
    ensures
        r.f == x.f - y.f,
        r.e == x.e,
{
    DiyFp { f: x.f - y.f, e: x.e }
}

/// The 128-bit product of the significands rounded to its upper 64 bits.
pub open spec fn rounded_product(a: nat, b: nat) -> nat {
    (a * b + 0x8000_0000_0000_0000) / 0x1_0000_0000_0000_0000
}

pub proof fn lemma_rounded_product_bound(a: u64, b: u64)
    ensures
        rounded_product(a as nat, b as nat) <= 0xFFFF_FFFF_FFFF_FFFE,
{
    let m: int = 0xFFFF_FFFF_FFFF_FFFF;
    assert(a * b <= m * m) by (nonlinear_arith)
        requires
            a <= m,
            b <= m,
            0 <= a,
            0 <= b,
    ;
    vstd::arithmetic::div_mod::lemma_div_is_ordered(
        (a * b + 0x8000_0000_0000_0000) as int,
        m * m + 0x8000_0000_0000_0000,
        0x1_0000_0000_0000_0000,
    );
}

/// Rounding the product keeps the order of the first factor.
pub proof fn lemma_rounded_product_monotone(a1: nat, a2: nat, b: nat)
    requires
        a1 <= a2,
    ensures
        rounded_product(a1, b) <= rounded_product(a2, b),
{
    assert(a1 * b <= a2 * b) by (nonlinear_arith)
        requires
            a1 <= a2,
            0 <= b,
    ;
    vstd::arithmetic::div_mod::lemma_div_is_ordered(
        (a1 * b + 0x8000_0000_0000_0000) as int,
        (a2 * b + 0x8000_0000_0000_0000) as int,
        0x1_0000_0000_0000_0000,
    );
}

/// The product of two values, its significand the 128-bit product of theirs
/// rounded to the nearest multiple of 2^64 (halves up).
pub fn multiply(x: &DiyFp, y: &DiyFp) -> (r: DiyFp)
    requires
        i32::MIN <= x.e + y.e,
        x.e + y.e + 64 <= i32::MAX,
    ensures
        r.f == rounded_product(x.f as nat, y.f as nat),
        r.e == x.e + y.e + 64,
{
    let xf = x.f;
    let yf = y.f;
    assert(xf >> 32 == xf / 0x1_0000_0000) by (bit_vector);
    assert(xf & 0xFFFFFFFF == xf % 0x1_0000_0000) by (bit_vector);
    assert(yf >> 32 == yf / 0x1_0000_0000) by (bit_vector);
    assert(yf & 0xFFFFFFFF == yf % 0x1_0000_0000) by (bit_vector);
    let a = xf >> 32;
    let b = xf & MASK32;
    let c = yf >> 32;
    let d = yf & MASK32;
    assert(a < 0x1_0000_0000 && b < 0x1_0000_0000 && c < 0x1_0000_0000 && d < 0x1_0000_0000);
    proof {
        lemma_product_bound(a, c);
        lemma_product_bound(b, c);
        lemma_product_bound(a, d);
        lemma_product_bound(b, d);
    }
    let ac = a * c;
    let bc = b * c;
    let ad = a * d;
    let bd = b * d;
    assert(bd >> 32 == bd / 0x1_0000_0000) by (bit_vector);
    assert(ad & 0xFFFFFFFF == ad % 0x1_0000_0000) by (bit_vector);
    assert(bc & 0xFFFFFFFF == bc % 0x1_0000_0000) by (bit_vector);
    assert(ad >> 32 == ad / 0x1_0000_0000) by (bit_vector);
    assert(bc >> 32 == bc / 0x1_0000_0000) by (bit_vector);
    let mut tmp = (bd >> 32) + (ad & MASK32) + (bc & MASK32);
    tmp = tmp + 0x8000_0000;  // round
    assert(tmp >> 32 == tmp / 0x1_0000_0000) by (bit_vector);
    proof {
        lemma_split_product(
            xf as int,
            yf as int,
            a as int,
            b as int,
            c as int,
            d as int,
            ac as int,
            bc as int,
            ad as int,
            bd as int,
            tmp as int,
        );
    }
    DiyFp { f: ac + (ad >> 32) + (bc >> 32) + (tmp >> 32), e: x.e + y.e + 64 }
}

proof fn lemma_product_bound(a: u64, b: u64)
    requires
        a < 0x1_0000_0000,
        b < 0x1_0000_0000,
    ensures
        a * b <= 0xFFFF_FFFE_0000_0001,
{
    assert(a * b <= 0xFFFF_FFFF * 0xFFFF_FFFF) by (nonlinear_arith)
        requires
            a <= 0xFFFF_FFFF,
            b <= 0xFFFF_FFFF,
            0 <= a,
            0 <= b,
    ;
}

/// The schoolbook split of a 64×64 product into 32-bit halves, rounded to
/// its upper word.
proof fn lemma_split_product(
    xf: int,
    yf: int,
    a: int,
    b: int,
    c: int,
    d: int,
    ac: int,
    bc: int,
    ad: int,
    bd: int,
    tmp: int,
)
    requires
        0 <= xf,
        0 <= yf,
        a == xf / 0x1_0000_0000,
        b == xf % 0x1_0000_0000,
        c == yf / 0x1_0000_0000,
        d == yf % 0x1_0000_0000,
        ac == a * c,
        bc == b * c,
        ad == a * d,
        bd == b * d,
        tmp == bd / 0x1_0000_0000 + ad % 0x1_0000_0000 + bc % 0x1_0000_0000 + 0x8000_0000,
    ensures
        ac + ad / 0x1_0000_0000 + bc / 0x1_0000_0000 + tmp / 0x1_0000_0000 == rounded_product(
            xf as nat,
            yf as nat,
        ) as int,
{
    let k: int = 0x1_0000_0000;
    let hi = ac + ad / k + bc / k + tmp / k;
    let lo = (tmp % k) * k + bd % k;
    vstd::arithmetic::div_mod::lemma_fundamental_div_mod(xf, k);
    vstd::arithmetic::div_mod::lemma_fundamental_div_mod(yf, k);
    vstd::arithmetic::div_mod::lemma_fundamental_div_mod(ad, k);
    vstd::arithmetic::div_mod::lemma_fundamental_div_mod(bc, k);
    vstd::arithmetic::div_mod::lemma_fundamental_div_mod(bd, k);
    vstd::arithmetic::div_mod::lemma_fundamental_div_mod(tmp, k);
    lemma_split_identity(a, b, c, d, k);
    assert(xf * yf == ac * (k * k) + (ad + bc) * k + bd);
    assert(xf * yf + 0x8000_0000_0000_0000 == hi * (k * k) + lo) by (nonlinear_arith)
        requires
            xf * yf == ac * (k * k) + (ad + bc) * k + bd,
            ad == k * (ad / k) + ad % k,
            bc == k * (bc / k) + bc % k,
            bd == k * (bd / k) + bd % k,
            tmp == k * (tmp / k) + tmp % k,
            tmp == bd / k + ad % k + bc % k + 0x8000_0000,
            hi == ac + ad / k + bc / k + tmp / k,
            lo == (tmp % k) * k + bd % k,
            k == 0x1_0000_0000,
    ;
    assert(0 <= lo < k * k) by (nonlinear_arith)
        requires
            lo == (tmp % k) * k + bd % k,
            0 <= tmp % k < k,
            0 <= bd % k < k,
            k == 0x1_0000_0000,
    ;
    vstd::arithmetic::div_mod::lemma_fundamental_div_mod_converse(
        xf * yf + 0x8000_0000_0000_0000,
        k * k,
        hi,
        lo,
    );
}

proof fn lemma_split_identity(a: int, b: int, c: int, d: int, k: int)
    ensures
        (a * k + b) * (c * k + d) == (a * c) * (k * k) + (a * d + b * c) * k + b * d,
{
    let ck = c * k;
    vstd::arithmetic::mul::lemma_mul_is_distributive_add_other_way(ck + d, a * k, b);
    vstd::arithmetic::mul::lemma_mul_is_distributive_add(a * k, ck, d);
    vstd::arithmetic::mul::lemma_mul_is_distributive_add(b, ck, d);
    assert((a * k) * (c * k) == (a * c) * (k * k)) by (nonlinear_arith);
    assert((a * k) * d == (a * d) * k) by (nonlinear_arith);
    assert(b * (c * k) == (b * c) * k) by (nonlinear_arith);
    vstd::arithmetic::mul::lemma_mul_is_distributive_add_other_way(k, a * d, b * c);
}

/// How far a nonzero significand moves left until bit 63 is set.
pub open spec fn norm_shift(f: nat) -> nat
    decreases (if f == 0 || f >= 0x8000_0000_0000_0000 {
        0
    } else {
        0x8000_0000_0000_0000 - f
    }),
{
    if f == 0 || f >= 0x8000_0000_0000_0000 {
        0
    } else {
        1 + norm_shift(2 * f)
    }
}

proof fn lemma_norm_shift(f: nat)
    requires
        0 < f < 0x1_0000_0000_0000_0000,
    ensures
        0x8000_0000_0000_0000 <= f * pow2(norm_shift(f)) < 0x1_0000_0000_0000_0000,
    decreases (if f >= 0x8000_0000_0000_0000 {
        0
    } else {
        0x8000_0000_0000_0000 - f
    }),
{
    vstd::arithmetic::power2::lemma2_to64();
    if f < 0x8000_0000_0000_0000 {
        lemma_norm_shift(2 * f);
        let s = norm_shift(2 * f);
        assert(norm_shift(f) == s + 1);
        vstd::arithmetic::power2::lemma_pow2_adds(1, s);
        assert(pow2(s + 1) == 2 * pow2(s));
        assert(2 * f * pow2(s) == f * pow2(s + 1)) by (nonlinear_arith)
            requires
                pow2(s + 1) == 2 * pow2(s),
        ;
    } else {
        assert(norm_shift(f) == 0);
        assert(f * pow2(0) == f);
    }
}

/// Shifting further than a shift that set bit 63 overflows 64 bits.
proof fn lemma_norm_shift_smaller(f: nat, a: nat, b: nat)
    requires
        a < b,
        0x8000_0000_0000_0000 <= f * pow2(a),
    ensures
        f * pow2(b) >= 0x1_0000_0000_0000_0000,
{
    vstd::arithmetic::power2::lemma_pow2_adds(a, (b - a) as nat);
    vstd::arithmetic::power2::lemma_pow2_pos((b - a) as nat);
    vstd::arithmetic::power2::lemma2_to64();
    vstd::arithmetic::power2::lemma_pow2_strictly_increases(0, (b - a) as nat);
    assert(f * pow2(b) >= 2 * (f * pow2(a))) by (nonlinear_arith)
        requires
            pow2(b) == pow2(a) * pow2((b - a) as nat),
            pow2((b - a) as nat) >= 2,
            f >= 0,
            pow2(a) >= 0,
    ;
}

/// Only one shift puts a nonzero significand's top bit at bit 63.
proof fn lemma_norm_shift_unique(f: nat, a: nat, b: nat)
    requires
        0x8000_0000_0000_0000 <= f * pow2(a) < 0x1_0000_0000_0000_0000,
        0x8000_0000_0000_0000 <= f * pow2(b) < 0x1_0000_0000_0000_0000,
    ensures
        a == b,
{
    if a < b {
        lemma_norm_shift_smaller(f, a, b);
    } else if b < a {
        lemma_norm_shift_smaller(f, b, a);
    }
}

/// Shifts the significand left until its top bit is set, keeping the value.
pub fn normalize_diy_fp(n: DiyFp) -> (r: DiyFp)
    requires
        n.f != 0,
        n.e >= i32::MIN + 64,
    ensures
        r.f >= 0x8000_0000_0000_0000,
        n.e - 63 <= r.e <= n.e,
        r.f == n.f * pow2((n.e - r.e) as nat),
        r.e == n.e - norm_shift(n.f as nat),
{
    let mut f = n.f;
    let mut e = n.e;
    proof {
        vstd::arithmetic::power2::lemma2_to64();
        assert(n.f * pow2(0) == n.f);
    }
    while (f & 0xFFC0000000000000) == 0
        invariant
            f != 0,
            n.f != 0,
            n.e >= i32::MIN + 64,
            n.e - 63 <= e <= n.e,
            f == n.f * pow2((n.e - e) as nat),
        decreases 0x1_0000_0000_0000_0000 - f,
    {
        assert((f & 0xFFC0000000000000) == 0 ==> f < 0x40_0000_0000_0000) by (bit_vector);
        assert(f < 0x40_0000_0000_0000 ==> f << 10 == f * 1024) by (bit_vector);
        proof {
            vstd::arithmetic::power2::lemma2_to64();
            vstd::arithmetic::power2::lemma_pow2_adds((n.e - e) as nat, 10);
            vstd::arithmetic::mul::lemma_mul_is_associative(
                n.f as int,
                pow2((n.e - e) as nat) as int,
                1024,
            );
        }
        f = f << 10;
        proof {
            lemma_shift_count(n.f, (n.e - e + 10) as nat, f as nat);
        }
        e = e - 10;
    }
    while (f & 0x8000000000000000) == 0
        invariant
            f != 0,
            n.f != 0,
            n.e >= i32::MIN + 64,
            n.e - 63 <= e <= n.e,
            f == n.f * pow2((n.e - e) as nat),
        decreases 0x1_0000_0000_0000_0000 - f,
    {
        assert((f & 0x8000000000000000) == 0 ==> f < 0x8000_0000_0000_0000) by (bit_vector);
        assert(f < 0x8000_0000_0000_0000 ==> f << 1 == f * 2) by (bit_vector);
        proof {
            vstd::arithmetic::power2::lemma2_to64();
            vstd::arithmetic::power2::lemma_pow2_adds((n.e - e) as nat, 1);
            vstd::arithmetic::mul::lemma_mul_is_associative(
                n.f as int,
                pow2((n.e - e) as nat) as int,
                2,
            );
        }
        f = f << 1;
        proof {
            lemma_shift_count(n.f, (n.e - e + 1) as nat, f as nat);
        }
        e = e - 1;
    }
    assert((f & 0x8000000000000000) != 0 ==> f >= 0x8000_0000_0000_0000) by (bit_vector);
    proof {
        lemma_norm_shift(n.f as nat);
        lemma_norm_shift_unique(n.f as nat, (n.e - e) as nat, norm_shift(n.f as nat));
    }
    DiyFp { f: f, e: e }
}

/// A nonzero 64-bit value times `2^s` stays below 2^64 only for `s < 64`.
proof fn lemma_shift_count(x: u64, s: nat, y: nat)
    requires
        x != 0,
        y == x * pow2(s),
        y < 0x1_0000_0000_0000_0000,
    ensures
        s <= 63,
{
    if s > 63 {
        vstd::arithmetic::power2::lemma_pow2_strictly_increases(63, s);
        vstd::arithmetic::power2::lemma2_to64_rest();
        assert(x * pow2(s) >= pow2(s)) by (nonlinear_arith)
            requires
                x >= 1,
                pow2(s) >= 0,
        ;
        assert(pow2(64) == 0x1_0000_0000_0000_0000);
        if s > 64 {
            vstd::arithmetic::power2::lemma_pow2_strictly_increases(64, s);
        }
    }
}

} // verus!
