//! Layout of Grisu3's digits as a JSON number literal: plain digits,
//! trailing zeros, a decimal point, a leading `0.`, or an exponent.

use crate::grisu::{all_digits, grisu3, grisu3_spec, is_finite};
use vstd::prelude::*;

verus! {

const D64_SIGN: u64 = 0x8000000000000000;

/// The decimal digits of `n`, most significant first.
pub open spec fn nat_text(n: nat) -> Seq<u8>
    decreases n,
{
    if n < 10 {
        seq![(48 + n) as u8]
    } else {
        nat_text(n / 10).push((48 + n % 10) as u8)
    }
}

/// The decimal text of `v`, with a `-` in front when it is negative.
pub open spec fn int_text(v: int) -> Seq<u8> {
    if v < 0 {
        seq![45u8] + nat_text((-v) as nat)
    } else {
        nat_text(v as nat)
    }
}

/// `n` ASCII zeros.
pub open spec fn zeros(n: nat) -> Seq<u8> {
    Seq::new(n, |i: int| 48u8)
}

/// How many digits go after the decimal point when one is inserted.
pub open spec fn decimals_of(len: int, d_exp: int) -> int {
    let m = if 1 >= len - 1 {
        1
    } else {
        len - 1
    };
    if -d_exp <= m {
        -d_exp
    } else {
        m
    }
}

/// Whether the digits take a decimal point: the exponent is negative and
/// either there are enough digits to reach it or the point shortens the
/// exponent text.
pub open spec fn takes_point(len: int, d_exp: int) -> bool {
    d_exp < 0 && (len >= -d_exp || int_text(d_exp + decimals_of(len, d_exp)).len() + 1
        <= int_text(d_exp).len())
}

/// Digits with a decimal point `decimals` places from the end (a `0` in
/// front when none is left), then `e<exponent>` unless `exponent` is 0.
pub open spec fn point_text(digits: Seq<u8>, decimals: int, exponent: int) -> Seq<u8> {
    let len = digits.len() as int;
    let split = len - decimals;
    let whole = if split == 0 {
        seq![48u8]
    } else {
        digits.subrange(0, split)
    };
    let body = whole + seq![46u8] + digits.subrange(split, len);
    if exponent != 0 {
        body + seq![101u8] + int_text(exponent)
    } else {
        body
    }
}

/// `0.`, then zeros, then the digits: `digits × 10^d_exp` for
/// `d_exp < -digits.len()`.
pub open spec fn leading_zero_text(digits: Seq<u8>, d_exp: int) -> Seq<u8> {
    seq![48u8, 46u8] + zeros((-d_exp - digits.len()) as nat) + digits
}

/// The digits, then `e<d_exp>`.
pub open spec fn scientific_text(digits: Seq<u8>, d_exp: int) -> Seq<u8> {
    digits + seq![101u8] + int_text(d_exp)
}

/// The JSON literal for `digits × 10^d_exp`.
pub open spec fn literal_layout(digits: Seq<u8>, d_exp: int) -> Seq<u8> {
    let len = digits.len() as int;
    if takes_point(len, d_exp) {
        let decimals = decimals_of(len, d_exp);
        point_text(digits, decimals, d_exp + decimals)
    } else if -3 <= d_exp < 0 {
        leading_zero_text(digits, d_exp)
    } else if d_exp < 0 || d_exp > 2 {
        scientific_text(digits, d_exp)
    } else {
        digits + zeros(d_exp as nat)
    }
}

/// The literal with its sign.
pub open spec fn signed_literal(negative: bool, digits: Seq<u8>, d_exp: int) -> Seq<u8> {
    if negative {
        seq![45u8] + literal_layout(digits, d_exp)
    } else {
        literal_layout(digits, d_exp)
    }
}

proof fn lemma_nat_text_len(n: nat)
    ensures
        n < 10 ==> nat_text(n).len() == 1,
        10 <= n < 100 ==> nat_text(n).len() == 2,
        100 <= n < 1000 ==> nat_text(n).len() == 3,
        1000 <= n < 10000 ==> nat_text(n).len() == 4,
        nat_text(n).len() >= 1,
    decreases n,
{
    if n >= 10 {
        lemma_nat_text_len(n / 10);
    }
}

/// Length of the decimal text of `u`, its sign included.
pub fn exp_len(u: i32) -> (r: i32)
    requires
        -9999 <= u <= 9999,
    ensures
        r == int_text(u as int).len(),
        1 <= r <= 5,
{
    proof {
        lemma_nat_text_len(u as nat);
        lemma_nat_text_len((-u) as nat);
    }
    if u > 0 {
        if u >= 1000 {
            4
        } else if u >= 100 {
            3
        } else if u >= 10 {
            2
        } else {
            1
        }
    } else if u < 0 {
        if u <= -1000 {
            5
        } else if u <= -100 {
            4
        } else if u <= -10 {
            3
        } else {
            2
        }
    } else {
        1
    }
}

fn push_nat_text(n: u32, out: &mut Vec<u8>)
    ensures
        final(out)@ == old(out)@ + nat_text(n as nat),
    decreases n,
{
    if n >= 10 {
        push_nat_text(n / 10, out);
    }
    out.push(48 + (n % 10) as u8);
    proof {
        if n < 10 {
            assert(old(out)@ + nat_text(n as nat) =~= old(out)@.push((48 + n) as u8));
        } else {
            assert(old(out)@ + nat_text((n / 10) as nat) + seq![(48 + n % 10) as u8]
                =~= old(out)@ + nat_text(n as nat));
        }
    }
}

/// Appends the decimal text of `val`; returns how many bytes it took.
pub fn i_to_str(val: i32, out: &mut Vec<u8>) -> (r: usize)
    ensures
        final(out)@ == old(out)@ + int_text(val as int),
        r == int_text(val as int).len(),
{
    proof {
        lemma_nat_text_len(if val < 0 {
            (-val) as nat
        } else {
            val as nat
        });
    }
    if val < 0 {
        out.push(45u8);
        let mag: u32 = (0 - val as i64) as u32;
        push_nat_text(mag, out);
        proof {
            assert(old(out)@.push(45u8) + nat_text(mag as nat) =~= old(out)@ + int_text(
                val as int,
            ));
        }
        1 + int_len(mag)
    } else {
        push_nat_text(val as u32, out);
        int_len(val as u32)
    }
}

/// The number of decimal digits of `n`.
fn int_len(n: u32) -> (r: usize)
    ensures
        r == nat_text(n as nat).len(),
        1 <= r <= 10,
    decreases n,
{
    if n < 10 {
        1
    } else {
        let k = int_len(n / 10);
        proof {
            lemma_nat_text_len(n as nat);
            if k == 10 {
                lemma_text_len_bound((n / 10) as nat);
            }
        }
        k + 1
    }
}

proof fn lemma_text_len_bound(n: nat)
    requires
        n < 1000000000,
    ensures
        nat_text(n).len() <= 9,
{
    crate::number::lemma_pow10_table();
    lemma_text_len_by_power(n, 9, 1000000000);
}

proof fn lemma_text_len_by_power(n: nat, k: nat, p: nat)
    requires
        n < p,
        p == crate::number::pow10(k),
        k >= 1,
    ensures
        nat_text(n).len() <= k,
    decreases k,
{
    if n >= 10 {
        assert(p == 10 * crate::number::pow10((k - 1) as nat));
        if k == 1 {
            assert(crate::number::pow10(0) == 1);
        } else {
            assert(n / 10 < crate::number::pow10((k - 1) as nat));
            lemma_text_len_by_power(n / 10, (k - 1) as nat, crate::number::pow10((k - 1) as nat));
        }
    }
}

fn push_range(out: &mut Vec<u8>, src: &Vec<u8>, from: usize, to: usize)
    requires
        from <= to <= src.len(),
    ensures
        final(out)@ == old(out)@ + src@.subrange(from as int, to as int),
{
    let mut i = from;
    while i < to
        invariant
            from <= i <= to <= src.len(),
            out@ == old(out)@ + src@.subrange(from as int, i as int),
        decreases to - i,
    {
        out.push(src[i]);
        proof {
            assert(src@.subrange(from as int, i + 1) =~= src@.subrange(from as int, i as int).push(
                src@[i as int],
            ));
        }
        i = i + 1;
    }
}

fn push_zeros(out: &mut Vec<u8>, n: usize)
    ensures
        final(out)@ == old(out)@ + zeros(n as nat),
{
    let mut i: usize = 0;
    while i < n
        invariant
            i <= n,
            out@ == old(out)@ + zeros(i as nat),
        decreases n - i,
    {
        out.push(48u8);
        proof {
            assert(zeros((i + 1) as nat) =~= zeros(i as nat).push(48u8));
        }
        i = i + 1;
    }
}


fn push_point_text(out: &mut Vec<u8>, digits: &Vec<u8>, decimals: i32, exponent: i32)
    requires
        1 <= decimals <= digits.len() <= 30,
    ensures
        final(out)@ == old(out)@ + point_text(digits@, decimals as int, exponent as int),
{
    let split = digits.len() - decimals as usize;
    if split == 0 {
        out.push(48u8);
    } else {
        push_range(out, digits, 0, split);
    }
    out.push(46u8);
    push_range(out, digits, split, digits.len());
    if exponent != 0 {
        out.push(101u8);
        i_to_str(exponent, out);
    }
    proof {
        let len = digits@.len() as int;
        let whole = if split == 0 {
            seq![48u8]
        } else {
            digits@.subrange(0, split as int)
        };
        let body = whole + seq![46u8] + digits@.subrange(split as int, len);
        if exponent != 0 {
            assert(final(out)@ =~= old(out)@ + (body + seq![101u8] + int_text(exponent as int)));
        } else {
            assert(final(out)@ =~= old(out)@ + body);
        }
    }
}

fn push_leading_zero_text(out: &mut Vec<u8>, digits: &Vec<u8>, d_exp: i32)
    requires
        d_exp + digits.len() < 0,
        d_exp > -9000,
        digits.len() <= 30,
    ensures
        final(out)@ == old(out)@ + leading_zero_text(digits@, d_exp as int),
{
    out.push(48u8);
    out.push(46u8);
    push_zeros(out, (-d_exp - digits.len() as i32) as usize);
    push_range(out, digits, 0, digits.len());
    proof {
        assert(digits@.subrange(0, digits@.len() as int) =~= digits@);
        assert(final(out)@ =~= old(out)@ + leading_zero_text(digits@, d_exp as int));
    }
}

fn push_scientific_text(out: &mut Vec<u8>, digits: &Vec<u8>, d_exp: i32)
    ensures
        final(out)@ == old(out)@ + scientific_text(digits@, d_exp as int),
{
    push_range(out, digits, 0, digits.len());
    out.push(101u8);
    i_to_str(d_exp, out);
    proof {
        assert(digits@.subrange(0, digits@.len() as int) =~= digits@);
        assert(final(out)@ =~= old(out)@ + scientific_text(digits@, d_exp as int));
    }
}

fn push_zero_padded_text(out: &mut Vec<u8>, digits: &Vec<u8>, d_exp: i32)
    requires
        0 <= d_exp,
    ensures
        final(out)@ == old(out)@ + (digits@ + zeros(d_exp as nat)),
{
    push_range(out, digits, 0, digits.len());
    push_zeros(out, d_exp as usize);
    proof {
        assert(digits@.subrange(0, digits@.len() as int) =~= digits@);
        assert(final(out)@ =~= old(out)@ + (digits@ + zeros(d_exp as nat)));
    }
}

/// Lays out `digits × 10^d_exp` as a JSON number literal, with a leading
/// `-` when `negative`.
pub fn format_literal(negative: bool, digits: &Vec<u8>, d_exp: i32) -> (r: Vec<u8>)
    requires
        1 <= digits.len() <= 30,
        -9000 < d_exp < 9000,
    ensures
        r@ == signed_literal(negative, digits@, d_exp as int),
{
    let mut out: Vec<u8> = Vec::new();
    if negative {
        out.push(45u8);
    }
    let ghost sign = out@;
    let len = digits.len() as i32;
    let most: i32 = if 1 >= len - 1 {
        1
    } else {
        len - 1
    };
    let decimals: i32 = if -d_exp <= most {
        -d_exp
    } else {
        most
    };
    let point = if d_exp < 0 {
        len >= -d_exp || exp_len(d_exp + decimals) + 1 <= exp_len(d_exp)
    } else {
        false
    };
    assert(point == takes_point(len as int, d_exp as int));
    assert(decimals == decimals_of(len as int, d_exp as int));
    if point {
        push_point_text(&mut out, digits, decimals, d_exp + decimals);
    } else if d_exp < 0 && d_exp >= -3 {
        push_leading_zero_text(&mut out, digits, d_exp);
    } else if d_exp < 0 || d_exp > 2 {
        push_scientific_text(&mut out, digits, d_exp);
    } else {
        push_zero_padded_text(&mut out, digits, d_exp);
    }
    proof {
        if !negative {
            assert(sign =~= Seq::<u8>::empty());
            assert(out@ =~= literal_layout(digits@, d_exp as int));
        }
    }
    out
}

/// Whether a double's sign bit is set.
pub open spec fn sign_bit(bits: u64) -> bool {
    bits >= 0x8000_0000_0000_0000
}

/// The bit pattern with the sign bit cleared.
pub open spec fn magnitude_bits(bits: u64) -> u64 {
    (bits % 0x8000_0000_0000_0000) as u64
}

/// An integer part of a JSON number: `0`, or digits without a leading zero.
pub open spec fn json_int(s: Seq<u8>) -> bool {
    s.len() >= 1 && all_digits(s) && (s.len() == 1 || s[0] != 48)
}

/// An exponent of a JSON number after its `e`: an optional sign and digits.
pub open spec fn json_exponent(s: Seq<u8>) -> bool {
    let t = if s.len() >= 1 && (s[0] == 45 || s[0] == 43) {
        s.drop_first()
    } else {
        s
    };
    t.len() >= 1 && all_digits(t)
}

/// An unsigned JSON number split at `i` (end of the integer part) and `j`
/// (end of the fraction).
pub open spec fn json_unsigned_at(t: Seq<u8>, i: int, j: int) -> bool {
    &&& 0 < i <= j <= t.len()
    &&& json_int(t.subrange(0, i))
    &&& i == j || (t[i] == 46 && j - i >= 2 && all_digits(t.subrange(i + 1, j)))
    &&& j == t.len() || (t[j] == 101 && json_exponent(t.subrange(j + 1, t.len() as int)))
}

/// An unsigned JSON number: `(0 | [1-9][0-9]*) (. [0-9]+)? (e [+-]? [0-9]+)?`.
pub open spec fn json_unsigned(t: Seq<u8>) -> bool {
    exists|i: int, j: int| #[trigger] json_unsigned_at(t, i, j)
}

/// Text in the grammar of a JSON number: an optional `-`, then an unsigned
/// JSON number.
pub open spec fn json_number_text(s: Seq<u8>) -> bool {
    if s.len() >= 1 && s[0] == 45 {
        json_unsigned(s.drop_first())
    } else {
        json_unsigned(s)
    }
}

proof fn lemma_nat_text_digits(n: nat)
    ensures
        all_digits(nat_text(n)),
        nat_text(n).len() >= 1,
    decreases n,
{
    if n >= 10 {
        lemma_nat_text_digits(n / 10);
    }
}

proof fn lemma_int_text_exponent(v: int)
    ensures
        json_exponent(int_text(v)),
{
    lemma_nat_text_digits(if v < 0 {
        (-v) as nat
    } else {
        v as nat
    });
    if v < 0 {
        assert((seq![45u8] + nat_text((-v) as nat)).drop_first() =~= nat_text((-v) as nat));
    }
}

/// Digits followed by an exponent or nothing: `json_unsigned_at` at the end
/// of the mantissa.
proof fn lemma_json_tail(mantissa: Seq<u8>, i: int, j: int, exponent: int, with_exponent: bool)
    requires
        json_unsigned_at(mantissa, i, j),
        j == mantissa.len(),
    ensures
        json_unsigned_at(
            if with_exponent {
                mantissa + seq![101u8] + int_text(exponent)
            } else {
                mantissa
            },
            i,
            j,
        ),
{
    if with_exponent {
        let t = mantissa + seq![101u8] + int_text(exponent);
        lemma_int_text_exponent(exponent);
        assert(t.subrange(0, i) =~= mantissa.subrange(0, i));
        if i != j {
            assert(t.subrange(i + 1, j) =~= mantissa.subrange(i + 1, j));
        }
        assert(t.subrange(j + 1, t.len() as int) =~= int_text(exponent));
    }
}

/// Every literal that the layout produces from digits without a leading
/// zero is a JSON number.
pub proof fn lemma_literal_is_json(negative: bool, digits: Seq<u8>, d_exp: int)
    requires
        1 <= digits.len(),
        all_digits(digits),
        digits[0] != 48,
    ensures
        json_number_text(signed_literal(negative, digits, d_exp)),
{
    let lit = literal_layout(digits, d_exp);
    let len = digits.len() as int;
    let (i, j) = lemma_layout_split(digits, d_exp);
    let s = signed_literal(negative, digits, d_exp);
    if negative {
        assert(s.drop_first() =~= lit);
    }
    assert(lit.len() >= 1 && lit[0] != 45) by {
        assert(lit.subrange(0, i)[0] == lit[0]);
    }
    assert(json_unsigned_at(lit, i, j));
    assert(json_unsigned(lit));
}

/// The split points of a literal that show it a JSON number.
proof fn lemma_layout_split(digits: Seq<u8>, d_exp: int) -> (r: (int, int))
    requires
        1 <= digits.len(),
        all_digits(digits),
        digits[0] != 48,
    ensures
        json_unsigned_at(literal_layout(digits, d_exp), r.0, r.1),
{
    let len = digits.len() as int;
    if takes_point(len, d_exp) {
        let decimals = decimals_of(len, d_exp);
        let split = len - decimals;
        let whole = if split == 0 {
            seq![48u8]
        } else {
            digits.subrange(0, split)
        };
        let frac = digits.subrange(split, len);
        let body = whole + seq![46u8] + frac;
        let i = whole.len() as int;
        let j = body.len() as int;
        assert(body.subrange(0, i) =~= whole);
        assert(body.subrange(i + 1, j) =~= frac);
        assert(body[i] == 46);
        assert(json_int(whole)) by {
            if split != 0 {
                assert(whole[0] == digits[0]);
            }
        }
        lemma_json_tail(body, i, j, d_exp + decimals, d_exp + decimals != 0);
        (i, j)
    } else if -3 <= d_exp < 0 {
        let z = zeros((-d_exp - len) as nat);
        let lit = seq![48u8, 46u8] + z + digits;
        assert(lit.subrange(0, 1) =~= seq![48u8]);
        assert(lit.subrange(2, lit.len() as int) =~= z + digits);
        assert(lit[1] == 46);
        (1, lit.len() as int)
    } else if d_exp < 0 || d_exp > 2 {
        let lit = scientific_text(digits, d_exp);
        assert(lit.subrange(0, len) =~= digits);
        lemma_json_tail(digits, len, len, d_exp, true);
        assert(digits.subrange(0, len) =~= digits);
        (len, len)
    } else {
        let lit = digits + zeros(d_exp as nat);
        assert(lit.subrange(0, lit.len() as int) =~= lit);
        assert(lit[0] == digits[0]);
        (lit.len() as int, lit.len() as int)
    }
}

/// The text that `write_bits` produces for a finite double.
pub open spec fn write_spec(bits: u64) -> Option<Seq<u8>> {
    if magnitude_bits(bits) == 0 {
        Some(signed_literal(sign_bit(bits), seq![48u8], 0))
    } else {
        match grisu3_spec(magnitude_bits(bits)) {
            Some((d, k)) => Some(signed_literal(sign_bit(bits), d, k)),
            None => None,
        }
    }
}

/// The bytes of a result, as a value.
pub open spec fn text_result(r: Option<Vec<u8>>) -> Option<Seq<u8>> {
    match r {
        Some(t) => Some(t@),
        None => None,
    }
}

/// Writes a finite double, given by its bit pattern, as a JSON number
/// literal. Zero of either sign gives `0` after the sign; any other value
/// gives the Grisu3 digits of its magnitude laid out by `format_literal`.
/// `None` when Grisu3 cannot vouch for its digits.
pub fn write_bits(bits: u64) -> (r: Option<Vec<u8>>)
    requires
        is_finite(bits),
    ensures
        text_result(r) == write_spec(bits),
        r matches Some(t) ==> json_number_text(t@),
        bits == 0 ==> (r matches Some(t) && t@ == seq![48u8]),
        magnitude_bits(bits) == 0 ==> (r matches Some(t) && t@ == signed_literal(
            sign_bit(bits),
            seq![48u8],
            0,
        )),
{
    let negative = (bits & D64_SIGN) != 0;
    let magnitude = bits & !D64_SIGN;
    assert((bits & 0x8000000000000000) != 0 <==> bits >= 0x8000_0000_0000_0000) by (bit_vector);
    assert(bits & !0x8000000000000000u64 == bits % 0x8000_0000_0000_0000) by (bit_vector);
    if magnitude == 0 {
        let zero: Vec<u8> = vec![48u8];
        assert(zero@ =~= seq![48u8]);
        let text = format_literal(negative, &zero, 0);
        proof {
            lemma_zero_literal();
            let z = seq![48u8];
            assert(z.subrange(0, 1) =~= z);
            assert(json_unsigned_at(z, 1, 1));
            if negative {
                assert(text@.drop_first() =~= z);
            }
        }
        return Some(text);
    }
    match grisu3(magnitude) {
        Some((digits, d_exp)) => {
            let text = format_literal(negative, &digits, d_exp);
            assert(signed_literal(sign_bit(bits), digits@, d_exp as int) == text@);
            proof {
                lemma_literal_is_json(negative, digits@, d_exp as int);
            }
            Some(text)
        },
        None => None,
    }
}

/// Writing `-v` gives what writing `v` gives with a `-` in front, and
/// nothing else changed; Grisu3 succeeds on both or on neither.
pub proof fn lemma_sign_handling(bits: u64)
    requires
        is_finite(bits),
        !sign_bit(bits),
    ensures
        is_finite((bits + 0x8000_0000_0000_0000) as u64),
        write_spec((bits + 0x8000_0000_0000_0000) as u64) == match write_spec(bits) {
            Some(t) => Some(seq![45u8] + t),
            None => None,
        },
{
    let neg = (bits + 0x8000_0000_0000_0000) as u64;
    assert(magnitude_bits(neg) == magnitude_bits(bits));
    assert(sign_bit(neg));
}

/// Zero is written `0`.
pub proof fn lemma_write_zero()
    ensures
        write_spec(0) == Some(seq![48u8]),
{
    lemma_zero_literal();
}

/// The digit `0` at exponent 0 is laid out as itself.
proof fn lemma_zero_literal()
    ensures
        signed_literal(false, seq![48u8], 0) == seq![48u8],
{
    assert(seq![48u8] + zeros(0) =~= seq![48u8]);
}

} // verus!
