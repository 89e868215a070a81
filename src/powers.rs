//! Cached powers of ten as fixed-point binary floats, and powers of ten
//! that fit in 32 bits.

use crate::diy_fp::DiyFp;
use crate::number::{lemma_pow10_monotone, pow10};
use vstd::arithmetic::power2::pow2;
use vstd::prelude::*;

verus! {

const MIN_CACHED_EXP: i32 = -348;

const CACHED_EXP_STEP: i32 = 8;

/// `log10(2)` as a fixed-point fraction of 2^31.
const LOG10_2_FIXED: i64 = 646456993;

/// `ceil(x × log10(2))`, with `log10(2)` rounded down to 31 fraction bits;
/// for `|x| <= 1100` the result is that of the exact logarithm.
pub open spec fn ceil_log10_pow2(x: int) -> int {
    (x * 646456993 + 0x7FFF_FFFF) / 0x8000_0000
}

/// The decimal exponents that the driver asks the table about.
pub open spec fn cached_pow_domain(exp: int) -> bool {
    -1084 <= exp <= 1013
}

/// The table of cached powers: entry `i` holds the significand and binary
/// exponent of `10^(8i - 348)` rounded to 64 bits, and that decimal exponent.
pub open spec fn cached_power_spec(i: usize) -> (u64, i32, i32) {
    match i {
        0 => (0xfa8fd5a0081c0288u64, -1220i32, -348i32),
        1 => (0xbaaee17fa23ebf76u64, -1193i32, -340i32),
        2 => (0x8b16fb203055ac76u64, -1166i32, -332i32),
        3 => (0xcf42894a5dce35eau64, -1140i32, -324i32),
        4 => (0x9a6bb0aa55653b2du64, -1113i32, -316i32),
        5 => (0xe61acf033d1a45dfu64, -1087i32, -308i32),
        6 => (0xab70fe17c79ac6cau64, -1060i32, -300i32),
        7 => (0xff77b1fcbebcdc4fu64, -1034i32, -292i32),
        8 => (0xbe5691ef416bd60cu64, -1007i32, -284i32),
        9 => (0x8dd01fad907ffc3cu64, -980i32, -276i32),
        10 => (0xd3515c2831559a83u64, -954i32, -268i32),
        11 => (0x9d71ac8fada6c9b5u64, -927i32, -260i32),
        12 => (0xea9c227723ee8bcbu64, -901i32, -252i32),
        13 => (0xaecc49914078536du64, -874i32, -244i32),
        14 => (0x823c12795db6ce57u64, -847i32, -236i32),
        15 => (0xc21094364dfb5637u64, -821i32, -228i32),
        16 => (0x9096ea6f3848984fu64, -794i32, -220i32),
        17 => (0xd77485cb25823ac7u64, -768i32, -212i32),
        18 => (0xa086cfcd97bf97f4u64, -741i32, -204i32),
        19 => (0xef340a98172aace5u64, -715i32, -196i32),
        20 => (0xb23867fb2a35b28eu64, -688i32, -188i32),
        21 => (0x84c8d4dfd2c63f3bu64, -661i32, -180i32),
        22 => (0xc5dd44271ad3cdbau64, -635i32, -172i32),
        23 => (0x936b9fcebb25c996u64, -608i32, -164i32),
        24 => (0xdbac6c247d62a584u64, -582i32, -156i32),
        25 => (0xa3ab66580d5fdaf6u64, -555i32, -148i32),
        26 => (0xf3e2f893dec3f126u64, -529i32, -140i32),
        27 => (0xb5b5ada8aaff80b8u64, -502i32, -132i32),
        28 => (0x87625f056c7c4a8bu64, -475i32, -124i32),
        29 => (0xc9bcff6034c13053u64, -449i32, -116i32),
        30 => (0x964e858c91ba2655u64, -422i32, -108i32),
        31 => (0xdff9772470297ebdu64, -396i32, -100i32),
        32 => (0xa6dfbd9fb8e5b88fu64, -369i32, -92i32),
        33 => (0xf8a95fcf88747d94u64, -343i32, -84i32),
        34 => (0xb94470938fa89bcfu64, -316i32, -76i32),
        35 => (0x8a08f0f8bf0f156bu64, -289i32, -68i32),
        36 => (0xcdb02555653131b6u64, -263i32, -60i32),
        37 => (0x993fe2c6d07b7facu64, -236i32, -52i32),
        38 => (0xe45c10c42a2b3b06u64, -210i32, -44i32),
        39 => (0xaa242499697392d3u64, -183i32, -36i32),
        40 => (0xfd87b5f28300ca0eu64, -157i32, -28i32),
        41 => (0xbce5086492111aebu64, -130i32, -20i32),
        42 => (0x8cbccc096f5088ccu64, -103i32, -12i32),
        43 => (0xd1b71758e219652cu64, -77i32, -4i32),
        44 => (0x9c40000000000000u64, -50i32, 4i32),
        45 => (0xe8d4a51000000000u64, -24i32, 12i32),
        46 => (0xad78ebc5ac620000u64, 3i32, 20i32),
        47 => (0x813f3978f8940984u64, 30i32, 28i32),
        48 => (0xc097ce7bc90715b3u64, 56i32, 36i32),
        49 => (0x8f7e32ce7bea5c70u64, 83i32, 44i32),
        50 => (0xd5d238a4abe98068u64, 109i32, 52i32),
        51 => (0x9f4f2726179a2245u64, 136i32, 60i32),
        52 => (0xed63a231d4c4fb27u64, 162i32, 68i32),
        53 => (0xb0de65388cc8ada8u64, 189i32, 76i32),
        54 => (0x83c7088e1aab65dbu64, 216i32, 84i32),
        55 => (0xc45d1df942711d9au64, 242i32, 92i32),
        56 => (0x924d692ca61be758u64, 269i32, 100i32),
        57 => (0xda01ee641a708deau64, 295i32, 108i32),
        58 => (0xa26da3999aef774au64, 322i32, 116i32),
        59 => (0xf209787bb47d6b85u64, 348i32, 124i32),
        60 => (0xb454e4a179dd1877u64, 375i32, 132i32),
        61 => (0x865b86925b9bc5c2u64, 402i32, 140i32),
        62 => (0xc83553c5c8965d3du64, 428i32, 148i32),
        63 => (0x952ab45cfa97a0b3u64, 455i32, 156i32),
        64 => (0xde469fbd99a05fe3u64, 481i32, 164i32),
        65 => (0xa59bc234db398c25u64, 508i32, 172i32),
        66 => (0xf6c69a72a3989f5cu64, 534i32, 180i32),
        67 => (0xb7dcbf5354e9beceu64, 561i32, 188i32),
        68 => (0x88fcf317f22241e2u64, 588i32, 196i32),
        69 => (0xcc20ce9bd35c78a5u64, 614i32, 204i32),
        70 => (0x98165af37b2153dfu64, 641i32, 212i32),
        71 => (0xe2a0b5dc971f303au64, 667i32, 220i32),
        72 => (0xa8d9d1535ce3b396u64, 694i32, 228i32),
        73 => (0xfb9b7cd9a4a7443cu64, 720i32, 236i32),
        74 => (0xbb764c4ca7a44410u64, 747i32, 244i32),
        75 => (0x8bab8eefb6409c1au64, 774i32, 252i32),
        76 => (0xd01fef10a657842cu64, 800i32, 260i32),
        77 => (0x9b10a4e5e9913129u64, 827i32, 268i32),
        78 => (0xe7109bfba19c0c9du64, 853i32, 276i32),
        79 => (0xac2820d9623bf429u64, 880i32, 284i32),
        80 => (0x80444b5e7aa7cf85u64, 907i32, 292i32),
        81 => (0xbf21e44003acdd2du64, 933i32, 300i32),
        82 => (0x8e679c2f5e44ff8fu64, 960i32, 308i32),
        83 => (0xd433179d9c8cb841u64, 986i32, 316i32),
        84 => (0x9e19db92b4e31ba9u64, 1013i32, 324i32),
        85 => (0xeb96bf6ebadf77d9u64, 1039i32, 332i32),
        _ => (0xaf87023b9bf0ee6bu64, 1066i32, 340i32),
    }
}

/// The table index that the driver's decimal estimate selects.
pub open spec fn cached_index(exp: int) -> int {
    (ceil_log10_pow2(exp + 63) + 347) / 8 + 1
}

/// Entry `i` of the table: the significand and binary exponent of
/// `10^(8i - 348)` rounded to 64 bits, and that decimal exponent.
///
/// Each entry's binary exponent lies, for every `x` whose decimal estimate
/// `ceil_log10_pow2(x)` selects the entry, between `x - 63` and `x - 35`.
fn cached_power_entry(i: usize) -> (r: (u64, i32, i32))
    requires
        i < 87,
    ensures
        r == cached_power_spec(i),
        r.0 >= 0x8000_0000_0000_0000,
        r.2 == MIN_CACHED_EXP + CACHED_EXP_STEP * i,
        forall|x: int|
            #![trigger ceil_log10_pow2(x)]
            r.2 - 7 <= ceil_log10_pow2(x) <= r.2 ==> x - 63 <= r.1 <= x - 35,
{
    match i {
        0 => (0xfa8fd5a0081c0288, -1220, -348),
        1 => (0xbaaee17fa23ebf76, -1193, -340),
        2 => (0x8b16fb203055ac76, -1166, -332),
        3 => (0xcf42894a5dce35ea, -1140, -324),
        4 => (0x9a6bb0aa55653b2d, -1113, -316),
        5 => (0xe61acf033d1a45df, -1087, -308),
        6 => (0xab70fe17c79ac6ca, -1060, -300),
        7 => (0xff77b1fcbebcdc4f, -1034, -292),
        8 => (0xbe5691ef416bd60c, -1007, -284),
        9 => (0x8dd01fad907ffc3c, -980, -276),
        10 => (0xd3515c2831559a83, -954, -268),
        11 => (0x9d71ac8fada6c9b5, -927, -260),
        12 => (0xea9c227723ee8bcb, -901, -252),
        13 => (0xaecc49914078536d, -874, -244),
        14 => (0x823c12795db6ce57, -847, -236),
        15 => (0xc21094364dfb5637, -821, -228),
        16 => (0x9096ea6f3848984f, -794, -220),
        17 => (0xd77485cb25823ac7, -768, -212),
        18 => (0xa086cfcd97bf97f4, -741, -204),
        19 => (0xef340a98172aace5, -715, -196),
        20 => (0xb23867fb2a35b28e, -688, -188),
        21 => (0x84c8d4dfd2c63f3b, -661, -180),
        22 => (0xc5dd44271ad3cdba, -635, -172),
        23 => (0x936b9fcebb25c996, -608, -164),
        24 => (0xdbac6c247d62a584, -582, -156),
        25 => (0xa3ab66580d5fdaf6, -555, -148),
        26 => (0xf3e2f893dec3f126, -529, -140),
        27 => (0xb5b5ada8aaff80b8, -502, -132),
        28 => (0x87625f056c7c4a8b, -475, -124),
        29 => (0xc9bcff6034c13053, -449, -116),
        30 => (0x964e858c91ba2655, -422, -108),
        31 => (0xdff9772470297ebd, -396, -100),
        32 => (0xa6dfbd9fb8e5b88f, -369, -92),
        33 => (0xf8a95fcf88747d94, -343, -84),
        34 => (0xb94470938fa89bcf, -316, -76),
        35 => (0x8a08f0f8bf0f156b, -289, -68),
        36 => (0xcdb02555653131b6, -263, -60),
        37 => (0x993fe2c6d07b7fac, -236, -52),
        38 => (0xe45c10c42a2b3b06, -210, -44),
        39 => (0xaa242499697392d3, -183, -36),
        40 => (0xfd87b5f28300ca0e, -157, -28),
        41 => (0xbce5086492111aeb, -130, -20),
        42 => (0x8cbccc096f5088cc, -103, -12),
        43 => (0xd1b71758e219652c, -77, -4),
        44 => (0x9c40000000000000, -50, 4),
        45 => (0xe8d4a51000000000, -24, 12),
        46 => (0xad78ebc5ac620000, 3, 20),
        47 => (0x813f3978f8940984, 30, 28),
        48 => (0xc097ce7bc90715b3, 56, 36),
        49 => (0x8f7e32ce7bea5c70, 83, 44),
        50 => (0xd5d238a4abe98068, 109, 52),
        51 => (0x9f4f2726179a2245, 136, 60),
        52 => (0xed63a231d4c4fb27, 162, 68),
        53 => (0xb0de65388cc8ada8, 189, 76),
        54 => (0x83c7088e1aab65db, 216, 84),
        55 => (0xc45d1df942711d9a, 242, 92),
        56 => (0x924d692ca61be758, 269, 100),
        57 => (0xda01ee641a708dea, 295, 108),
        58 => (0xa26da3999aef774a, 322, 116),
        59 => (0xf209787bb47d6b85, 348, 124),
        60 => (0xb454e4a179dd1877, 375, 132),
        61 => (0x865b86925b9bc5c2, 402, 140),
        62 => (0xc83553c5c8965d3d, 428, 148),
        63 => (0x952ab45cfa97a0b3, 455, 156),
        64 => (0xde469fbd99a05fe3, 481, 164),
        65 => (0xa59bc234db398c25, 508, 172),
        66 => (0xf6c69a72a3989f5c, 534, 180),
        67 => (0xb7dcbf5354e9bece, 561, 188),
        68 => (0x88fcf317f22241e2, 588, 196),
        69 => (0xcc20ce9bd35c78a5, 614, 204),
        70 => (0x98165af37b2153df, 641, 212),
        71 => (0xe2a0b5dc971f303a, 667, 220),
        72 => (0xa8d9d1535ce3b396, 694, 228),
        73 => (0xfb9b7cd9a4a7443c, 720, 236),
        74 => (0xbb764c4ca7a44410, 747, 244),
        75 => (0x8bab8eefb6409c1a, 774, 252),
        76 => (0xd01fef10a657842c, 800, 260),
        77 => (0x9b10a4e5e9913129, 827, 268),
        78 => (0xe7109bfba19c0c9d, 853, 276),
        79 => (0xac2820d9623bf429, 880, 284),
        80 => (0x80444b5e7aa7cf85, 907, 292),
        81 => (0xbf21e44003acdd2d, 933, 300),
        82 => (0x8e679c2f5e44ff8f, 960, 308),
        83 => (0xd433179d9c8cb841, 986, 316),
        84 => (0x9e19db92b4e31ba9, 1013, 324),
        85 => (0xeb96bf6ebadf77d9, 1039, 332),
        86 => (0xaf87023b9bf0ee6b, 1066, 340),
        _ => (0xaf87023b9bf0ee6b, 1066, 340),
    }
}

/// The cached power of ten `c` and its decimal exponent `mk` for a target
/// binary exponent: the product of `c` with a normalized value of binary
/// exponent `-124 - exp` has a binary exponent between -60 and -32.
pub fn cached_pow(exp: i32) -> (r: (DiyFp, i32))
    requires
        cached_pow_domain(exp as int),
    ensures
        (r.0.f, r.0.e, r.1) == cached_power_spec(cached_index(exp as int) as usize),
        r.0.f >= 0x8000_0000_0000_0000,
        exp <= r.0.e <= exp + 28,
        ceil_log10_pow2(exp + 63) <= r.1 <= ceil_log10_pow2(exp + 63) + 7,
        (r.1 + 348) % 8 == 0,
        -348 <= r.1 <= 340,
{
    let x: i64 = exp as i64 + 63;
    let shifted: i64 = x * LOG10_2_FIXED + 0x7FFF_FFFF + 400 * 0x8000_0000;
    let k: i32 = (shifted / 0x8000_0000) as i32 - 400;
    assert(k == ceil_log10_pow2(x as int));
    let i = (k - MIN_CACHED_EXP - 1) / CACHED_EXP_STEP + 1;
    let entry = cached_power_entry(i as usize);
    (DiyFp { f: entry.0, e: entry.1 }, entry.2)
}

/// `0` and then `10^0` to `10^9`.
fn pow10_cache(i: usize) -> (r: u32)
    requires
        i <= 10,
    ensures
        i == 0 ==> r == 0,
        i >= 1 ==> r == pow10((i - 1) as nat),
{
    proof {
        crate::number::lemma_pow10_table();
    }
    match i {
        0 => 0,
        1 => 1,
        2 => 10,
        3 => 100,
        4 => 1000,
        5 => 10000,
        6 => 100000,
        7 => 1000000,
        8 => 10000000,
        9 => 100000000,
        _ => 1000000000,
    }
}

/// The bit-length estimate of the decimal length used by `largest_pow10`.
pub open spec fn digit_count_guess(n_bits: int) -> int {
    (n_bits + 1) * 1233 / 4096 + 1
}

proof fn lemma_digit_count_guess(nb: int)
    requires
        0 <= nb <= 32,
    ensures
        1 <= digit_count_guess(nb) <= 10,
        pow2(nb as nat) <= pow10(digit_count_guess(nb) as nat),
        nb >= 1 ==> pow10((digit_count_guess(nb) - 2) as nat) <= pow2((nb - 1) as nat)
            || digit_count_guess(nb) == 1,
        nb >= 4 ==> digit_count_guess(nb) >= 2 && pow10((digit_count_guess(nb) - 2) as nat)
            <= pow2((nb - 2) as nat),
{
    vstd::arithmetic::power2::lemma2_to64();
    crate::number::lemma_pow10_table();
    if nb == 0 {
    } else if nb == 1 {
    } else if nb == 2 {
    } else if nb == 3 {
    } else if nb == 4 {
    } else if nb == 5 {
    } else if nb == 6 {
    } else if nb == 7 {
    } else if nb == 8 {
    } else if nb == 9 {
    } else if nb == 10 {
    } else if nb == 11 {
    } else if nb == 12 {
    } else if nb == 13 {
    } else if nb == 14 {
    } else if nb == 15 {
    } else if nb == 16 {
    } else if nb == 17 {
    } else if nb == 18 {
    } else if nb == 19 {
    } else if nb == 20 {
    } else if nb == 21 {
    } else if nb == 22 {
    } else if nb == 23 {
    } else if nb == 24 {
    } else if nb == 25 {
    } else if nb == 26 {
    } else if nb == 27 {
    } else if nb == 28 {
    } else if nb == 29 {
    } else if nb == 30 {
    } else if nb == 31 {
    } else if nb == 32 {
    }
}

/// `0` and then `10^0` to `10^9`, as `pow10_cache` holds them.
pub open spec fn pow10_cache_spec(i: int) -> int {
    if i <= 0 {
        0
    } else {
        pow10((i - 1) as nat) as int
    }
}

/// The guess from the bit length, stepped down once when it overshoots.
pub open spec fn largest_pow10_spec(n: int, n_bits: int) -> (int, int) {
    let g = digit_count_guess(n_bits);
    if n < pow10_cache_spec(g) {
        (g - 1, pow10_cache_spec(g - 1))
    } else {
        (g, pow10_cache_spec(g))
    }
}

/// The number of decimal digits of `n` (`kappa`) and the power of ten of
/// its leading digit, for `n` below `2^n_bits`. When `n` has exactly
/// `n_bits` bits that power is at most `n`.
pub fn largest_pow10(n: u32, n_bits: i32) -> (r: (i32, u32))
    requires
        0 <= n_bits <= 32,
        n < pow2(n_bits as nat),
    ensures
        (r.0 as int, r.1 as int) == largest_pow10_spec(n as int, n_bits as int),
        0 <= r.0 <= 10,
        n < pow10(r.0 as nat),
        r.0 == 0 ==> r.1 == 0,
        r.0 >= 1 ==> r.1 == pow10((r.0 - 1) as nat),
        n_bits >= 1 && n >= pow2((n_bits - 1) as nat) ==> r.0 >= 1 && r.1 <= n,
        n_bits >= 4 && n >= pow2((n_bits - 2) as nat) ==> r.0 >= 1 && r.1 <= n,
        r.1 < pow2(n_bits as nat),
{
    proof {
        lemma_digit_count_guess(n_bits as int);
    }
    let mut guess: usize = ((n_bits + 1) * 1233 / 4096 + 1) as usize;
    assert(guess == digit_count_guess(n_bits as int));
    proof {
        vstd::arithmetic::power2::lemma_pow2_pos(n_bits as nat);
        if n_bits >= 1 {
            vstd::arithmetic::power2::lemma_pow2_pos((n_bits - 1) as nat);
            vstd::arithmetic::power2::lemma_pow2_strictly_increases(
                (n_bits - 1) as nat,
                n_bits as nat,
            );
        }
    }
    let mut pow = pow10_cache(guess);
    if n < pow {
        guess = guess - 1;
        pow = pow10_cache(guess);
        proof {
            crate::number::lemma_pow10_positive(0);
        }
    } else {
        proof {
            assert(pow10(guess as nat) == 10 * pow10((guess - 1) as nat));
        }
    }
    (guess as i32, pow)
}

} // verus!
