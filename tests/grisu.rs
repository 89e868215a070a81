use json_number::diy_fp::{double2diy_fp, minus, multiply, normalize_diy_fp, DiyFp};
use json_number::grisu::{digit_gen, grisu3, round_weed};
use json_number::powers::{cached_pow, largest_pow10};

#[test]
fn multiply_rounds_to_the_upper_word() {
    let x = DiyFp { f: 0x8000_0000_0000_0000, e: -10 };
    let y = DiyFp { f: 0x8000_0000_0000_0000, e: 3 };
    let r = multiply(&x, &y);
    assert_eq!(r.f, 0x4000_0000_0000_0000);
    assert_eq!(r.e, 57);
    let a = DiyFp { f: u64::MAX, e: 0 };
    let r = multiply(&a, &a);
    assert_eq!(r.f, u64::MAX - 1);
    let b = DiyFp { f: 3, e: 0 };
    let c = DiyFp { f: 0x5555_5555_5555_5556, e: 0 };
    // 3 × 0x5555_5555_5555_5556 = 2^64 + 2: rounds to 1.
    assert_eq!(multiply(&b, &c).f, 1);
    let d = DiyFp { f: 1 << 63, e: 0 };
    let one = DiyFp { f: 1, e: 0 };
    // exactly one half rounds up
    assert_eq!(multiply(&d, &one).f, 1);
    let e = DiyFp { f: (1 << 63) - 1, e: 0 };
    assert_eq!(multiply(&e, &one).f, 0);
}

#[test]
fn normalize_sets_the_top_bit() {
    let r = normalize_diy_fp(DiyFp { f: 1, e: 0 });
    assert_eq!(r.f, 1 << 63);
    assert_eq!(r.e, -63);
    let r = normalize_diy_fp(DiyFp { f: 0x10_0000_0000_0001, e: 5 });
    assert_eq!(r.f, 0x8000_0000_0000_0800);
    assert_eq!(r.e, -6);
}

#[test]
fn minus_subtracts() {
    let r = minus(&DiyFp { f: 10, e: 4 }, &DiyFp { f: 3, e: 4 });
    assert_eq!((r.f, r.e), (7, 4));
}

#[test]
fn double_bits_decompose() {
    let r = double2diy_fp(1.0f64.to_bits());
    assert_eq!((r.f, r.e), (1 << 52, -52));
    let r = double2diy_fp(5e-324f64.to_bits());
    assert_eq!((r.f, r.e), (1, -1074));
}

#[test]
fn cached_power_matches_the_float_formula() {
    for exp in -1084..=1013 {
        let (c, mk) = cached_pow(exp);
        let k = (((exp + 63) as f64) * 0.30102999566398114).ceil() as i32;
        let i = (k + 347) / 8 + 1;
        assert_eq!(mk, -348 + 8 * i);
        assert!(c.e >= exp && c.e <= exp + 28);
    }
    let (c, mk) = cached_pow(-124 + 63);
    assert_eq!((c.f, c.e, mk), (0x9c40000000000000, -50, 4));
}

#[test]
fn largest_power_of_ten() {
    assert_eq!(largest_pow10(0, 0), (0, 0));
    assert_eq!(largest_pow10(9, 4), (1, 1));
    assert_eq!(largest_pow10(10, 4), (2, 10));
    assert_eq!(largest_pow10(999, 10), (3, 100));
    assert_eq!(largest_pow10(1000, 10), (4, 1000));
    assert_eq!(largest_pow10(u32::MAX, 32), (10, 1000000000));
}

#[test]
fn grisu3_digits() {
    let (d, e) = grisu3(1.0f64.to_bits()).unwrap();
    assert_eq!((d, e), (b"1".to_vec(), 0));
    let (d, e) = grisu3(0.1f64.to_bits()).unwrap();
    assert_eq!((d, e), (b"1".to_vec(), -1));
    let (d, e) = grisu3(3.14f64.to_bits()).unwrap();
    assert_eq!((d, e), (b"314".to_vec(), -2));
    let (d, e) = grisu3(f64::MAX.to_bits()).unwrap();
    assert_eq!((d, e), (b"17976931348623157".to_vec(), 292));
}

#[test]
fn digit_gen_on_a_scaled_interval() {
    // 1234567890 × 2^32 in units of 2^-32, half a unit either side.
    let w = DiyFp { f: 1234567890u64 << 32, e: -32 };
    let low = DiyFp { f: (1234567890u64 << 32) - (1 << 31), e: -32 };
    let high = DiyFp { f: (1234567890u64 << 32) + (1 << 31), e: -32 };
    let (digits, kappa) = digit_gen(low, w, high).unwrap();
    // The trailing zero is never generated: the rest is already inside the
    // unsafe interval after the ninth digit.
    assert_eq!(digits, b"123456789".to_vec());
    assert_eq!(kappa, 1);
}

#[test]
fn round_weed_steps_the_last_digit_down() {
    let mut buf = b"19".to_vec();
    // Overshoot of 25 units; one step of the last digit is 10 units.
    assert!(round_weed(&mut buf, 25, 90, 3, 10, 1));
    assert_eq!(buf, b"17".to_vec());
    // Too close to the lower end of the interval: rejected.
    let mut buf = b"19".to_vec();
    assert!(!round_weed(&mut buf, 25, 26, 3, 10, 1));
}
