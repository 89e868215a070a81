use json_number::literal::{exp_len, format_literal, i_to_str, write_bits};

/// `-? (0 | [1-9][0-9]*) (. [0-9]+)? (e [+-]? [0-9]+)?`
fn is_json_number(s: &str) -> bool {
    let b = s.as_bytes();
    let mut i = 0;
    if i < b.len() && b[i] == b'-' {
        i += 1;
    }
    let start = i;
    while i < b.len() && b[i].is_ascii_digit() {
        i += 1;
    }
    if i == start || (b[start] == b'0' && i - start > 1) {
        return false;
    }
    if i < b.len() && b[i] == b'.' {
        i += 1;
        let f = i;
        while i < b.len() && b[i].is_ascii_digit() {
            i += 1;
        }
        if i == f {
            return false;
        }
    }
    if i < b.len() && (b[i] == b'e' || b[i] == b'E') {
        i += 1;
        if i < b.len() && (b[i] == b'+' || b[i] == b'-') {
            i += 1;
        }
        let e = i;
        while i < b.len() && b[i].is_ascii_digit() {
            i += 1;
        }
        if i == e {
            return false;
        }
    }
    i == b.len()
}

fn write(v: f64) -> String {
    String::from_utf8(write_bits(v.to_bits()).expect("grisu3 succeeds")).unwrap()
}

#[test]
fn zero_is_written_as_zero() {
    assert_eq!(write(0.0), "0");
    assert_eq!(write(-0.0), "-0");
}

#[test]
fn boundary_values() {
    assert_eq!(write(1.0), "1");
    assert_eq!(write(0.1), "0.1");
    assert_eq!(write(1e21), "1e21");
    assert_eq!(write(123456789.123456), "123456789.123456");
    let max = write(1.7976931348623157e308);
    assert_eq!(max.parse::<f64>().unwrap(), f64::MAX);
}

#[test]
fn sign_is_a_prefix() {
    for v in [1.0, 0.1, 1e21, 5e-324, 2.5, 123456789.123456, 1.7976931348623157e308, 3.0e-7] {
        let pos = write(v);
        let neg = write(-v);
        assert_eq!(neg, format!("-{}", pos));
    }
}

#[test]
fn round_trips_parse_back_exactly() {
    let mut state: u64 = 0x9E37_79B9_7F4A_7C15;
    let mut written = 0;
    for _ in 0..20000 {
        state ^= state << 13;
        state ^= state >> 7;
        state ^= state << 17;
        let bits = state & 0x7FFF_FFFF_FFFF_FFFF;
        if bits >= 0x7FF0_0000_0000_0000 {
            continue;
        }
        if let Some(text) = write_bits(bits) {
            let s = String::from_utf8(text).unwrap();
            assert_eq!(s.parse::<f64>().unwrap().to_bits(), bits, "{}", s);
            assert!(is_json_number(&s), "{}", s);
            written += 1;
        }
    }
    assert!(written > 19000);
}

#[test]
fn round_trips_small_and_subnormal() {
    let mut refused = Vec::new();
    for v in [5e-324f64, 1e-323, 2.2250738585072014e-308, 2.225073858507201e-308, 1e-300, 0.3, 2.0, 1024.0, 9007199254740993.0, 1e15, 1e16, 1e17, 1e23] {
        match write_bits(v.to_bits()) {
            Some(text) => {
                let s = String::from_utf8(text).unwrap();
                assert_eq!(s.parse::<f64>().unwrap(), v, "{}", s);
            }
            None => refused.push(v),
        }
    }
    assert!(refused.len() <= 1, "{:?}", refused);
}

#[test]
fn shortest_digits_for_simple_values() {
    assert_eq!(write(0.3), "0.3");
    assert_eq!(write(2.5), "2.5");
    assert_eq!(write(100.0), "100");
    assert_eq!(write(1000.0), "1e3");
    assert_eq!(write(5e-324), "5e-324");
    assert_eq!(write(0.001), "0.001");
    assert_eq!(write(0.012), "0.012");
    assert_eq!(write(0.12), "1.2e-1");
}

#[test]
fn layout_for_three_digits() {
    let d = b"123".to_vec();
    let f = |e: i32| String::from_utf8(format_literal(false, &d, e)).unwrap();
    assert_eq!(f(-5), "123e-5");
    assert_eq!(f(-3), "1.23e-1");
    assert_eq!(f(-1), "12.3");
    assert_eq!(f(0), "123");
    assert_eq!(f(1), "1230");
    assert_eq!(f(3), "123e3");
    assert_eq!(f(2), "12300");
}

#[test]
fn layout_leading_zero_and_point_forms() {
    let one = b"5".to_vec();
    let two = b"12".to_vec();
    let f = |d: &Vec<u8>, e: i32| String::from_utf8(format_literal(false, d, e)).unwrap();
    assert_eq!(f(&one, -1), "0.5");
    assert_eq!(f(&one, -2), "0.05");
    assert_eq!(f(&one, -3), "0.005");
    assert_eq!(f(&one, -4), "5e-4");
    assert_eq!(f(&one, -10), "0.5e-9");
    assert_eq!(f(&two, -3), "0.012");
    assert_eq!(f(&two, -2), "1.2e-1");
    assert_eq!(String::from_utf8(format_literal(true, &two, -1)).unwrap(), "-1.2");
}

#[test]
fn exponent_text_lengths() {
    assert_eq!(exp_len(0), 1);
    assert_eq!(exp_len(9), 1);
    assert_eq!(exp_len(10), 2);
    assert_eq!(exp_len(999), 3);
    assert_eq!(exp_len(1000), 4);
    assert_eq!(exp_len(9999), 4);
    assert_eq!(exp_len(-1), 2);
    assert_eq!(exp_len(-10), 3);
    assert_eq!(exp_len(-100), 4);
    assert_eq!(exp_len(-9999), 5);
}

#[test]
fn integer_text() {
    let mut out = b"e".to_vec();
    assert_eq!(i_to_str(-308, &mut out), 4);
    assert_eq!(out, b"e-308".to_vec());
    let mut out = Vec::new();
    assert_eq!(i_to_str(0, &mut out), 1);
    assert_eq!(out, b"0".to_vec());
    let mut out = Vec::new();
    assert_eq!(i_to_str(i32::MIN, &mut out), 11);
    assert_eq!(out, b"-2147483648".to_vec());
}
