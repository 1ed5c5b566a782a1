use rule_engine::float::{
    float_add, float_compare, float_div, float_equal, float_from_int, float_less, float_mul,
    float_sub, Order,
};

fn samples() -> Vec<f64> {
    let mut v = vec![
        0.0,
        -0.0,
        1.0,
        -1.0,
        2.0,
        3.0,
        0.1,
        0.2,
        0.3,
        0.15,
        7.0,
        110.0,
        100.0,
        1e-7,
        1e21,
        1e300,
        1e-300,
        1.7976931348623157e308,
        5e-324,
        2.2250738585072014e-308,
        2.225073858507201e-308,
        4.9406564584124654e-324,
        1.0000000000000002,
        0.9999999999999999,
        9007199254740992.0,
        9007199254740993.0,
        123456789.123456789,
        -3.5,
        6.02214076e23,
        f64::INFINITY,
        f64::NEG_INFINITY,
        f64::NAN,
        1.5e-310,
        3.0e-310,
        f64::from_bits(0x000F_FFFF_FFFF_FFFF),
        f64::from_bits(0x0010_0000_0000_0001),
        f64::from_bits(0x7FEF_FFFF_FFFF_FFFE),
        f64::from_bits(0x3FF0_0000_0000_0001),
        f64::from_bits(0x4340_0000_0000_0001),
    ];
    let mut seed: u64 = 0x9E37_79B9_7F4A_7C15;
    for _ in 0..400 {
        seed ^= seed << 13;
        seed ^= seed >> 7;
        seed ^= seed << 17;
        v.push(f64::from_bits(seed));
    }
    v
}

fn same(bits: u64, expected: f64) -> bool {
    if expected.is_nan() {
        f64::from_bits(bits).is_nan()
    } else {
        bits == expected.to_bits()
    }
}

#[test]
fn addition_matches_hardware() {
    for a in samples() {
        for b in samples() {
            let r = float_add(a.to_bits(), b.to_bits());
            assert!(same(r, a + b), "{:e} + {:e}: got {:x}, want {:x}", a, b, r, (a + b).to_bits());
        }
    }
}

#[test]
fn subtraction_matches_hardware() {
    for a in samples() {
        for b in samples() {
            let r = float_sub(a.to_bits(), b.to_bits());
            assert!(same(r, a - b), "{:e} - {:e}: got {:x}, want {:x}", a, b, r, (a - b).to_bits());
        }
    }
}

#[test]
fn multiplication_matches_hardware() {
    for a in samples() {
        for b in samples() {
            let r = float_mul(a.to_bits(), b.to_bits());
            assert!(same(r, a * b), "{:e} * {:e}: got {:x}, want {:x}", a, b, r, (a * b).to_bits());
        }
    }
}

#[test]
fn division_matches_hardware() {
    for a in samples() {
        for b in samples() {
            let r = float_div(a.to_bits(), b.to_bits());
            assert!(same(r, a / b), "{:e} / {:e}: got {:x}, want {:x}", a, b, r, (a / b).to_bits());
        }
    }
}

#[test]
fn comparison_matches_hardware() {
    for a in samples() {
        for b in samples() {
            assert_eq!(float_equal(a.to_bits(), b.to_bits()), a == b);
            assert_eq!(float_less(a.to_bits(), b.to_bits()), a < b);
            let want = match a.partial_cmp(&b) {
                None => None,
                Some(std::cmp::Ordering::Less) => Some(Order::Less),
                Some(std::cmp::Ordering::Equal) => Some(Order::Equal),
                Some(std::cmp::Ordering::Greater) => Some(Order::Greater),
            };
            assert_eq!(float_compare(a.to_bits(), b.to_bits()), want);
        }
    }
}

#[test]
fn integer_conversion_matches_hardware() {
    let mut xs: Vec<i64> = vec![
        0,
        1,
        -1,
        2,
        3,
        10,
        100,
        i64::MAX,
        i64::MIN,
        i64::MIN + 1,
        9007199254740992,
        9007199254740993,
        9007199254740994,
        9007199254740995,
        -9007199254740993,
        (1 << 62) + (1 << 8),
        (1 << 62) + (1 << 9),
        (1 << 62) + (1 << 9) + 1,
        (1 << 62) + (3 << 9),
    ];
    let mut seed: u64 = 0x1234_5678_9ABC_DEF1;
    for i in 0..400 {
        seed ^= seed << 13;
        seed ^= seed >> 7;
        seed ^= seed << 17;
        xs.push((seed >> (i % 64)) as i64);
        xs.push(-((seed >> (i % 63 + 1)) as i64));
    }
    for x in xs {
        assert_eq!(float_from_int(x), (x as f64).to_bits(), "{}", x);
    }
}

#[test]
fn whole_numbers_are_computed_exactly() {
    let xs: Vec<i64> = vec![
        0,
        1,
        -1,
        2,
        -3,
        7,
        110,
        -4096,
        94906265,
        -94906265,
        4503599627370496,
        -4503599627370495,
        9007199254740991,
        -9007199254740991,
    ];
    let bound: i64 = 1 << 53;
    for &x in &xs {
        for &y in &xs {
            let a = float_from_int(x);
            let b = float_from_int(y);
            if -bound < x + y && x + y < bound {
                assert_eq!(float_add(a, b), float_from_int(x + y), "{} + {}", x, y);
            }
            if -bound < x - y && x - y < bound {
                assert_eq!(float_sub(a, b), float_from_int(x - y), "{} - {}", x, y);
            }
            let product = (x as i128) * (y as i128);
            if x != 0 && y != 0 && -(bound as i128) < product && product < bound as i128 {
                assert_eq!(float_mul(a, b), float_from_int(x * y), "{} * {}", x, y);
                assert_eq!(float_div(float_from_int(x * y), b), a, "{} / {}", x * y, y);
            }
        }
    }
}
