use rule_engine::number::{parse_float, render_float};
use rule_engine::parser::{number_value, reads_back};
use rule_engine::{Context, Engine, Value};

fn text_of(x: f64) -> String {
    render_float(x.to_bits()).into_iter().collect()
}

fn check(x: f64) {
    assert_eq!(text_of(x), format!("{}", x), "{:e} ({:#x})", x, x.to_bits());
}

#[test]
fn floats_are_written_as_the_standard_formatter_writes_them() {
    let cases = [
        0.0,
        -0.0,
        1.0,
        -1.0,
        7.0,
        0.15,
        0.05,
        0.2,
        0.1,
        0.3,
        0.1 + 0.2,
        110.0,
        2.5,
        100.5,
        1e21,
        1e22,
        1e23,
        1e-7,
        1e-5,
        123456789.125,
        5e-324,
        1.7976931348623157e308,
        2.2250738585072014e-308,
        2.225073858507201e-308,
        9007199254740992.0,
        9007199254740993.0,
        4503599627370496.0,
        4503599627370497.0,
        0.9999999999999999,
        1.0000000000000002,
        9.999999999999999e22,
        9.5,
        99.99,
        0.000123,
        1.5e300,
        3.0e-310,
        6.02214076e23,
        f64::INFINITY,
        f64::NEG_INFINITY,
        f64::MAX,
        f64::MIN,
        f64::MIN_POSITIVE,
        f64::EPSILON,
        2.0f64.powi(52),
        2.0f64.powi(53),
        2.0f64.powi(-1022),
        2.0f64.powi(-1074),
        2.0f64.powi(1023),
        2.0f64.powi(100),
        2.0f64.powi(-100),
        1.0 / 3.0,
        2.0 / 3.0,
        std::f64::consts::PI,
        std::f64::consts::E,
    ];
    for x in cases {
        check(x);
    }
    assert_eq!(text_of(f64::NAN), "NaN");
}

#[test]
fn generated_floats_are_written_as_the_standard_formatter_writes_them() {
    let mut seed: u64 = 0x9E37_79B9_7F4A_7C15;
    let mut count = 0;
    while count < 1500 {
        seed ^= seed << 13;
        seed ^= seed >> 7;
        seed ^= seed << 17;
        let x = f64::from_bits(seed);
        if x.is_nan() {
            continue;
        }
        check(x);
        let near_one = f64::from_bits(0x3FF0_0000_0000_0000 ^ (seed >> 12));
        check(near_one);
        let small = (seed % 100_000) as f64 / 100.0;
        check(small);
        count += 1;
    }
}

#[test]
fn written_floats_read_back_as_the_same_number() {
    let mut seed: u64 = 0xD1B5_4A32_D192_ED03;
    let mut count = 0;
    while count < 500 {
        seed ^= seed << 13;
        seed ^= seed >> 7;
        seed ^= seed << 17;
        let x = f64::from_bits(seed & 0x7FFF_FFFF_FFFF_FFFF);
        if !x.is_finite() {
            continue;
        }
        let text = render_float(x.to_bits());
        let literal: Vec<char> = if text.contains(&'.') {
            text
        } else {
            let mut t = text;
            t.push('.');
            t
        };
        assert_eq!(parse_float(&literal), Some(x.to_bits()), "{:e}", x);
        count += 1;
    }
}

#[test]
fn finite_floats_up_to_a_quadrillion_read_back() {
    let engine = Engine::new();
    let ctx = Context::new();
    let mut samples: Vec<f64> = vec![
        0.1,
        0.15,
        0.3,
        2.5,
        1234.5678,
        999999999999999.9,
        1e15,
        1e-7,
        5e-324,
        2.2250738585072014e-308,
        1.0000000000000002,
        0.9999999999999999,
        123456789.123456789,
        4503599627370495.5,
        7.0,
        0.0,
    ];
    let mut seed: u64 = 0xA076_1D64_78BD_642F;
    while samples.len() < 1200 {
        seed ^= seed << 13;
        seed ^= seed >> 7;
        seed ^= seed << 17;
        let x = f64::from_bits(seed & 0x7FFF_FFFF_FFFF_FFFF);
        if x.is_finite() && x <= 1e15 {
            samples.push(x);
        }
        let scaled = (seed % 1_000_000_007) as f64 / 1024.0 * ((seed >> 40) % 977) as f64;
        if scaled <= 1e15 {
            samples.push(scaled);
        }
    }
    for x in samples {
        for y in [x, -x] {
            assert!(reads_back(y.to_bits()), "{:e}", y);
            let text: String = render_float(y.to_bits()).into_iter().collect();
            match engine.parse_and_eval(&text, &ctx).unwrap() {
                Value::Float(bits) => assert_eq!(bits, y.to_bits(), "{}", text),
                Value::Int(n) => assert_eq!(n as f64, y, "{}", text),
                other => panic!("{} read back as {:?}", text, other),
            }
        }
    }
}

#[test]
fn number_texts_have_the_value_of_their_literal() {
    assert_eq!(number_value("7"), Some(7.0f64.to_bits()));
    assert_eq!(number_value("0.15"), Some(0.15f64.to_bits()));
    assert_eq!(number_value("1e3"), Some(1000.0f64.to_bits()));
    assert_eq!(number_value("9223372036854775807"), Some(9223372036854775807.0f64.to_bits()));
    assert_eq!(number_value("9223372036854775808"), None);
    assert_eq!(number_value("1.5e"), None);
    assert!(!reads_back(1e300f64.to_bits()));
    assert!(reads_back(f64::MAX.to_bits()) == false);
    assert!(reads_back(0.1f64.to_bits()));
}
