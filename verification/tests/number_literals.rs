use rule_engine::number::{parse_float, parse_int};

fn float_of(text: &str) -> Option<u64> {
    let chars: Vec<char> = text.chars().collect();
    parse_float(&chars)
}

fn int_of(text: &str) -> Option<i64> {
    let chars: Vec<char> = text.chars().collect();
    parse_int(&chars)
}

fn check(text: &str) {
    let want: f64 = text.parse().unwrap();
    assert_eq!(float_of(text), Some(want.to_bits()), "{}", text);
}

#[test]
fn float_literals_match_the_standard_parser() {
    let cases = [
        "0.0",
        "1e5",
        "12E-3",
        "0e0",
        "17e+300",
        "5e-324",
        "0.",
        "1.0",
        "1.",
        "30.0",
        "25.0",
        "55.0",
        "0.15",
        "0.1",
        "0.2",
        "0.3",
        "0.30000000000000004",
        "100.5",
        "3.14159",
        "2.5e-3",
        "1.5e3",
        "1.5E3",
        "1.5e+3",
        "1.0e10",
        "1.0e22",
        "1.0e23",
        "9007199254740992.0",
        "9007199254740993.0",
        "9007199254740993.00000000000000000001",
        "9007199254740994.0",
        "9007199254740995.0",
        "123456789012345678901234567890.0",
        "0.000001",
        "0.0000001",
        "1.7976931348623157e308",
        "1.7976931348623158e308",
        "1.7976931348623159e308",
        "1.8e308",
        "2.0e308",
        "1.0e309",
        "1.0e400",
        "1.0e99999999999",
        "4.9e-324",
        "5.0e-324",
        "2.4703282292062327e-324",
        "2.4703282292062328e-324",
        "2.5e-324",
        "2.0e-324",
        "1.0e-400",
        "1.0e-99999999999",
        "2.2250738585072014e-308",
        "2.2250738585072011e-308",
        "2.2250738585072009e-308",
        "2.225073858507201e-308",
        "1.0e-308",
        "1.0e-310",
        "1.5e-310",
        "6.02214076e23",
        "0.1e1",
        "00012.5000",
        "000.000",
        "0.00000000000000000000000000000000000000000000000000000000001",
        "179769313486231570814527423731704356798070567525844996598917476803157260780028538760589558632766878171540458953514382464234321326889464182768467546703537516986049910576551282076245490090389328944075868508455133942304583236903222948165808559332123348274797826204144723168738177180919299881250404026184124858368.0",
        "0.5",
        "0.25",
        "0.125",
        "0.3333333333333333",
        "0.33333333333333331",
        "0.6666666666666666",
        "8.5",
        "1.0000000000000002",
        "1.0000000000000001",
        "1.00000000000000011",
        "1.00000000000000011102230246251565404236316680908203125",
        "1.00000000000000011102230246251565404236316680908203124",
        "1.00000000000000011102230246251565404236316680908203126",
        "1.00000000000000033306690738754696212708950042724609375",
        "0.99999999999999994",
        "0.99999999999999995",
        "4.35",
        "2.675",
        "1.005",
        "72057594037927945.0",
        "72057594037927944.0",
        "72057594037927936.0",
    ];
    for text in cases {
        check(text);
    }
}

#[test]
fn generated_float_literals_match_the_standard_parser() {
    let mut seed: u64 = 0x2545_F491_4F6C_DD1D;
    for _ in 0..3000 {
        seed ^= seed << 13;
        seed ^= seed >> 7;
        seed ^= seed << 17;
        let x = f64::from_bits(seed);
        if !x.is_finite() {
            continue;
        }
        let x = x.abs();
        let sci = format!("{:e}", x);
        let text = if sci.contains('.') {
            sci
        } else {
            sci.replacen('e', ".0e", 1)
        };
        check(&text);
        let digits = seed % 1_000_000_007;
        let text = format!("{}.{}e{}", digits, seed >> 40, (seed >> 20) % 600);
        let want: f64 = text.parse().unwrap();
        assert_eq!(float_of(&text), Some(want.to_bits()), "{}", text);
        let text = format!("{}.{}e-{}", digits, seed >> 40, (seed >> 20) % 600);
        let want: f64 = text.parse().unwrap();
        assert_eq!(float_of(&text), Some(want.to_bits()), "{}", text);
    }
}

#[test]
fn malformed_float_literals_are_refused() {
    assert_eq!(float_of("1.5e"), None);
    assert_eq!(float_of("1.5e+"), None);
    assert_eq!(float_of("1.5e-"), None);
    assert_eq!(float_of("15"), None);
    assert_eq!(float_of("15e"), None);
    assert_eq!(float_of("e5"), None);
    assert_eq!(float_of(".5"), None);
    assert_eq!(float_of("1.5x"), None);
    assert_eq!(float_of(""), None);
}

#[test]
fn int_literals() {
    assert_eq!(int_of("0"), Some(0));
    assert_eq!(int_of("007"), Some(7));
    assert_eq!(int_of("1234567890"), Some(1234567890));
    assert_eq!(int_of("9223372036854775807"), Some(i64::MAX));
    assert_eq!(int_of("9223372036854775808"), None);
    assert_eq!(int_of("99999999999999999999999"), None);
    assert_eq!(int_of(""), None);
    assert_eq!(int_of("12a"), None);
}
