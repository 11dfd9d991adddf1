//! The numeric-literal grammars behind scalar inference, held against
//! std's own parsing: the library decides "parses as integer" and "parses
//! as float" itself, and must agree with `str::parse`.

use har2openapi::numlit::{is_float_literal, is_i32_literal};

#[test]
fn float_literals_agree_with_parse() {
    let cases = [
        "", " ", "0", "1.0", "120.50", "-3.14", "+2.5E10", "2.5e-10", ".5", "5.", "-.5", ".",
        "-", "+", "1e", "e5", "1e5", "1E+5", "1.2.3", "1_000", "inf", "-inf", "Infinity", "NaN",
        "nan", "infinit", "true", "acme", "99999999999999999999999", "1e999", "0x10", " 1", "1 ",
        "--1", "+-1", "1.e5", ".e5", "1e5.0",
    ];
    for case in cases {
        assert_eq!(
            is_float_literal(case),
            case.parse::<f64>().is_ok(),
            "f64 disagreement on {:?}",
            case
        );
        assert_eq!(
            is_float_literal(case),
            case.parse::<f32>().is_ok(),
            "f32 disagreement on {:?}",
            case
        );
    }
}

#[test]
fn integer_literals_agree_with_parse() {
    let cases = [
        "", "0", "32", "-32", "+32", "007", "2147483647", "2147483648", "-2147483648",
        "-2147483649", "4294967296", "99999999999999999999999", "1.0", " 1", "1 ", "--1", "+-1",
        "-", "+", "abc", "0x10", "00000000000000000000000000000001",
    ];
    for case in cases {
        assert_eq!(
            is_i32_literal(case),
            case.parse::<i32>().is_ok(),
            "i32 disagreement on {:?}",
            case
        );
    }
}
