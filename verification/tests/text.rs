//! The byte-level grammars against Rust's own parsers: the float-literal
//! grammar must accept exactly what `f32` parsing accepts, the unsigned
//! grammar exactly what `u64` parsing accepts, and the UTF-8 check exactly
//! what the standard library's validation accepts.

use ppk2::text::{is_float_literal, parse_u64, validate_utf8};

#[test]
fn float_grammar_matches_the_float_parser() {
    let cases = [
        "", "1", "+1", "-1", "0", "1.", ".5", ".", "..", "1..2", "1.2.3", "3.25", "-3.25",
        "+0.043", "1e5", "1E5", "1e+5", "1e-5", "1e", "1e+", "1e-", "e5", "E5", "1.5e10",
        "1.e3", ".5e3", "inf", "INF", "Inf", "-inf", "+inf", "infinity", "Infinity",
        "-INFINITY", "nan", "NaN", "NAN", "-nan", "infi", "na", "nans", "1f", "0x10",
        "1_000", " 1", "1 ", "+-1", "--1", "1e5e5", "1.5E-3", "000.000", "1e99999",
        "340282350000000000000000000000000000000", "0.000000048", "-0.009388455",
    ];
    for s in cases {
        assert_eq!(
            is_float_literal(s.as_bytes()),
            s.parse::<f32>().is_ok(),
            "disagree on {:?}",
            s
        );
    }
}

#[test]
fn uint_grammar_matches_the_integer_parser() {
    let cases = [
        "", "0", "1", "007", "+0", "+123", "-1", "+", "-", "abc", "1a", " 1", "1 ", "1.0",
        "18446744073709551615", "18446744073709551616", "99999999999999999999999999",
        "++1", "3741",
    ];
    for s in cases {
        assert_eq!(parse_u64(s.as_bytes()), s.parse::<u64>().ok(), "disagree on {:?}", s);
    }
}

#[test]
fn utf8_check_matches_the_standard_validation() {
    let cases: &[&[u8]] = &[
        b"",
        b"plain ascii",
        "h\u{e9}llo".as_bytes(),
        "\u{1F496}".as_bytes(),
        "\u{FFFD}".as_bytes(),
        &[0x80],
        &[0xC0, 0x80],
        &[0xC1, 0xBF],
        &[0xC2, 0x80],
        &[0xC2, 0x7F],
        &[0xC2],
        &[0xE0, 0x80, 0x80],
        &[0xE0, 0xA0, 0x80],
        &[0xE0, 0xA0],
        &[0xED, 0x9F, 0xBF],
        &[0xED, 0xA0, 0x80],
        &[0xEF, 0xBF, 0xBF],
        &[0xF0, 0x80, 0x80, 0x80],
        &[0xF0, 0x90, 0x80, 0x80],
        &[0xF4, 0x8F, 0xBF, 0xBF],
        &[0xF4, 0x90, 0x80, 0x80],
        &[0xF5, 0x80, 0x80, 0x80],
        &[0xFF],
        &[0x41, 0xE2, 0x82],
        &[0x41, 0xE2, 0x82, 0xAC],
    ];
    for bytes in cases {
        assert_eq!(
            validate_utf8(bytes),
            std::str::from_utf8(bytes).is_ok(),
            "disagree on {:?}",
            bytes
        );
    }
}
