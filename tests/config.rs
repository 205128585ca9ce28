use elevator::config::{field, parse_config, parse_micro, parse_requests, parse_u64, ConfigError};
use elevator::text::{find, split_on, trim};

fn bytes(s: &str) -> Vec<u8> {
    s.as_bytes().to_vec()
}

#[test]
fn parses_a_configuration_file() {
    let c = parse_config(&bytes("floor_count 5\nfloor_height 3.0\nfloor_requests 3,1,4")).unwrap();
    assert_eq!(c.floor_count, 5);
    assert_eq!(c.floor_height, 3_000_000);
    assert_eq!(c.floor_requests, vec![3, 1, 4]);
}

#[test]
fn value_follows_first_occurrence_of_label() {
    let c = parse_config(&bytes("count: floor_count   12  \nthe floor_height 2.5\nfloor_requests 0")).unwrap();
    assert_eq!(c.floor_count, 12);
    assert_eq!(c.floor_height, 2_500_000);
    assert_eq!(c.floor_requests, vec![0]);
}

#[test]
fn configuration_needs_exactly_three_lines() {
    let text = bytes("floor_count 5\nfloor_height 3.0\nfloor_requests 3\n");
    assert_eq!(parse_config(&text).unwrap_err(), ConfigError::LineCount(4));
    assert_eq!(parse_config(&bytes("floor_count 5")).unwrap_err(), ConfigError::LineCount(1));
}

#[test]
fn configuration_reports_missing_labels() {
    let text = bytes("floor_count 5\nheight 3.0\nfloor_requests 3");
    assert_eq!(parse_config(&text).unwrap_err(), ConfigError::MissingLabel(1));
}

#[test]
fn configuration_reports_bad_values() {
    let text = bytes("floor_count five\nfloor_height 3.0\nfloor_requests 3");
    assert_eq!(parse_config(&text).unwrap_err(), ConfigError::BadValue(0));
    let text = bytes("floor_count 5\nfloor_height 3.0\nfloor_requests 3, 4");
    assert_eq!(parse_config(&text).unwrap_err(), ConfigError::BadValue(2));
    let text = bytes("floor_count 5\nfloor_height -3\nfloor_requests 3");
    assert_eq!(parse_config(&text).unwrap_err(), ConfigError::BadValue(1));
}

#[test]
fn parses_unsigned_integers() {
    assert_eq!(parse_u64(&bytes("42")), Some(42));
    assert_eq!(parse_u64(&bytes("+7")), Some(7));
    assert_eq!(parse_u64(&bytes("007")), Some(7));
    assert_eq!(parse_u64(&bytes("18446744073709551615")), Some(u64::MAX));
    assert_eq!(parse_u64(&bytes("18446744073709551616")), None);
    assert_eq!(parse_u64(&bytes("")), None);
    assert_eq!(parse_u64(&bytes("+")), None);
    assert_eq!(parse_u64(&bytes("12a")), None);
    assert_eq!(parse_u64(&bytes("-1")), None);
}

#[test]
fn parses_lengths_into_micrometres() {
    assert_eq!(parse_micro(&bytes("3")), Some(3_000_000));
    assert_eq!(parse_micro(&bytes("3.0")), Some(3_000_000));
    assert_eq!(parse_micro(&bytes("2.5")), Some(2_500_000));
    assert_eq!(parse_micro(&bytes(".5")), Some(500_000));
    assert_eq!(parse_micro(&bytes("4.")), Some(4_000_000));
    assert_eq!(parse_micro(&bytes("+2.25")), Some(2_250_000));
    assert_eq!(parse_micro(&bytes("1.2345678")), Some(1_234_567));
    assert_eq!(parse_micro(&bytes(".")), None);
    assert_eq!(parse_micro(&bytes("3.0.1")), None);
    assert_eq!(parse_micro(&bytes("3.x")), None);
    assert_eq!(parse_micro(&bytes("")), None);
    assert_eq!(parse_micro(&bytes("18446744073709.551615")), Some(u64::MAX));
    assert_eq!(parse_micro(&bytes("18446744073709.551616")), None);
}

#[test]
fn parses_lengths_with_exponents() {
    assert_eq!(parse_micro(&bytes("3e0")), Some(3_000_000));
    assert_eq!(parse_micro(&bytes("3E0")), Some(3_000_000));
    assert_eq!(parse_micro(&bytes("2.5e1")), Some(25_000_000));
    assert_eq!(parse_micro(&bytes("25e-1")), Some(2_500_000));
    assert_eq!(parse_micro(&bytes("+1.5e+2")), Some(150_000_000));
    assert_eq!(parse_micro(&bytes("123e-8")), Some(1));
    assert_eq!(parse_micro(&bytes("1e-7")), Some(0));
    assert_eq!(parse_micro(&bytes("1e-99999999999999999999999999999999999999999")), Some(0));
    assert_eq!(parse_micro(&bytes("0e99999999999999999999999999999999999999999")), Some(0));
    assert_eq!(parse_micro(&bytes("1e99999999999999999999999999999999999999999")), None);
    assert_eq!(parse_micro(&bytes("1e13")), Some(10_000_000_000_000_000_000u64));
    assert_eq!(parse_micro(&bytes("1e14")), None);
    assert_eq!(parse_micro(&bytes("3e")), None);
    assert_eq!(parse_micro(&bytes("e3")), None);
    assert_eq!(parse_micro(&bytes("3e1e1")), None);
    assert_eq!(parse_micro(&bytes("3e1.5")), None);
}

#[test]
fn configuration_accepts_exponent_heights() {
    let c = parse_config(&bytes("floor_count 5\nfloor_height 3e0\nfloor_requests 3")).unwrap();
    assert_eq!(c.floor_height, 3_000_000);
}

#[test]
fn parses_request_lists() {
    assert_eq!(parse_requests(&bytes("3,5,6,2")), Some(vec![3, 5, 6, 2]));
    assert_eq!(parse_requests(&bytes("9")), Some(vec![9]));
    assert_eq!(parse_requests(&bytes("3,,2")), None);
    assert_eq!(parse_requests(&bytes("")), None);
}

#[test]
fn text_helpers() {
    assert_eq!(split_on(&bytes("a,b,,c"), b','), vec![bytes("a"), bytes("b"), bytes(""), bytes("c")]);
    assert_eq!(split_on(&bytes(""), b','), vec![bytes("")]);
    assert_eq!(find(&bytes("abcabc"), &bytes("ca")), Some(2));
    assert_eq!(find(&bytes("abcabc"), &bytes("bc")), Some(1));
    assert_eq!(find(&bytes("abc"), &bytes("abcd")), None);
    assert_eq!(find(&bytes("abc"), &bytes("x")), None);
    assert_eq!(trim(&bytes(" \t x y \r\n")), bytes("x y"));
    assert_eq!(trim(&bytes("   ")), bytes(""));
    assert_eq!(field(&bytes("a floor_count 3 floor_count 4"), &bytes("floor_count")), Some(bytes("3 floor_count 4")));
    assert_eq!(field(&bytes("nothing here"), &bytes("floor_count")), None);
}

#[test]
fn trim_strips_unicode_whitespace_like_str_trim() {
    let samples = [
        "\u{3000} 5\u{00a0}",
        "\u{2003}\u{85}x y\u{2029}\u{1680}",
        "\u{202f}\u{205f}\u{200a}",
        "\u{e9}",
        " a\u{2000}b ",
    ];
    for text in samples.iter() {
        assert_eq!(trim(&bytes(text)), bytes(text.trim()));
    }
}

#[test]
fn configuration_trims_unicode_whitespace() {
    let c = parse_config(&bytes("floor_count\u{3000}7\u{a0}\nfloor_height 2\nfloor_requests 1")).unwrap();
    assert_eq!(c.floor_count, 7);
}
