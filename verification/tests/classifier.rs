use sul::{LispType, TokenType};

fn integer(text: &str) -> Option<isize> {
    match TokenType::from(text) {
        TokenType::Recognizable(LispType::Integer(i)) => Some(i),
        _ => None,
    }
}

fn floating(text: &str) -> Option<String> {
    match TokenType::from(text) {
        TokenType::Recognizable(LispType::Floating(t)) => Some(t),
        _ => None,
    }
}

fn string(text: &str) -> Option<String> {
    match TokenType::from(text) {
        TokenType::Recognizable(LispType::Str(t)) => Some(t),
        _ => None,
    }
}

fn identifier(text: &str) -> Option<String> {
    match TokenType::from(text) {
        TokenType::Ident(t) => Some(t),
        _ => None,
    }
}

#[test]
fn integers() {
    assert_eq!(integer("0"), Some(0));
    assert_eq!(integer("34"), Some(34));
    assert_eq!(integer("-34"), Some(-34));
    assert_eq!(integer("+34"), Some(34));
    assert_eq!(integer("007"), Some(7));
    assert_eq!(integer("-0"), Some(0));
    assert_eq!(integer(&isize::MAX.to_string()), Some(isize::MAX));
    assert_eq!(integer(&isize::MIN.to_string()), Some(isize::MIN));
}

#[test]
fn integers_agree_with_the_standard_parser() {
    let samples = [
        "", "+", "-", "1", "-1", "+1", "--1", "1-", "12a", " 1", "1 ", "1_000", "٣", "0x10",
        "9223372036854775807", "9223372036854775808", "-9223372036854775808",
        "-9223372036854775809", "2147483647", "2147483648", "-2147483648", "-2147483649",
        "99999999999999999999999999999999999999999999", "000000000000000000000000000000001",
        "1.0", "1e3", "nil", "\"1\"",
    ];
    for s in samples {
        assert_eq!(integer(s), s.parse::<isize>().ok(), "{:?}", s);
    }
}

#[test]
fn floats_keep_their_text() {
    assert_eq!(floating("1.5"), Some("1.5".to_string()));
    assert_eq!(floating("-2.50"), Some("-2.50".to_string()));
    assert_eq!(floating("1e3"), Some("1e3".to_string()));
    assert_eq!(floating("inf"), Some("inf".to_string()));
    assert_eq!(floating("NaN"), Some("NaN".to_string()));
}

#[test]
fn an_integer_too_large_is_a_float() {
    let text = "99999999999999999999999999999999999999999999";
    assert_eq!(integer(text), None);
    assert_eq!(floating(text), Some(text.to_string()));
}

#[test]
fn floats_agree_with_the_standard_parser() {
    let samples = [
        "", "+", "-", ".", "+.", "-.", "e", "e5", ".e5", "1", "1.", ".1", "1.1", "+1.1", "-1.1",
        "1..1", "1.1.1", "1e", "1e+", "1e-", "1e5", "1E5", "1e+5", "1e-5", "1e5.", "1e5.5",
        "1.e5", ".5e5", "1ee5", "1e5e5", "++1.0", "+-1.0", "1.0+", " 1.0", "1.0 ", "1_0.0",
        "inf", "INF", "Inf", "iNf", "+inf", "-inf", "infinity", "INFINITY", "Infinity",
        "-Infinity", "+infinity", "infinit", "infinityy", "in", "nan", "NaN", "NAN", "-nan",
        "+NaN", "nana", "na", "inf ", "1.0f", "0x1p3", "1,5", "١.٥", "1e١", "abc", "nil",
        "\"1.0\"", "123456789012345678901234567890", "0.000000000000000000000000000001",
        "1e400", "1e-400", "-", "+e", "-e1", "+.5", "-5.", "iNfInItY", "i\u{130}nf", "ınf",
        "\u{212A}", "naN", "nAn", "+", ".+1", "1.-1", "1e5+", "1e+5+", "5e", "5E", "5E+", "5.e",
        "5.E1",
    ];
    for s in samples {
        let expected = s.parse::<isize>().is_err() && s.parse::<f64>().is_ok();
        assert_eq!(floating(s).is_some(), expected, "{:?}", s);
    }
}

#[test]
fn strings_lose_their_quotes() {
    assert_eq!(string("\"abc\""), Some("abc".to_string()));
    assert_eq!(string("\"\""), Some(String::new()));
    assert_eq!(string("\"a\"b\""), Some("a\"b".to_string()));
    assert_eq!(string("\"12\""), Some("12".to_string()));
}

#[test]
fn a_lone_quote_is_an_identifier() {
    assert_eq!(identifier("\""), Some("\"".to_string()));
}

#[test]
fn nil_is_a_literal() {
    assert!(matches!(TokenType::from("nil"), TokenType::Recognizable(LispType::Nil)));
    assert_eq!(identifier("Nil"), Some("Nil".to_string()));
    assert_eq!(identifier("nill"), Some("nill".to_string()));
}

#[test]
fn other_text_is_an_identifier() {
    assert_eq!(identifier("+"), Some("+".to_string()));
    assert_eq!(identifier("-"), Some("-".to_string()));
    assert_eq!(identifier("print"), Some("print".to_string()));
    assert_eq!(identifier("\"abc"), Some("\"abc".to_string()));
    assert_eq!(identifier("abc\""), Some("abc\"".to_string()));
    assert_eq!(identifier(""), Some(String::new()));
    assert_eq!(identifier("12a"), Some("12a".to_string()));
}
