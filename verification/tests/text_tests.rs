use rt::text::{chars_of, is_float_text, parse_usize, push_decimal, same_text, split_words, string_of};

fn cs(s: &str) -> Vec<char> {
    s.chars().collect()
}

#[test]
fn chars_round_trip() {
    let v = chars_of("héllo wörld");
    assert_eq!(v, cs("héllo wörld"));
    assert_eq!(string_of(&v), "héllo wörld");
}

#[test]
fn words_split_on_unicode_white_space() {
    let line = " \tsphere\u{00A0}1  2\u{3000}3\r\n";
    let w: Vec<String> = split_words(&cs(line)).iter().map(|t| t.iter().collect()).collect();
    let expected: Vec<String> = line.split_whitespace().map(|s| s.to_string()).collect();
    assert_eq!(w, expected);
    assert_eq!(w, vec!["sphere", "1", "2", "3"]);
}

#[test]
fn words_of_blank_text() {
    assert!(split_words(&cs("")).is_empty());
    assert!(split_words(&cs(" \t \u{2028} ")).is_empty());
}

#[test]
fn usize_parsing_matches_std() {
    let samples = [
        "0", "7", "+7", "42", "007", "", "+", "-", "-1", "+-1", "1a", " 1", "1 ", "12345678901234567890",
        "18446744073709551615", "18446744073709551616", "4294967295", "4294967296", "١٢",
    ];
    for s in samples.iter() {
        assert_eq!(parse_usize(&cs(s)), s.parse::<usize>().ok(), "text {:?}", s);
    }
}

#[test]
fn usize_parsing_exact_values() {
    assert_eq!(parse_usize(&cs("800")), Some(800));
    assert_eq!(parse_usize(&cs("+600")), Some(600));
    assert_eq!(parse_usize(&cs("-3")), None);
    assert_eq!(parse_usize(&cs("")), None);
}

#[test]
fn decimal_formatting() {
    for n in [0usize, 5, 9, 10, 99, 100, 255, 1230, 800, usize::MAX] {
        let mut s = String::from("x");
        push_decimal(&mut s, n);
        assert_eq!(s, format!("x{}", n));
    }
}

#[test]
fn decimal_round_trip_on_values() {
    for n in [0usize, 1, 10, 4096, 65535, usize::MAX] {
        let mut s = String::new();
        push_decimal(&mut s, n);
        assert_eq!(parse_usize(&cs(&s)), Some(n));
    }
}

#[test]
fn float_texts_match_std() {
    let samples = [
        "0", "1", "-1", "+1", "1.", ".5", "-.5", "+.5", "1.5", "1e5", "1E5", "1e+5", "1e-5", "1.5e3",
        ".5e-3", "5.e2", "inf", "INF", "-inf", "+Inf", "infinity", "Infinity", "-INFINITY", "nan",
        "NaN", "-nan", "+NAN", ".", "", "+", "-", "e5", ".e5", "1e", "1e+", "1.2.3", "1..2", "--1",
        "+-1", "1f", "0x10", " 1", "1 ", "infinit", "infinityy", "na", "1_000", "1e5.5", "1e5e5",
        "١", "0.000001", "123456789012345678901234567890", "-0", "00.00e00", "ınf",
    ];
    for s in samples.iter() {
        assert_eq!(is_float_text(&cs(s)), s.parse::<f64>().is_ok(), "text {:?}", s);
    }
}

#[test]
fn float_texts_exact() {
    assert!(is_float_text(&cs("-2.5e-3")));
    assert!(is_float_text(&cs("NaN")));
    assert!(!is_float_text(&cs(".")));
    assert!(!is_float_text(&cs("1.2.3")));
}

#[test]
fn text_equality() {
    assert!(same_text("--scene", "--scene"));
    assert!(!same_text("--scene", "--scenes"));
    assert!(!same_text("", "a"));
    assert!(same_text("", ""));
}
