use hlanalysis::text::{
    decimal_text, has_char, is_float_text, is_whitespace, parse_i32, parse_usize, same_text,
    split_fields, str_contains, str_starts_with, trimmed, IntErrorKind,
};

fn std_kind(e: &std::num::ParseIntError) -> IntErrorKind {
    match e.kind() {
        std::num::IntErrorKind::Empty => IntErrorKind::Empty,
        std::num::IntErrorKind::InvalidDigit => IntErrorKind::InvalidDigit,
        std::num::IntErrorKind::PosOverflow => IntErrorKind::PosOverflow,
        std::num::IntErrorKind::NegOverflow => IntErrorKind::NegOverflow,
        _ => panic!("unexpected kind"),
    }
}

const SAMPLES: [&str; 28] = [
    "", "0", "7", "+7", "-7", "+", "-", "007", "12a", " 12", "12 ", "4294967295",
    "4294967296", "18446744073709551615", "18446744073709551616", "2147483647",
    "2147483648", "-2147483648", "-2147483649", "+-1", "1_000", "٣", "99999999999999999999999",
    "-0", "+0", "00000000000000000000001", "1e3", "0x10",
];

#[test]
fn parse_usize_agrees_with_std() {
    for s in SAMPLES.iter() {
        let ours = parse_usize(s);
        match s.parse::<usize>() {
            Ok(n) => assert!(matches!(ours, Ok(m) if m == n), "{}", s),
            Err(e) => assert!(matches!(ours, Err(k) if k == std_kind(&e)), "{}", s),
        }
    }
}

#[test]
fn parse_i32_agrees_with_std() {
    for s in SAMPLES.iter() {
        let ours = parse_i32(s);
        match s.parse::<i32>() {
            Ok(n) => assert!(matches!(ours, Ok(m) if m == n), "{}", s),
            Err(e) => assert!(matches!(ours, Err(k) if k == std_kind(&e)), "{}", s),
        }
    }
}

#[test]
fn parse_usize_error_kinds() {
    assert!(matches!(parse_usize(""), Err(IntErrorKind::Empty)));
    assert!(matches!(parse_usize("+"), Err(IntErrorKind::InvalidDigit)));
    assert!(matches!(parse_usize("-1"), Err(IntErrorKind::InvalidDigit)));
    assert!(matches!(parse_usize("18446744073709551616"), Err(IntErrorKind::PosOverflow)));
    assert!(matches!(parse_i32("-2147483649"), Err(IntErrorKind::NegOverflow)));
    assert!(matches!(parse_usize("+42"), Ok(42)));
}

#[test]
fn float_text_agrees_with_std() {
    let samples = [
        "1.0", "-1.5", "+2", ".5", "5.", ".", "", "e5", "1e5", "1E-5", "1e+5", "1e", "1e+",
        "inf", "-inf", "+Infinity", "INFINITY", "nan", "NaN", "-nan", "infin", "1.2.3",
        "0x1p3", " 1.0", "1.0 ", "1_0", "--1", "+.e1", "3.14159265358979", "-0.0", "1e400",
    ];
    for s in samples.iter() {
        assert_eq!(is_float_text(s), s.parse::<f64>().is_ok(), "{}", s);
    }
}

#[test]
fn fields_and_trim_agree_with_std() {
    let lines = ["  O  1.0   2.0 3.0  ", "", "   ", "a\tb\u{00a0}c", "x"];
    for l in lines.iter() {
        let ours = split_fields(l);
        let theirs: Vec<String> = l.split_whitespace().map(|s| s.to_string()).collect();
        assert_eq!(ours, theirs);
        assert_eq!(trimmed(l), l.trim());
    }
    assert!(is_whitespace('\u{3000}'));
    assert!(!is_whitespace('a'));
}

#[test]
fn substring_searches() {
    assert!(str_contains("W-1a-L-S1", "1a"));
    assert!(!str_contains("W-1a-L-S1", "U"));
    assert!(str_contains("abc", ""));
    assert!(str_starts_with("ITEM: ATOMS id", "ITEM: ATOMS"));
    assert!(!str_starts_with("ITEM", "ITEM: ATOMS"));
    assert!(has_char("S-U-D", 'S'));
    assert!(!has_char("S-U-D", 'W'));
    assert!(same_text("O", "O"));
    assert!(!same_text("O", "Os"));
}

#[test]
fn decimal_text_matches_format() {
    for n in [0usize, 7, 10, 99, 100, 12345, usize::MAX].iter() {
        assert_eq!(decimal_text(*n), format!("{}", n));
    }
}
