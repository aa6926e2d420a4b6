use h4_engine::numbers::{format_dec, format_hex, parse_int, IntErrorKind};

fn chars(s: &str) -> Vec<char> {
    s.chars().collect()
}

fn kind_of(e: &std::num::ParseIntError) -> IntErrorKind {
    match e.kind() {
        std::num::IntErrorKind::Empty => IntErrorKind::Empty,
        std::num::IntErrorKind::InvalidDigit => IntErrorKind::InvalidDigit,
        std::num::IntErrorKind::PosOverflow => IntErrorKind::PosOverflow,
        std::num::IntErrorKind::NegOverflow => IntErrorKind::NegOverflow,
        _ => panic!("unexpected kind"),
    }
}

const SAMPLES: [&str; 24] = [
    "", "0", "+", "-", "+0", "-0", "127", "128", "-128", "-129", "255", "256", "ff", "FF", "1f",
    "2147483647", "2147483648", "-2147483648", "-2147483649", "12a", " 1", "1 ", "--1", "+-1",
];

#[test]
fn decimal_i32_agrees_with_std() {
    for s in SAMPLES {
        let ours = parse_int(&chars(s), 10, i32::MIN as i128, i32::MAX as i128, true);
        match s.parse::<i32>() {
            Ok(v) => assert_eq!(ours, Ok(v as i128), "{:?}", s),
            Err(e) => assert_eq!(ours, Err(kind_of(&e)), "{:?}", s),
        }
    }
}

#[test]
fn decimal_u8_agrees_with_std() {
    for s in SAMPLES {
        let ours = parse_int(&chars(s), 10, 0, 255, false);
        match s.parse::<u8>() {
            Ok(v) => assert_eq!(ours, Ok(v as i128), "{:?}", s),
            Err(e) => assert_eq!(ours, Err(kind_of(&e)), "{:?}", s),
        }
    }
}

#[test]
fn hex_usize_agrees_with_std() {
    for s in ["7FFFFFFFFFFF", "ffffffffffffffff", "10000000000000000", "0", "deadBEEF", "g", ""] {
        let ours = parse_int(&chars(s), 16, 0, usize::MAX as i128, false);
        match usize::from_str_radix(s, 16) {
            Ok(v) => assert_eq!(ours, Ok(v as i128), "{:?}", s),
            Err(e) => assert_eq!(ours, Err(kind_of(&e)), "{:?}", s),
        }
    }
}

#[test]
fn error_messages_are_std_messages() {
    for (s, kind) in [("", IntErrorKind::Empty), ("x", IntErrorKind::InvalidDigit), ("300", IntErrorKind::PosOverflow)] {
        let e = s.parse::<u8>().unwrap_err();
        assert_eq!(kind.message(), e.to_string());
    }
    let e = "-200".parse::<i8>().unwrap_err();
    assert_eq!(IntErrorKind::NegOverflow.message(), e.to_string());
}

#[test]
fn hex_formatting_matches_format_macro() {
    for n in [0u64, 9, 10, 15, 16, 255, 0x10000, 0x7FFF_FFFF_FFFF, u64::MAX] {
        let s: String = format_hex(n).into_iter().collect();
        assert_eq!(s, format!("{:X}", n));
    }
}

#[test]
fn decimal_formatting_matches_to_string() {
    for n in [0u64, 7, 10, 99, 100, 4294967295, u64::MAX] {
        let s: String = format_dec(n).into_iter().collect();
        assert_eq!(s, n.to_string());
    }
}

#[test]
fn hex_roundtrip_on_values() {
    for n in [0u64, 1, 0xABC, 0x7FFF_FFFF_FFFF, u64::MAX] {
        let digits = format_hex(n);
        assert_eq!(parse_int(&digits, 16, 0, u64::MAX as i128, false), Ok(n as i128));
    }
}
