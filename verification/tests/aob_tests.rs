use h4_engine::aob::{AOBScanner, PatternByte};

#[test]
fn parses_documented_pattern() {
    let sc = AOBScanner::new("48 8B 05 ?? ?? ?? ??").unwrap();
    assert_eq!(sc.len(), 7);
    let buf = [0x00, 0x48, 0x8B, 0x05, 1, 2, 3, 4, 0x48];
    assert_eq!(sc.find_in_buffer(&buf), Some(1));
}

#[test]
fn empty_pattern_is_refused() {
    assert_eq!(AOBScanner::new("").err().unwrap(), "Pattern cannot be empty");
    assert_eq!(AOBScanner::new("   \t ").err().unwrap(), "Pattern cannot be empty");
}

#[test]
fn invalid_token_reports_std_message() {
    let e = u8::from_str_radix("ZZ", 16).unwrap_err();
    let expected = format!("Invalid byte in pattern: {}. Error: {}", "ZZ", e);
    assert_eq!(AOBScanner::new("48 ZZ 05").err().unwrap(), expected);
    assert_eq!(
        AOBScanner::new("48 ZZ 05").err().unwrap(),
        "Invalid byte in pattern: ZZ. Error: invalid digit found in string"
    );
}

#[test]
fn overflowing_token_reports_std_message() {
    let e = u8::from_str_radix("100", 16).unwrap_err();
    let expected = format!("Invalid byte in pattern: 100. Error: {}", e);
    assert_eq!(AOBScanner::new("100").err().unwrap(), expected);
    assert_eq!(
        AOBScanner::new("1FF").err().unwrap(),
        "Invalid byte in pattern: 1FF. Error: number too large to fit in target type"
    );
}

#[test]
fn first_bad_token_wins() {
    assert_eq!(
        AOBScanner::new("GG 100").err().unwrap(),
        "Invalid byte in pattern: GG. Error: invalid digit found in string"
    );
}

#[test]
fn tokens_agree_with_from_str_radix() {
    for tok in ["0", "00", "ff", "FF", "+1", "+", "-", "-1", "0x1", "001", "0100", "7f", "é", "1_0"] {
        let std = u8::from_str_radix(tok, 16);
        let ours = AOBScanner::new(tok);
        match std {
            Ok(b) => {
                let sc = ours.expect(tok);
                assert_eq!(sc.find_in_buffer(&[b]), Some(0), "{}", tok);
                assert_eq!(sc.len(), 1);
            }
            Err(e) => {
                assert_eq!(ours.err().unwrap(), format!("Invalid byte in pattern: {}. Error: {}", tok, e));
            }
        }
    }
}

#[test]
fn single_question_mark_is_wildcard() {
    let sc = AOBScanner::new("? 02").unwrap();
    assert_eq!(sc.find_in_buffer(&[9, 9, 2]), Some(1));
}

#[test]
fn leading_wildcard_matches_any_first_byte() {
    let sc = AOBScanner::new("?? AA").unwrap();
    assert_eq!(sc.find_in_buffer(&[0xAA, 0xAA]), Some(0));
    assert_eq!(sc.find_in_buffer(&[0x01, 0xBB, 0xAA]), Some(1));
}

#[test]
fn buffer_shorter_than_pattern() {
    let sc = AOBScanner::new("01 02 03").unwrap();
    assert_eq!(sc.find_in_buffer(&[1, 2]), None);
    assert_eq!(sc.find_in_buffer(&[]), None);
}

#[test]
fn no_match_gives_none() {
    let sc = AOBScanner::new("01 02").unwrap();
    assert_eq!(sc.find_in_buffer(&[1, 3, 1, 3, 2]), None);
}

#[test]
fn match_at_the_very_end() {
    let sc = AOBScanner::new("01 02").unwrap();
    assert_eq!(sc.find_in_buffer(&[0, 0, 0, 1, 2]), Some(3));
}

#[test]
fn find_from_skips_earlier_matches() {
    let sc = AOBScanner::new("01").unwrap();
    let buf = [1, 0, 1, 0, 1];
    assert_eq!(sc.find_from(&buf, 0), Some(0));
    assert_eq!(sc.find_from(&buf, 1), Some(2));
    assert_eq!(sc.find_from(&buf, 5), None);
    assert_eq!(sc.find_from(&buf, 100), None);
}

#[test]
fn collect_matches_reports_every_overlapping_match() {
    let sc = AOBScanner::new("AA AA").unwrap();
    let buf = [0xAA, 0xAA, 0xAA, 0x00, 0xAA, 0xAA];
    let mut results = Vec::new();
    let capped = sc.collect_matches(&buf, 0x1000, &mut results, 1000);
    assert!(!capped);
    assert_eq!(results, vec![0x1000, 0x1001, 0x1004]);
}

#[test]
fn collect_matches_stops_at_the_cap() {
    let sc = AOBScanner::new("00").unwrap();
    let buf = [0u8; 10];
    let mut results = vec![1, 2, 3];
    let capped = sc.collect_matches(&buf, 100, &mut results, 5);
    assert!(capped);
    assert_eq!(results, vec![1, 2, 3, 100, 101]);
}

#[test]
fn collect_matches_keeps_existing_results() {
    let sc = AOBScanner::new("05").unwrap();
    let mut results = vec![7];
    assert!(!sc.collect_matches(&[1, 2, 3], 0, &mut results, 10));
    assert_eq!(results, vec![7]);
    assert!(!sc.collect_matches(&[], 0, &mut results, 10));
    assert_eq!(results, vec![7]);
}

#[test]
fn from_bytes_matches_literal_run() {
    let sc = AOBScanner::from_bytes(&[3, 4]);
    assert_eq!(sc.find_in_buffer(&[1, 2, 3, 4]), Some(2));
    let _ = PatternByte::Wildcard;
    assert_eq!(PatternByte::Byte(3), PatternByte::Byte(3));
}
