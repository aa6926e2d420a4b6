use h4_engine::frontend::process_visible;
use h4_engine::shared::ProcessEntry;
use h4_engine::text::{
    chars_of, contains_str, ends_with_str, is_white_space_char, push_chars, push_str, remove_all_exec,
    split_on_char, split_whitespace, starts_with_str, string_from_chars, trim,
};

fn v(s: &str) -> Vec<char> {
    s.chars().collect()
}

fn words(s: &str) -> Vec<String> {
    split_whitespace(&v(s)).into_iter().map(|w| w.into_iter().collect()).collect()
}

#[test]
fn whitespace_set_is_unicode_white_space() {
    for code in 0u32..0x3100 {
        if let Some(c) = char::from_u32(code) {
            assert_eq!(is_white_space_char(c), c.is_whitespace(), "U+{:04X}", code);
        }
    }
}

#[test]
fn split_whitespace_agrees_with_std() {
    for s in ["", "  ", "a", " a  b ", "48 8B\t05\n??", "\u{3000}x\u{85}y\u{2028}", "a\u{A0}b"] {
        let ours = words(s);
        let std: Vec<String> = s.split_whitespace().map(|w| w.to_string()).collect();
        assert_eq!(ours, std, "{:?}", s);
    }
}

#[test]
fn split_on_char_agrees_with_std() {
    for s in ["", ",", "a", "a,b", ",a,,b,", "HP, Health ,Life"] {
        let ours: Vec<String> = split_on_char(&v(s), ',').into_iter().map(|w| w.into_iter().collect()).collect();
        let std: Vec<String> = s.split(',').map(|w| w.to_string()).collect();
        assert_eq!(ours, std, "{:?}", s);
    }
}

#[test]
fn trim_agrees_with_std() {
    for s in ["", "  ", " a ", "\u{3000}a b\u{85}", "ab"] {
        let ours: String = trim(&v(s)).into_iter().collect();
        assert_eq!(ours, s.trim(), "{:?}", s);
    }
}

#[test]
fn remove_all_agrees_with_replace() {
    for s in ["x.h4ck", "x.h4ck.h4ck", ".h4ck", "a.h4c", "a.h4.h4ckck", ""] {
        let ours: String = remove_all_exec(&v(s), &v(".h4ck")).into_iter().collect();
        assert_eq!(ours, s.replace(".h4ck", ""), "{:?}", s);
    }
}

#[test]
fn substring_tests_agree_with_std() {
    for (hay, needle) in [("steam.exe", "steam"), ("abc", ""), ("", "a"), ("windows", "dows"), ("ab", "abc")] {
        assert_eq!(contains_str(&v(hay), needle), hay.contains(needle));
        assert_eq!(starts_with_str(&v(hay), needle), hay.starts_with(needle));
        assert_eq!(ends_with_str(&v(hay), needle), hay.ends_with(needle));
    }
}

#[test]
fn searches_compare_in_unicode_lowercase() {
    let p = ProcessEntry {
        pid: 77,
        name: "ÄÖ Game.exe".to_string(),
        status: "Active".to_string(),
        is_system: false,
        category: "Games".to_string(),
    };
    assert!(process_visible(&p, "All", "äö game"));
    assert!(process_visible(&p, "All", "ÄÖ GAME"));
    assert!(!process_visible(&p, "All", "ae"));
}

#[test]
fn strings_and_chars_convert() {
    let cs = chars_of("héllo");
    assert_eq!(cs, vec!['h', 'é', 'l', 'l', 'o']);
    assert_eq!(string_from_chars(&cs), "héllo");
    let mut s = String::from("a");
    push_chars(&mut s, &vec!['ß', 'x']);
    assert_eq!(s, "aßx");
    push_str(&mut s, "yz");
    assert_eq!(s, "aßxyz");
}
