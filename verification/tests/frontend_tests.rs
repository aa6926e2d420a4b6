use h4_engine::frontend::{
    category_of, custom_signature, forwards_log_target, integer_search_bytes, process_visible,
    profile_name, result_visible, search_results, search_value_type, workspace_match,
    FlavorTextManager, SEARCH_RESULT_LIMIT,
};
use h4_engine::shared::{ProcessEntry, ScanResult, ValueType};

fn texts(v: &[&str]) -> Vec<String> {
    v.iter().map(|s| s.to_string()).collect()
}

#[test]
fn flavor_texts_default_when_empty() {
    let mut m = FlavorTextManager::new(Vec::new());
    for _ in 0..5 {
        assert_eq!(m.get_next(), "Reticulating Splines...");
    }
}

#[test]
fn flavor_texts_cycle_through_every_text_once() {
    let all = texts(&["a", "b", "c", "d", "e"]);
    let mut m = FlavorTextManager::new(all.clone());
    let mut last_first: Option<String> = None;
    for _ in 0..20 {
        let mut cycle: Vec<String> = (0..all.len()).map(|_| m.get_next()).collect();
        if let Some(prev) = &last_first {
            assert_ne!(&cycle[0], prev, "a new cycle repeated the last cycle's first text");
        }
        last_first = Some(cycle[0].clone());
        cycle.sort();
        assert_eq!(cycle, all);
    }
}

#[test]
fn flavor_texts_single_text_repeats() {
    let mut m = FlavorTextManager::new(texts(&["only"]));
    assert_eq!(m.get_next(), "only");
    assert_eq!(m.get_next(), "only");
}

#[test]
fn profile_names_come_from_h4ck_files() {
    assert_eq!(profile_name("forza.h4ck"), Some("forza".to_string()));
    assert_eq!(profile_name(".h4ck"), Some(String::new()));
    assert_eq!(profile_name("notes.txt"), None);
    assert_eq!(profile_name("a.h4ck.h4ck"), Some("a".to_string()));
}

fn proc_entry(pid: u32, name: &str, category: &str) -> ProcessEntry {
    ProcessEntry {
        pid,
        name: name.to_string(),
        status: "Active".to_string(),
        is_system: false,
        category: category.to_string(),
    }
}

#[test]
fn process_filter_and_search() {
    let p = proc_entry(4321, "ForzaHorizon5.exe", "Games");
    assert!(process_visible(&p, "All", ""));
    assert!(process_visible(&p, "Games", ""));
    assert!(!process_visible(&p, "Windows", ""));
    assert!(process_visible(&p, "All", "FORZA"));
    assert!(process_visible(&p, "All", "horizon"));
    assert!(process_visible(&p, "All", "432"));
    assert!(!process_visible(&p, "All", "steam"));
    assert!(!process_visible(&p, "Windows", "forza"));
}

fn result(address: usize, label: Option<&str>, category: &str) -> ScanResult {
    ScanResult {
        address,
        value_type: ValueType::Int32,
        label: label.map(|s| s.to_string()),
        category: category.to_string(),
    }
}

#[test]
fn result_filter() {
    let r = result(0x1000, None, "Games");
    assert!(result_visible(&r, "All"));
    assert!(result_visible(&r, "Games"));
    assert!(!result_visible(&r, "System"));
}

#[test]
fn workspace_search_by_label_or_address() {
    let r = result(0x7FF6ABCD, Some("Player Money"), "Games");
    assert!(workspace_match(&r, "money"));
    assert!(workspace_match(&r, "PLAYER"));
    assert!(workspace_match(&r, "0x7ff6"));
    assert!(workspace_match(&r, "abcd"));
    assert!(!workspace_match(&r, "health"));
    let unlabelled = result(0x10, None, "Games");
    assert!(workspace_match(&unlabelled, "0x10"));
    assert!(!workspace_match(&unlabelled, "money"));
}

#[test]
fn custom_signatures_from_the_editor() {
    let s = custom_signature("Money", " Cash , Credits ", "48 8B 05 | 89 ?? 10", "3");
    assert_eq!(s.name, "Money");
    assert_eq!(s.aliases, texts(&["Cash", "Credits"]));
    assert_eq!(s.aob_patterns, texts(&["48 8B 05", "89 ?? 10"]));
    assert_eq!(s.offset, 0);
    assert_eq!(s.ptr_offset, Some(3));
    assert_eq!(s.value_type, ValueType::Int32);
    assert_eq!(s.category, "Custom");

    let t = custom_signature("X", "", "", "not a number");
    assert_eq!(t.aliases, texts(&[""]));
    assert_eq!(t.ptr_offset, None);
    assert_eq!(custom_signature("X", "", "", "-12").ptr_offset, Some(-12));
}

#[test]
fn search_sizes_map_to_value_types() {
    assert_eq!(search_value_type("1 Byte"), ValueType::Byte);
    assert_eq!(search_value_type("2 Bytes"), ValueType::Int16);
    assert_eq!(search_value_type("4 Bytes"), ValueType::Int32);
    assert_eq!(search_value_type("8 Bytes"), ValueType::Int64);
    assert_eq!(search_value_type("Float"), ValueType::Float32);
    assert_eq!(search_value_type("Double"), ValueType::Float64);
    assert_eq!(search_value_type("Custom AOB"), ValueType::AOB);
    assert_eq!(search_value_type("something else"), ValueType::Int32);
}

#[test]
fn integer_search_bytes_match_native_encoding() {
    assert_eq!(integer_search_bytes("1 Byte", "200"), Some(200u8.to_le_bytes().to_vec()));
    assert_eq!(integer_search_bytes("1 Byte", "256"), None);
    assert_eq!(integer_search_bytes("1 Byte", "-1"), None);
    assert_eq!(integer_search_bytes("2 Bytes", "-2"), Some((-2i16).to_le_bytes().to_vec()));
    assert_eq!(integer_search_bytes("2 Bytes", "40000"), None);
    assert_eq!(integer_search_bytes("4 Bytes", "123456"), Some(123456i32.to_le_bytes().to_vec()));
    assert_eq!(integer_search_bytes("4 Bytes", "-2147483648"), Some(i32::MIN.to_le_bytes().to_vec()));
    assert_eq!(integer_search_bytes("8 Bytes", "-9000000000"), Some((-9000000000i64).to_le_bytes().to_vec()));
    assert_eq!(integer_search_bytes("whatever", "7"), Some(7i32.to_le_bytes().to_vec()));
    assert_eq!(integer_search_bytes("4 Bytes", "12abc"), None);
    assert_eq!(integer_search_bytes("Float", "1"), None);
    assert_eq!(integer_search_bytes("Double", "1"), None);
    assert_eq!(integer_search_bytes("Custom AOB", "1"), None);
}

#[test]
fn search_results_are_capped_and_labelled() {
    let found: Vec<usize> = (0..250).map(|i| 0x1000 + i * 4).collect();
    let r = search_results(&found, ValueType::Int16, "Games");
    assert_eq!(r.len(), SEARCH_RESULT_LIMIT);
    assert_eq!(SEARCH_RESULT_LIMIT, 200);
    for (i, x) in r.iter().enumerate() {
        assert_eq!(x.address, found[i]);
        assert_eq!(x.value_type, ValueType::Int16);
        assert_eq!(x.label.as_deref(), Some("Search"));
        assert_eq!(x.category, "Games");
    }
    let few = search_results(&vec![5, 9], ValueType::Byte, "System");
    assert_eq!(few.len(), 2);
    assert_eq!(few[1].address, 9);
}

#[test]
fn category_of_the_attached_process() {
    let procs = vec![proc_entry(10, "a", "System"), proc_entry(20, "b", "Games"), proc_entry(20, "c", "Windows")];
    assert_eq!(category_of(&procs, 20), "Games");
    assert_eq!(category_of(&procs, 10), "System");
    assert_eq!(category_of(&procs, 99), "Third Party");
    assert_eq!(category_of(&procs, -1), "Third Party");
}

#[test]
fn toolkit_log_records_are_not_forwarded() {
    assert!(forwards_log_target("h4_engine::discovery"));
    assert!(!forwards_log_target("slint::platform"));
    assert!(!forwards_log_target("winit::window"));
    assert!(forwards_log_target("sl"));
}
