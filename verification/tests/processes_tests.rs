use h4_engine::processes::ProcessScanner;
use h4_engine::shared::{default_category, ValueType};

fn raw(name: &str) -> Vec<u8> {
    let mut v = name.as_bytes().to_vec();
    v.push(0);
    v.extend_from_slice(b"garbage after the terminator");
    v
}

#[test]
fn exe_name_stops_at_the_first_zero() {
    let name = ProcessScanner::exe_name(&raw("notepad.exe"));
    assert_eq!(name.iter().collect::<String>(), "notepad.exe");
    assert!(ProcessScanner::exe_name(&[0u8, 65, 66]).is_empty());
    let unterminated = ProcessScanner::exe_name(b"abc");
    assert_eq!(unterminated.iter().collect::<String>(), "abc");
}

#[test]
fn special_process_names() {
    let exe: Vec<char> = "whatever.exe".chars().collect();
    assert_eq!(ProcessScanner::display_name(0, &exe), "[System Idle Process]");
    assert_eq!(ProcessScanner::display_name(4, &exe), "System");
    assert_eq!(ProcessScanner::display_name(1234, &Vec::new()), "Unknown (PID 1234)");
    assert_eq!(ProcessScanner::display_name(1234, &exe), "whatever.exe");
}

#[test]
fn categories_follow_the_name_rules() {
    let cat = |pid: u32, name: &str| {
        let lower: Vec<char> = name.chars().collect();
        ProcessScanner::categorize(pid, &lower)
    };
    assert_eq!(cat(50, "anything.exe"), "System");
    assert_eq!(cat(500, "registry"), "System");
    assert_eq!(cat(500, "svchost.exe"), "Windows");
    assert_eq!(cat(500, "windowsterminal.exe"), "Windows");
    assert_eq!(cat(500, "steam.exe"), "Games");
    assert_eq!(cat(500, "forza_game.exe"), "Games");
    assert_eq!(cat(500, "nvidia share.exe"), "Necessary");
    assert_eq!(cat(500, "amdrsserv.exe"), "Necessary");
    assert_eq!(cat(500, "notepad.exe"), "Third Party");
}

#[test]
fn status_follows_the_thread_count() {
    assert_eq!(ProcessScanner::status(21), "Active");
    assert_eq!(ProcessScanner::status(20), "Sleeping");
    assert_eq!(ProcessScanner::status(1), "Sleeping");
    assert_eq!(ProcessScanner::status(0), "Inactive");
}

#[test]
fn describe_builds_the_whole_entry() {
    let e = ProcessScanner::describe(7000, &raw("SteamWebHelper.exe"), 30);
    assert_eq!(e.pid, 7000);
    assert_eq!(e.name, "SteamWebHelper.exe");
    assert_eq!(e.category, "Games");
    assert_eq!(e.status, "Active");
    assert!(!e.is_system);

    let w = ProcessScanner::describe(812, &raw("CSRSS.EXE"), 12);
    assert_eq!(w.category, "Windows");
    assert!(w.is_system);
    assert_eq!(w.status, "Sleeping");

    let idle = ProcessScanner::describe(0, &raw(""), 0);
    assert_eq!(idle.name, "[System Idle Process]");
    assert_eq!(idle.category, "System");
    assert!(idle.is_system);
    assert_eq!(idle.status, "Inactive");

    let unnamed = ProcessScanner::describe(4242, &raw(""), 3);
    assert_eq!(unnamed.name, "Unknown (PID 4242)");
    assert_eq!(unnamed.category, "Third Party");
}

#[test]
fn shared_defaults() {
    assert_eq!(default_category(), "Third Party");
    assert_eq!(ValueType::Byte.size(), 1);
    assert_eq!(ValueType::Int16.size(), 2);
    assert_eq!(ValueType::Int32.size(), 4);
    assert_eq!(ValueType::Int64.size(), 8);
    assert_eq!(ValueType::Float32.size(), 4);
    assert_eq!(ValueType::Float64.size(), 8);
    assert_eq!(ValueType::String.size(), 1);
    assert_eq!(ValueType::AOB.size(), 1);
}
