use h4_engine::console::{
    copy_all_text, copy_errors_text, error_lines, markdown_report, push_line, targeted_scan_message, LogLine,
    CONSOLE_ROWS,
};

fn line(ts: &str, content: &str, level: &str) -> LogLine {
    LogLine { timestamp: ts.to_string(), content: content.to_string(), level: level.to_string() }
}

#[test]
fn console_keeps_the_newest_lines() {
    let mut lines = Vec::new();
    for i in 0..(CONSOLE_ROWS + 20) {
        push_line(&mut lines, line("00:00:00", &i.to_string(), "INFO"));
        assert!(lines.len() <= CONSOLE_ROWS);
    }
    assert_eq!(CONSOLE_ROWS, 500);
    assert_eq!(lines.len(), 500);
    assert_eq!(lines[0].content, "20");
    assert_eq!(lines[499].content, "519");
}

#[test]
fn copied_text_has_one_row_per_line() {
    let lines = vec![line("10:00:01", "attached", "INFO"), line("10:00:02", "read failed", "ERROR")];
    assert_eq!(copy_all_text(&lines), "[10:00:01] attached\n[10:00:02] read failed");
    assert_eq!(copy_all_text(&Vec::new()), "");
    assert_eq!(copy_all_text(&vec![line("a", "b", "INFO")]), "[a] b");
}

#[test]
fn copied_errors_keep_only_error_lines() {
    let lines = vec![
        line("1", "x", "ERROR"),
        line("2", "y", "INFO"),
        line("3", "z", "ERROR"),
        line("4", "w", "error"),
    ];
    assert_eq!(copy_errors_text(&lines), "[1] x\n[3] z");
    let e = error_lines(&lines);
    assert_eq!(e.len(), 2);
    assert_eq!(e[1].content, "z");
    assert_eq!(copy_errors_text(&vec![line("1", "x", "WARN")]), "");
}

#[test]
fn markdown_report_is_a_table() {
    let lines = vec![line("10:00:01", "attached", "INFO")];
    assert_eq!(
        markdown_report(&lines),
        "# H4_GameHack Debug Session Report\n\n| Timestamp | Level | Message |\n| :--- | :--- | :--- |\n| 10:00:01 | **INFO** | `attached` |\n"
    );
}

#[test]
fn targeted_scan_status() {
    assert_eq!(targeted_scan_message(0, "Health"), "Didn't find any Health :(");
    assert_eq!(targeted_scan_message(3, "Money"), "FOUND 3 Money! :D");
}
