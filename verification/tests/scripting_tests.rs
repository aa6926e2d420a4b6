use h4_engine::memory::{check_read, check_write, MemoryError};
use h4_engine::scripting::{parse_address, PulseStage, PulseStep, PulseTest, ScriptingHost, TerminalCommand};

fn reply(cmd: &str) -> String {
    match ScriptingHost::dispatch(cmd) {
        TerminalCommand::Reply(s) => s,
        other => panic!("expected a reply, got {:?}", other),
    }
}

#[test]
fn commands_need_the_h4_prefix() {
    assert_eq!(reply(""), "Unknown command. Prefix with 'h4'");
    assert_eq!(reply("hello --help"), "Unknown command. Prefix with 'h4'");
}

#[test]
fn help_is_shown_for_bare_h4_and_help_flag() {
    let help = ScriptingHost::get_help();
    assert!(help.starts_with("H4 ADVANCED COMMAND INTERFACE (NEO-MODE)\n"));
    assert!(help.ends_with("Free your mind, Neo."));
    assert!(help.contains("h4 --pulse <addr> : Perform the Write-Read-Restore test (Cyber-Pulse).\n"));
    assert_eq!(reply("h4"), help);
    assert_eq!(reply("  h4   --help  "), help);
}

#[test]
fn pulse_needs_a_valid_address() {
    assert_eq!(reply("h4 --pulse"), "ERROR: --pulse requires target address (0x...).");
    assert_eq!(reply("h4 --pulse 0xZZ"), "ERROR: Invalid address format.");
    assert_eq!(reply("h4 --pulse 0x0"), "ERROR: Invalid address format.");
    match ScriptingHost::dispatch("h4 --pulse 0x7FF6ABCD") {
        TerminalCommand::Pulse(a) => assert_eq!(a, 0x7FF6ABCD),
        other => panic!("{:?}", other),
    }
    match ScriptingHost::dispatch("h4 --pulse 0x0x10") {
        TerminalCommand::Pulse(a) => assert_eq!(a, 0x10),
        other => panic!("{:?}", other),
    }
}

#[test]
fn addresses_parse_like_the_terminal() {
    for s in ["0x1000", "1000", "0x0x1f", "+10", "xyz", "0x", "ffffffffffffffffff"] {
        let expected = usize::from_str_radix(s.trim_start_matches("0x"), 16).unwrap_or(0);
        assert_eq!(parse_address(&s.chars().collect()), expected, "{}", s);
    }
}

#[test]
fn other_commands() {
    assert_eq!(reply("h4 --scan"), "Smart scan sequence queued. Check results list.");
    assert_eq!(reply("h4 --freeze"), "ERROR: --freeze requires target address (0x...).");
    assert_eq!(reply("h4 --freeze 0x10"), "Logic layer updated. Address locked in persistent strobe.");
    assert_eq!(reply("h4 --warp"), "Command '--warp' not recognized. Use 'h4 --help' for a full list.");
    assert!(matches!(ScriptingHost::dispatch("h4 --map"), TerminalCommand::MemoryMap));
}

#[test]
fn map_report_text() {
    assert_eq!(ScriptingHost::map_report("game.exe", 4242), "Memory map for game.exe (4242)... [DUMP COMPLETE]");
}

#[test]
fn memory_error_messages() {
    assert_eq!(MemoryError::OpenProcessFailed(5).message(), "Failed to open process: 5");
    assert_eq!(MemoryError::ReadFailed(0xABC, 0).message(), "Failed to read memory at ABC: 0");
    assert_eq!(MemoryError::WriteFailed(0x10, 998).message(), "Failed to write memory at 10: 998");
    assert_eq!(MemoryError::InvalidHandle.message(), "Invalid process handle");
    assert_eq!(check_read(0x10, 4, 4), Ok(()));
    assert_eq!(check_read(0x10, 4, 2), Err(MemoryError::ReadFailed(0x10, 0)));
    assert_eq!(check_write(0x10, 4, 0), Err(MemoryError::WriteFailed(0x10, 0)));
}

/// Runs a pulse test against a single 32-bit cell.
fn pulse(address: usize, cell: &mut Option<u32>, writable: bool, echo: Option<u32>) -> String {
    let (mut test, mut step) = PulseTest::start(address);
    loop {
        step = match step {
            PulseStep::Read(a) => {
                assert_eq!(a, address);
                let r = match (*cell, echo) {
                    (Some(_), Some(e)) if test.stage == PulseStage::ReadingBack => Ok(e),
                    (Some(v), _) => Ok(v),
                    (None, _) => Err(MemoryError::ReadFailed(a, 299)),
                };
                test.on_read(r)
            }
            PulseStep::Write(a, v) => {
                let r = if writable { *cell = Some(v); Ok(()) } else { Err(MemoryError::WriteFailed(a, 5)) };
                test.on_write(r)
            }
            PulseStep::Report(m) => return m,
        }
    }
}

#[test]
fn pulse_success_restores_the_value() {
    let mut cell = Some(0x1234_5678);
    let m = pulse(0xABCD, &mut cell, true, None);
    assert_eq!(m, "PULSE SUCCESS: Address 0xABCD verified as R/W. State restored.");
    assert_eq!(cell, Some(0x1234_5678));
}

#[test]
fn pulse_reports_denied_read_and_write() {
    let mut none = None;
    assert_eq!(pulse(0x10, &mut none, true, None), "PULSE FAILED: Read access denied (Failed to read memory at 10: 299)");
    let mut cell = Some(1);
    assert_eq!(pulse(0x10, &mut cell, false, None), "PULSE FAILED: Write access denied (Failed to write memory at 10: 5)");
    assert_eq!(cell, Some(1));
}

#[test]
fn pulse_reports_mismatch() {
    let mut cell = Some(7);
    let m = pulse(0x10, &mut cell, true, Some(7));
    assert_eq!(m, "PULSE FAILURE: Value mismatch. Memory may be shadowed or protected.");
    assert_eq!(cell, Some(7));
}

#[test]
fn printed_addresses_read_back() {
    for a in [1usize, 0x10000, 0x7FF6_ABCD, usize::MAX] {
        let printed = format!("0x{:X}", a);
        assert_eq!(parse_address(&printed.chars().collect()), a);
    }
}

#[test]
fn failed_read_back_is_no_success() {
    // original 0xFFFFFFFF: its complement is 0, the value a failed read was once taken for
    let (mut test, step) = PulseTest::start(0x40);
    assert!(matches!(step, PulseStep::Read(0x40)));
    let step = test.on_read(Ok(0xFFFF_FFFF));
    assert!(matches!(step, PulseStep::Write(0x40, 0)));
    let step = test.on_write(Ok(()));
    assert!(matches!(step, PulseStep::Read(0x40)));
    let step = test.on_read(Err(MemoryError::ReadFailed(0x40, 299)));
    assert!(matches!(step, PulseStep::Write(0x40, 0xFFFF_FFFF)));
    assert_eq!(test.read_back, None);
    match test.on_write(Ok(())) {
        PulseStep::Report(m) => assert_eq!(m, "PULSE FAILURE: Value mismatch. Memory may be shadowed or protected."),
        other => panic!("{:?}", other),
    }
}

#[test]
fn commands_listed_in_help_are_known() {
    for verb in ["--test", "--strings", "--speed", "--nodes"] {
        let r = reply(&format!("h4 {} 8", verb));
        assert_eq!(r, format!("Command '{}' is listed in the help but is not supported by this engine.", verb));
        assert!(ScriptingHost::get_help().contains(verb));
    }
}
