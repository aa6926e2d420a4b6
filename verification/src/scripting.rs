//! The "Neo-mode" terminal: reading an `h4` command line, the answers that
//! need no memory access, and the write-read-restore pulse test.

use vstd::prelude::*;
use crate::memory::MemoryError;
use crate::numbers::{dec_digits, format_dec, format_hex, hex_digits, parse_int, parse_int_spec};
use crate::text::{chars_equal_str, chars_of, push_chars, push_str, split_whitespace, split_ws};

verus! {

/// The help text of the terminal.
pub open spec fn help_text() -> Seq<char> {
    "H4 ADVANCED COMMAND INTERFACE (NEO-MODE)\n\
    ========================================\n\
    h4 --help         : Show this verbose guide.\n\
    h4 --pulse <addr> : Perform the Write-Read-Restore test (Cyber-Pulse).\n\
    h4 --scan         : Standard discovery scan (no interference).\n\
    h4 --test <var>   : Target verification for a specific found variable.\n\
    h4 --freeze <addr>: Locks a value permanently (Requires background loop).\n\
    h4 --map          : Dumps the process memory context.\n\
    h4 --strings <len>: Finds readable strings in memory.\n\
    h4 --speed <mult> : Global timescale hack (Engine dependent).\n\
    h4 --nodes        : List discovered Unity/Unreal objects.\n\
    ========================================\n\
    Free your mind, Neo."@
}

/// `s` without every leading `0x`, as `trim_start_matches("0x")` leaves it.
pub open spec fn strip_hex_prefix(s: Seq<char>) -> Seq<char>
    decreases s.len(),
{
    if s.len() >= 2 && s[0] == '0' && s[1] == 'x' {
        strip_hex_prefix(s.skip(2))
    } else {
        s
    }
}

/// The address that a command argument names: hexadecimal after any `0x`
/// prefixes, and 0 when it is not a valid address.
pub open spec fn address_value(arg: Seq<char>) -> usize {
    match parse_int_spec(strip_hex_prefix(arg), 16, 0, usize::MAX as int, false) {
        Ok(v) => v as usize,
        Err(_) => 0,
    }
}

/// The commands that the help text lists and the engine has no support
/// for: they are answered as known but unsupported, never as unknown.
pub open spec fn listed_only(verb: Seq<char>) -> bool {
    verb == "--test"@ || verb == "--strings"@ || verb == "--speed"@ || verb == "--nodes"@
}

/// What a command line asks of the terminal, in views.
pub enum CommandView {
    Reply(Seq<char>),
    Pulse(usize),
    MemoryMap,
}

/// What the command line `s` asks: a direct reply, a pulse test at an
/// address, or the memory map.
pub open spec fn command_spec(s: Seq<char>) -> CommandView {
    let parts = split_ws(s);
    if parts.len() == 0 || parts[0] != "h4"@ {
        CommandView::Reply("Unknown command. Prefix with 'h4'"@)
    } else if parts.len() == 1 || parts[1] == "--help"@ {
        CommandView::Reply(help_text())
    } else if parts[1] == "--pulse"@ {
        if parts.len() < 3 {
            CommandView::Reply("ERROR: --pulse requires target address (0x...)."@)
        } else if address_value(parts[2]) == 0 {
            CommandView::Reply("ERROR: Invalid address format."@)
        } else {
            CommandView::Pulse(address_value(parts[2]))
        }
    } else if parts[1] == "--scan"@ {
        CommandView::Reply("Smart scan sequence queued. Check results list."@)
    } else if parts[1] == "--freeze"@ {
        if parts.len() < 3 {
            CommandView::Reply("ERROR: --freeze requires target address (0x...)."@)
        } else {
            CommandView::Reply("Logic layer updated. Address locked in persistent strobe."@)
        }
    } else if parts[1] == "--map"@ {
        CommandView::MemoryMap
    } else if listed_only(parts[1]) {
        CommandView::Reply(
            "Command '"@ + parts[1] + "' is listed in the help but is not supported by this engine."@,
        )
    } else {
        CommandView::Reply(
            "Command '"@ + parts[1] + "' not recognized. Use 'h4 --help' for a full list."@,
        )
    }
}

/// What a command line asks of the terminal.
#[derive(Debug)]
pub enum TerminalCommand {
    /// Answer with this text.
    Reply(String),
    /// Run the pulse test at this address.
    Pulse(usize),
    /// Describe the memory map of the attached process.
    MemoryMap,
}

impl View for TerminalCommand {
    type V = CommandView;

    open spec fn view(&self) -> CommandView {
        match self {
            TerminalCommand::Reply(s) => CommandView::Reply(s@),
            TerminalCommand::Pulse(a) => CommandView::Pulse(*a),
            TerminalCommand::MemoryMap => CommandView::MemoryMap,
        }
    }
}

/// The characters of `s` after its leading `0x` prefixes.
fn strip_prefix_exec(s: &Vec<char>) -> (r: Vec<char>)
    ensures
        r@ == strip_hex_prefix(s@),
{
    let n = s.len();
    let mut i: usize = 0;
    assert(s@.skip(0) =~= s@);
    while i < n && n - i >= 2 && s[i] == '0' && s[i + 1] == 'x'
        invariant
            n == s@.len(),
            i <= n,
            strip_hex_prefix(s@) == strip_hex_prefix(s@.skip(i as int)),
        decreases n - i,
    {
        assert(s@.skip(i as int).skip(2) =~= s@.skip(i + 2));
        i = i + 2;
    }
    let mut r: Vec<char> = Vec::new();
    let mut k: usize = i;
    while k < n
        invariant
            n == s@.len(),
            i <= k <= n,
            r@ == s@.subrange(i as int, k as int),
        decreases n - k,
    {
        r.push(s[k]);
        k = k + 1;
    }
    assert(r@ =~= s@.skip(i as int));
    r
}

/// The address that a command argument names, 0 when it is not valid.
pub fn parse_address(arg: &Vec<char>) -> (r: usize)
    ensures
        r == address_value(arg@),
{
    let digits = strip_prefix_exec(arg);
    match parse_int(&digits, 16, 0, usize::MAX as i128, false) {
        Ok(v) => v as usize,
        Err(_) => 0,
    }
}

/// ScriptingHost handles the "Neo-mode" terminal commands.
pub struct ScriptingHost;

impl ScriptingHost {
    /// The help text of the terminal.
    pub fn get_help() -> (r: String)
        ensures
            r@ == help_text(),
    {
        String::from_str(
            "H4 ADVANCED COMMAND INTERFACE (NEO-MODE)\n\
        ========================================\n\
        h4 --help         : Show this verbose guide.\n\
        h4 --pulse <addr> : Perform the Write-Read-Restore test (Cyber-Pulse).\n\
        h4 --scan         : Standard discovery scan (no interference).\n\
        h4 --test <var>   : Target verification for a specific found variable.\n\
        h4 --freeze <addr>: Locks a value permanently (Requires background loop).\n\
        h4 --map          : Dumps the process memory context.\n\
        h4 --strings <len>: Finds readable strings in memory.\n\
        h4 --speed <mult> : Global timescale hack (Engine dependent).\n\
        h4 --nodes        : List discovered Unity/Unreal objects.\n\
        ========================================\n\
        Free your mind, Neo.",
        )
    }

    /// Reads a command line: what it asks the terminal to do.
    pub fn dispatch(command: &str) -> (r: TerminalCommand)
        ensures
            r@ == command_spec(command@),
    {
        let chars = chars_of(command);
        let parts = split_whitespace(&chars);
        let ghost ps = split_ws(command@);
        proof {
            assert(parts.deep_view() == ps);
            assert(parts@.len() == ps.len());
            if parts@.len() > 0 {
                assert(parts@[0]@ == ps[0]);
            }
            if parts@.len() > 1 {
                assert(parts@[1]@ == ps[1]);
            }
            if parts@.len() > 2 {
                assert(parts@[2]@ == ps[2]);
            }
        }
        if parts.len() == 0 || !chars_equal_str(&parts[0], "h4") {
            return TerminalCommand::Reply(String::from_str("Unknown command. Prefix with 'h4'"));
        }
        if parts.len() == 1 || chars_equal_str(&parts[1], "--help") {
            return TerminalCommand::Reply(Self::get_help());
        }
        let verb = &parts[1];
        if chars_equal_str(verb, "--pulse") {
            if parts.len() < 3 {
                return TerminalCommand::Reply(
                    String::from_str("ERROR: --pulse requires target address (0x...)."),
                );
            }
            let addr = parse_address(&parts[2]);
            if addr == 0 {
                return TerminalCommand::Reply(String::from_str("ERROR: Invalid address format."));
            }
            TerminalCommand::Pulse(addr)
        } else if chars_equal_str(verb, "--scan") {
            TerminalCommand::Reply(String::from_str("Smart scan sequence queued. Check results list."))
        } else if chars_equal_str(verb, "--freeze") {
            if parts.len() < 3 {
                return TerminalCommand::Reply(
                    String::from_str("ERROR: --freeze requires target address (0x...)."),
                );
            }
            TerminalCommand::Reply(
                String::from_str("Logic layer updated. Address locked in persistent strobe."),
            )
        } else if chars_equal_str(verb, "--map") {
            TerminalCommand::MemoryMap
        } else if chars_equal_str(verb, "--test") || chars_equal_str(verb, "--strings")
            || chars_equal_str(verb, "--speed") || chars_equal_str(verb, "--nodes") {
            let mut msg = String::from_str("Command '");
            push_chars(&mut msg, verb);
            push_str(&mut msg, "' is listed in the help but is not supported by this engine.");
            TerminalCommand::Reply(msg)
        } else {
            let mut msg = String::from_str("Command '");
            push_chars(&mut msg, verb);
            push_str(&mut msg, "' not recognized. Use 'h4 --help' for a full list.");
            TerminalCommand::Reply(msg)
        }
    }

    /// The answer to `h4 --map` for the process named `name` with id `pid`.
    pub fn map_report(name: &str, pid: u32) -> (r: String)
        ensures
            r@ == "Memory map for "@ + name@ + " ("@ + dec_digits(pid as nat)
                + ")... [DUMP COMPLETE]"@,
    {
        let mut s = String::from_str("Memory map for ");
        push_str(&mut s, name);
        push_str(&mut s, " (");
        push_chars(&mut s, &format_dec(pid as u64));
        push_str(&mut s, ")... [DUMP COMPLETE]");
        s
    }
}

/// The value that the pulse test writes over `original`: its bitwise
/// complement.
pub open spec fn pulse_value(original: u32) -> u32 {
    original ^ 0xFFFF_FFFFu32
}

/// The report of a pulse test whose first read failed with `e`.
pub open spec fn read_denied(e: MemoryError) -> Seq<char> {
    "PULSE FAILED: Read access denied ("@ + e.spec_message() + ")"@
}

/// The report of a pulse test whose test write failed with `e`.
pub open spec fn write_denied(e: MemoryError) -> Seq<char> {
    "PULSE FAILED: Write access denied ("@ + e.spec_message() + ")"@
}

/// The report of a pulse test that read back the value it wrote.
pub open spec fn pulse_success(address: usize) -> Seq<char> {
    "PULSE SUCCESS: Address 0x"@ + hex_digits(address as nat)
        + " verified as R/W. State restored."@
}

/// The report of a pulse test that read back another value.
pub open spec fn pulse_mismatch() -> Seq<char> {
    "PULSE FAILURE: Value mismatch. Memory may be shadowed or protected."@
}

/// The next memory access of a pulse test, or its report.
#[derive(Debug)]
pub enum PulseStep {
    /// Read the 32-bit value at this address.
    Read(usize),
    /// Write this 32-bit value at this address.
    Write(usize, u32),
    /// The test is over; this is its report.
    Report(String),
}

/// `step` reads at `a`.
pub open spec fn reads_at(step: PulseStep, a: usize) -> bool {
    step matches PulseStep::Read(x) && x == a
}

/// `step` writes `w` at `a`.
pub open spec fn writes(step: PulseStep, a: usize, w: u32) -> bool {
    step matches PulseStep::Write(x, v) && x == a && v == w
}

/// `step` ends the test with the report `m`.
pub open spec fn reports(step: PulseStep, m: Seq<char>) -> bool {
    step matches PulseStep::Report(t) && t@ == m
}

/// The stages of a pulse test.
#[derive(Debug, Clone, Copy, PartialEq, Eq, Structural)]
pub enum PulseStage {
    ReadingOriginal,
    WritingTest,
    ReadingBack,
    Restoring,
    Done,
}

/// The write-read-restore test of an address: read the value, write its
/// complement, read it back, write the original value back, and report
/// whether the complement was read back.
pub struct PulseTest {
    pub address: usize,
    pub original: u32,
    /// The value read back after the test write, `None` when that read failed.
    pub read_back: Option<u32>,
    pub stage: PulseStage,
}

impl PulseTest {
    /// A test of `address`, and its first step: reading the value there.
    pub fn start(address: usize) -> (r: (PulseTest, PulseStep))
        ensures
            r.0.address == address,
            r.0.stage == PulseStage::ReadingOriginal,
            reads_at(r.1, address),
    {
        (PulseTest { address, original: 0, read_back: None, stage: PulseStage::ReadingOriginal }, PulseStep::Read(address))
    }

    /// Takes the result of the read asked for: the original value, which
    /// leads to writing its complement, or the value read back, which leads
    /// to restoring the original (a failed read back is remembered as none).
    pub fn on_read(&mut self, result: Result<u32, MemoryError>) -> (step: PulseStep)
        ensures
            final(self).address == old(self).address,
            old(self).stage == PulseStage::ReadingOriginal ==> match result {
                Ok(v) => final(self).stage == PulseStage::WritingTest && final(self).original == v
                    && writes(step, old(self).address, pulse_value(v)),
                Err(e) => final(self).stage == PulseStage::Done && reports(step, read_denied(e)),
            },
            old(self).stage == PulseStage::ReadingBack ==> {
                &&& final(self).stage == PulseStage::Restoring
                &&& final(self).original == old(self).original
                &&& final(self).read_back == (match result {
                    Ok(v) => Some(v),
                    Err(_) => None::<u32>,
                })
                &&& writes(step, old(self).address, old(self).original)
            },
            old(self).stage != PulseStage::ReadingOriginal && old(self).stage
                != PulseStage::ReadingBack ==> *final(self) == *old(self) && reports(
                step,
                Seq::<char>::empty(),
            ),
    {
        match self.stage {
            PulseStage::ReadingOriginal => match result {
                Ok(v) => {
                    self.original = v;
                    self.stage = PulseStage::WritingTest;
                    PulseStep::Write(self.address, v ^ 0xFFFF_FFFFu32)
                },
                Err(e) => {
                    self.stage = PulseStage::Done;
                    let mut m = String::from_str("PULSE FAILED: Read access denied (");
                    let em = e.message();
                    push_str(&mut m, em.as_str());
                    push_str(&mut m, ")");
                    PulseStep::Report(m)
                },
            },
            PulseStage::ReadingBack => {
                self.read_back = match result {
                    Ok(v) => Some(v),
                    Err(_) => None,
                };
                self.stage = PulseStage::Restoring;
                PulseStep::Write(self.address, self.original)
            },
            _ => PulseStep::Report(String::new()),
        }
    }

    /// Takes the result of the write asked for: after the test write, a
    /// failure ends the test and a success leads to reading the value back;
    /// after the restoring write, whatever its result, the test reports
    /// whether the complement was read back.
    pub fn on_write(&mut self, result: Result<(), MemoryError>) -> (step: PulseStep)
        ensures
            final(self).address == old(self).address,
            final(self).original == old(self).original,
            old(self).stage == PulseStage::WritingTest ==> match result {
                Ok(_) => final(self).stage == PulseStage::ReadingBack && reads_at(
                    step,
                    old(self).address,
                ),
                Err(e) => final(self).stage == PulseStage::Done && reports(step, write_denied(e)),
            },
            old(self).stage == PulseStage::Restoring ==> final(self).stage == PulseStage::Done
                && reports(
                step,
                if old(self).read_back == Some(pulse_value(old(self).original)) {
                    pulse_success(old(self).address)
                } else {
                    pulse_mismatch()
                },
            ),
            old(self).stage != PulseStage::WritingTest && old(self).stage != PulseStage::Restoring
                ==> *final(self) == *old(self) && reports(step, Seq::<char>::empty()),
    {
        match self.stage {
            PulseStage::WritingTest => match result {
                Ok(_) => {
                    self.stage = PulseStage::ReadingBack;
                    PulseStep::Read(self.address)
                },
                Err(e) => {
                    self.stage = PulseStage::Done;
                    let mut m = String::from_str("PULSE FAILED: Write access denied (");
                    let em = e.message();
                    push_str(&mut m, em.as_str());
                    push_str(&mut m, ")");
                    PulseStep::Report(m)
                },
            },
            PulseStage::Restoring => {
                self.stage = PulseStage::Done;
                let verified = match self.read_back {
                    Some(v) => v == self.original ^ 0xFFFF_FFFFu32,
                    None => false,
                };
                if verified {
                    let mut m = String::from_str("PULSE SUCCESS: Address 0x");
                    push_chars(&mut m, &format_hex(self.address as u64));
                    push_str(&mut m, " verified as R/W. State restored.");
                    PulseStep::Report(m)
                } else {
                    PulseStep::Report(
                        String::from_str(
                            "PULSE FAILURE: Value mismatch. Memory may be shadowed or protected.",
                        ),
                    )
                }
            },
            _ => PulseStep::Report(String::new()),
        }
    }
}

/// The test value always differs from the original one, so a read back of
/// the test value shows that the write took effect.
pub proof fn lemma_pulse_value_differs(original: u32)
    ensures
        pulse_value(original) != original,
        pulse_value(pulse_value(original)) == original,
{
    assert(original ^ 0xFFFF_FFFFu32 != original) by (bit_vector);
    assert((original ^ 0xFFFF_FFFFu32) ^ 0xFFFF_FFFFu32 == original) by (bit_vector);
}

/// The address that a successful pulse report prints, "0x" and its
/// uppercase hexadecimal digits, reads back as the same address in a
/// command: reports and commands agree on addresses.
pub proof fn lemma_printed_address_reads_back(address: usize)
    ensures
        address_value("0x"@ + hex_digits(address as nat)) == address,
{
    reveal_strlit("0x");
    let digits = hex_digits(address as nat);
    let s = "0x"@ + digits;
    assert(s.skip(2) =~= digits);
    crate::numbers::lemma_hex_roundtrip(address as nat, usize::MAX as int);
    lemma_hex_digits_have_no_x(address as nat);
    assert(strip_hex_prefix(s) == strip_hex_prefix(digits));
    if digits.len() >= 2 {
        assert(digits[1] != 'x');
    }
    assert(strip_hex_prefix(digits) == digits);
}

/// Uppercase hexadecimal digits never hold the letter 'x'.
proof fn lemma_hex_digits_have_no_x(n: nat)
    ensures
        forall|i: int| 0 <= i < hex_digits(n).len() ==> #[trigger] hex_digits(n)[i] != 'x',
    decreases n,
{
    if n >= 16 {
        lemma_hex_digits_have_no_x(n / 16);
        let front = hex_digits(n / 16);
        assert forall|i: int| 0 <= i < hex_digits(n).len() implies #[trigger] hex_digits(n)[i]
            != 'x' by {
            if i < front.len() {
                assert(hex_digits(n)[i] == front[i]);
            }
        }
    }
}


/// Every command that the help text lists is known to the terminal: none of
/// them gets the unknown-command reply.
pub proof fn lemma_listed_commands_are_known(s: Seq<char>)
    requires
        split_ws(s).len() >= 2,
        split_ws(s)[0] == "h4"@,
        split_ws(s)[1] == "--test"@ || split_ws(s)[1] == "--strings"@ || split_ws(s)[1]
            == "--speed"@ || split_ws(s)[1] == "--nodes"@ || split_ws(s)[1] == "--help"@
            || split_ws(s)[1] == "--pulse"@ || split_ws(s)[1] == "--scan"@ || split_ws(s)[1]
            == "--freeze"@ || split_ws(s)[1] == "--map"@,
    ensures
        command_spec(s) != CommandView::Reply(
            "Command '"@ + split_ws(s)[1] + "' not recognized. Use 'h4 --help' for a full list."@,
        ),
{
    let verb = split_ws(s)[1];
    let unknown = "Command '"@ + verb + "' not recognized. Use 'h4 --help' for a full list."@;
    reveal_strlit("Command '");
    reveal_strlit("' not recognized. Use 'h4 --help' for a full list.");
    reveal_strlit("' is listed in the help but is not supported by this engine.");
    reveal_strlit("--help");
    reveal_strlit("--pulse");
    reveal_strlit("--scan");
    reveal_strlit("--freeze");
    reveal_strlit("--map");
    reveal_strlit("--test");
    reveal_strlit("--strings");
    reveal_strlit("--speed");
    reveal_strlit("--nodes");
    if listed_only(verb) {
        let known = "Command '"@ + verb + "' is listed in the help but is not supported by this engine."@;
        assert(!(verb == "--help"@ || verb == "--pulse"@ || verb == "--scan"@ || verb == "--freeze"@
            || verb == "--map"@)) by {
            assert("--help"@[2] == 'h');
            assert("--pulse"@[2] == 'p');
            assert("--scan"@[2] == 's' && "--scan"@.len() == 6);
            assert("--freeze"@[2] == 'f');
            assert("--map"@[2] == 'm');
            assert("--test"@[2] == 't');
            assert("--strings"@[2] == 's' && "--strings"@.len() == 9);
            assert("--speed"@[2] == 's' && "--speed"@.len() == 7);
            assert("--nodes"@[2] == 'n');
        }
        assert(command_spec(s) == CommandView::Reply(known));
        assert(known[verb.len() + 11int] != unknown[verb.len() + 11int]);
    } else {
        match command_spec(s) {
            CommandView::Reply(t) => {
                assert(t != unknown) by {
                    if verb == "--help"@ {
                        assert(t == help_text());
                        reveal_strlit("H4 ADVANCED COMMAND INTERFACE (NEO-MODE)\n========================================\nh4 --help         : Show this verbose guide.\nh4 --pulse <addr> : Perform the Write-Read-Restore test (Cyber-Pulse).\nh4 --scan         : Standard discovery scan (no interference).\nh4 --test <var>   : Target verification for a specific found variable.\nh4 --freeze <addr>: Locks a value permanently (Requires background loop).\nh4 --map          : Dumps the process memory context.\nh4 --strings <len>: Finds readable strings in memory.\nh4 --speed <mult> : Global timescale hack (Engine dependent).\nh4 --nodes        : List discovered Unity/Unreal objects.\n========================================\nFree your mind, Neo.");
                        assert(t[0] != unknown[0]);
                    } else {
                        reveal_strlit("Smart scan sequence queued. Check results list.");
                        reveal_strlit("ERROR: --pulse requires target address (0x...).");
                        reveal_strlit("ERROR: Invalid address format.");
                        reveal_strlit("ERROR: --freeze requires target address (0x...).");
                        reveal_strlit("Logic layer updated. Address locked in persistent strobe.");
                        assert(t[0] != unknown[0]);
                    }
                }
            },
            _ => {},
        }
    }
}

} // verus!
