//! Naming and sorting running processes into the categories that the
//! process list shows.

use vstd::prelude::*;
use crate::numbers::{dec_digits, format_dec};
use crate::shared::ProcessEntry;
use crate::text::{chars_equal_str, contains_str, push_chars, seq_contains, string_from_chars, to_lowercase, unicode_lowercase};

verus! {

/// The characters of a process's executable name as the system stores it:
/// the bytes up to the first zero, each read as the character of that code.
pub open spec fn exe_name_chars(raw: Seq<u8>) -> Seq<char>
    decreases raw.len(),
{
    if raw.len() == 0 || raw[0] == 0 {
        seq![]
    } else {
        seq![raw[0] as char] + exe_name_chars(raw.drop_first())
    }
}

/// The name that the list shows for a process: fixed names for the idle
/// process (id 0) and the kernel (id 4), and a stand-in naming the id of a process
/// without a name.
pub open spec fn display_name(pid: u32, exe: Seq<char>) -> Seq<char> {
    if pid == 0 {
        "[System Idle Process]"@
    } else if pid == 4 {
        "System"@
    } else if exe.len() == 0 {
        "Unknown (PID "@ + dec_digits(pid as nat) + ")"@
    } else {
        exe
    }
}

/// The category of a process from its id and lowercase name.
pub open spec fn category_spec(pid: u32, lower: Seq<char>) -> Seq<char> {
    if pid <= 100 || lower == "system"@ || lower == "registry"@ || lower
        == "[system idle process]"@ {
        "System"@
    } else if lower == "smss.exe"@ || lower == "csrss.exe"@ || lower == "wininit.exe"@ || lower
        == "services.exe"@ || lower == "lsass.exe"@ || lower == "svchost.exe"@ || lower
        == "winlogon.exe"@ || seq_contains(lower, "windows"@) {
        "Windows"@
    } else if seq_contains(lower, "steam"@) || seq_contains(lower, "epicgames"@) || seq_contains(
        lower,
        "galaxy"@,
    ) || seq_contains(lower, "game"@) || seq_contains(lower, "battle.net"@) || seq_contains(
        lower,
        "origin.exe"@,
    ) {
        "Games"@
    } else if seq_contains(lower, "driver"@) || seq_contains(lower, "nvidia"@) || seq_contains(
        lower,
        "amd"@,
    ) || seq_contains(lower, "antivirus"@) || seq_contains(lower, "mbam"@) || seq_contains(
        lower,
        "defender"@,
    ) {
        "Necessary"@
    } else {
        "Third Party"@
    }
}

/// The status of a process from its number of threads.
pub open spec fn status_spec(threads: u32) -> Seq<char> {
    if threads > 20 {
        "Active"@
    } else if threads > 0 {
        "Sleeping"@
    } else {
        "Inactive"@
    }
}

/// The view of a process entry.
pub struct ProcessView {
    pub pid: u32,
    pub name: Seq<char>,
    pub status: Seq<char>,
    pub is_system: bool,
    pub category: Seq<char>,
}

impl View for ProcessEntry {
    type V = ProcessView;

    open spec fn view(&self) -> ProcessView {
        ProcessView {
            pid: self.pid,
            name: self.name@,
            status: self.status@,
            is_system: self.is_system,
            category: self.category@,
        }
    }
}

/// ProcessScanner handles locating and listing active game processes.
pub struct ProcessScanner;

impl ProcessScanner {
    /// The executable name stored in `raw`.
    pub fn exe_name(raw: &[u8]) -> (r: Vec<char>)
        ensures
            r@ == exe_name_chars(raw@),
    {
        let n = raw.len();
        let mut v: Vec<char> = Vec::new();
        let mut i: usize = 0;
        assert(raw@.skip(0) =~= raw@);
        while i < n && raw[i] != 0
            invariant
                n == raw@.len(),
                i <= n,
                v@ + exe_name_chars(raw@.skip(i as int)) == exe_name_chars(raw@),
            decreases n - i,
        {
            let c = raw[i] as char;
            proof {
                let rest = raw@.skip(i as int);
                assert(rest[0] == raw@[i as int]);
                assert(rest.drop_first() =~= raw@.skip(i + 1));
                assert(v@.push(c) + exe_name_chars(raw@.skip(i + 1)) =~= v@ + exe_name_chars(rest));
            }
            v.push(c);
            i = i + 1;
        }
        proof {
            assert(exe_name_chars(raw@.skip(i as int)) =~= Seq::<char>::empty());
            assert(v@ + Seq::<char>::empty() =~= v@);
        }
        v
    }

    /// The name that the list shows for process `pid` with executable name
    /// `exe`.
    pub fn display_name(pid: u32, exe: &Vec<char>) -> (r: String)
        ensures
            r@ == display_name(pid, exe@),
    {
        if pid == 0 {
            String::from_str("[System Idle Process]")
        } else if pid == 4 {
            String::from_str("System")
        } else if exe.len() == 0 {
            let mut s = String::from_str("Unknown (PID ");
            push_chars(&mut s, &format_dec(pid as u64));
            push_chars(&mut s, &crate::text::chars_of(")"));
            s
        } else {
            string_from_chars(exe)
        }
    }

    /// The category of a process from its id and lowercase name.
    pub fn categorize(pid: u32, lower: &Vec<char>) -> (r: String)
        ensures
            r@ == category_spec(pid, lower@),
    {
        if pid <= 100 || chars_equal_str(lower, "system") || chars_equal_str(lower, "registry")
            || chars_equal_str(lower, "[system idle process]") {
            String::from_str("System")
        } else if chars_equal_str(lower, "smss.exe") || chars_equal_str(lower, "csrss.exe")
            || chars_equal_str(lower, "wininit.exe") || chars_equal_str(lower, "services.exe")
            || chars_equal_str(lower, "lsass.exe") || chars_equal_str(lower, "svchost.exe")
            || chars_equal_str(lower, "winlogon.exe") || contains_str(lower, "windows") {
            String::from_str("Windows")
        } else if contains_str(lower, "steam") || contains_str(lower, "epicgames") || contains_str(
            lower,
            "galaxy",
        ) || contains_str(lower, "game") || contains_str(lower, "battle.net") || contains_str(
            lower,
            "origin.exe",
        ) {
            String::from_str("Games")
        } else if contains_str(lower, "driver") || contains_str(lower, "nvidia") || contains_str(
            lower,
            "amd",
        ) || contains_str(lower, "antivirus") || contains_str(lower, "mbam") || contains_str(
            lower,
            "defender",
        ) {
            String::from_str("Necessary")
        } else {
            String::from_str("Third Party")
        }
    }

    /// The status of a process with `threads` threads.
    pub fn status(threads: u32) -> (r: String)
        ensures
            r@ == status_spec(threads),
    {
        if threads > 20 {
            String::from_str("Active")
        } else if threads > 0 {
            String::from_str("Sleeping")
        } else {
            String::from_str("Inactive")
        }
    }

    /// The entry that the list shows for process `pid`, whose executable
    /// name the system stores in `raw_name`, running `threads` threads.
    /// System and Windows processes are marked as system processes.
    pub fn describe(pid: u32, raw_name: &[u8], threads: u32) -> (r: ProcessEntry)
        ensures
            r@.pid == pid,
            r@.name == display_name(pid, exe_name_chars(raw_name@)),
            r@.category == category_spec(pid, unicode_lowercase(r@.name)),
            r@.is_system == (r@.category == "System"@ || r@.category == "Windows"@),
            r@.status == status_spec(threads),
    {
        let exe = Self::exe_name(raw_name);
        let name = Self::display_name(pid, &exe);
        let lower_name = to_lowercase(name.as_str());
        let lower = crate::text::chars_of(lower_name.as_str());
        let category = Self::categorize(pid, &lower);
        let cat = crate::text::chars_of(category.as_str());
        let is_system = chars_equal_str(&cat, "System") || chars_equal_str(&cat, "Windows");
        ProcessEntry { pid, name, status: Self::status(threads), is_system, category }
    }
}


/// The Windows system executables are categorised "Windows", whatever
/// their process id above 100.
pub proof fn lemma_windows_executables(pid: u32, lower: Seq<char>)
    requires
        pid > 100,
        ({
            ||| lower == "smss.exe"@
            ||| lower == "csrss.exe"@
            ||| lower == "wininit.exe"@
            ||| lower == "services.exe"@
            ||| lower == "lsass.exe"@
            ||| lower == "svchost.exe"@
            ||| lower == "winlogon.exe"@
        }),
    ensures
        category_spec(pid, lower) == "Windows"@,
{
    reveal_strlit("smss.exe");
    reveal_strlit("csrss.exe");
    reveal_strlit("wininit.exe");
    reveal_strlit("services.exe");
    reveal_strlit("lsass.exe");
    reveal_strlit("svchost.exe");
    reveal_strlit("winlogon.exe");
    reveal_strlit("system");
    reveal_strlit("registry");
    reveal_strlit("[system idle process]");
    assert(lower != "system"@ && lower != "registry"@ && lower != "[system idle process]"@) by {
        assert("system"@.len() == 6);
        assert("registry"@.len() == 8 && "registry"@[0] == 'r');
        assert("[system idle process]"@.len() == 21);
        assert("smss.exe"@[0] == 's');
    }
}

/// Processes with ids up to 100, and the processes named "system",
/// "registry" or "[system idle process]", are categorised "System".
pub proof fn lemma_system_processes(pid: u32, lower: Seq<char>)
    requires
        pid <= 100 || lower == "system"@ || lower == "registry"@ || lower
            == "[system idle process]"@,
    ensures
        category_spec(pid, lower) == "System"@,
{
}


/// A process with more than 20 threads is "Active", one with some threads
/// "Sleeping", one with none "Inactive".
pub proof fn lemma_status_by_threads(threads: u32)
    ensures
        threads > 20 ==> status_spec(threads) == "Active"@,
        0 < threads <= 20 ==> status_spec(threads) == "Sleeping"@,
        threads == 0 ==> status_spec(threads) == "Inactive"@,
{
}

} // verus!
