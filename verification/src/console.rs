//! The debug console: the lines it keeps, and the texts that it copies and
//! exports.

use vstd::prelude::*;
use crate::numbers::{dec_digits, format_dec};
use crate::text::{chars_equal_str, chars_of, push_chars, push_str};

verus! {

/// The view of a console line.
pub struct LogLineView {
    pub timestamp: Seq<char>,
    pub content: Seq<char>,
    pub level: Seq<char>,
}

/// One line of the debug console: when it was logged, what, and at which
/// level ("ERROR", "WARN", "INFO", ...).
#[derive(Debug)]
pub struct LogLine {
    pub timestamp: String,
    pub content: String,
    pub level: String,
}

impl View for LogLine {
    type V = LogLineView;

    open spec fn view(&self) -> LogLineView {
        LogLineView { timestamp: self.timestamp@, content: self.content@, level: self.level@ }
    }
}

/// The views of a list of lines.
pub open spec fn line_views(lines: Seq<LogLine>) -> Seq<LogLineView> {
    lines.map_values(|l: LogLine| l@)
}

/// The console keeps at most this many lines.
pub const CONSOLE_ROWS: usize = 500;

/// The lines kept after `line` arrives: it goes last, and the oldest line
/// leaves when there would be more than `CONSOLE_ROWS`.
pub open spec fn after_push(lines: Seq<LogLineView>, line: LogLineView) -> Seq<LogLineView> {
    if lines.len() + 1 > CONSOLE_ROWS {
        lines.push(line).drop_first()
    } else {
        lines.push(line)
    }
}

/// Adds `line` to the console's `lines`.
pub fn push_line(lines: &mut Vec<LogLine>, line: LogLine)
    ensures
        line_views(final(lines)@) == after_push(line_views(old(lines)@), line@),
{
    let ghost lv = line@;
    lines.push(line);
    if lines.len() > CONSOLE_ROWS {
        lines.remove(0);
    }
    proof {
        assert(line_views(lines@) =~= after_push(line_views(old(lines)@), lv));
    }
}

/// A console that never held more than `CONSOLE_ROWS` lines never does:
/// each new line is kept, last, and the older ones keep their order.
pub proof fn lemma_console_stays_bounded(lines: Seq<LogLineView>, line: LogLineView)
    requires
        lines.len() <= CONSOLE_ROWS,
    ensures
        after_push(lines, line).len() <= CONSOLE_ROWS,
        after_push(lines, line).last() == line,
        after_push(lines, line).drop_last().is_suffix_of(lines),
{
    let r = after_push(lines, line);
    if lines.len() + 1 > CONSOLE_ROWS {
        assert(r.drop_last() =~= lines.skip(1));
        assert(lines.skip(1) =~= lines.subrange(lines.len() - r.drop_last().len(), lines.len() as int));
    } else {
        assert(r.drop_last() =~= lines);
        assert(lines =~= lines.subrange(0, lines.len() as int));
    }
}

/// How a line reads when copied: "[timestamp] content".
pub open spec fn line_text(l: LogLineView) -> Seq<char> {
    "["@ + l.timestamp + "] "@ + l.content
}

/// The texts of `lines` one per row, separated by new lines.
pub open spec fn joined_text(lines: Seq<LogLineView>) -> Seq<char>
    decreases lines.len(),
{
    if lines.len() == 0 {
        Seq::empty()
    } else if lines.len() == 1 {
        line_text(lines[0])
    } else {
        joined_text(lines.drop_last()) + "\n"@ + line_text(lines.last())
    }
}

/// The text that "copy all" takes from the console.
pub fn copy_all_text(lines: &Vec<LogLine>) -> (r: String)
    ensures
        r@ == joined_text(line_views(lines@)),
{
    let ghost lv = line_views(lines@);
    let mut out = String::new();
    let n = lines.len();
    for i in 0..n
        invariant
            n == lines@.len(),
            lv == line_views(lines@),
            out@ == joined_text(lv.take(i as int)),
    {
        proof {
            let t = lv.take(i + 1);
            assert(t.drop_last() =~= lv.take(i as int));
            assert(t.last() == lines@[i as int]@);
            if i == 0 {
                assert(t.len() == 1);
            }
        }
        if i > 0 {
            push_str(&mut out, "\n");
        }
        push_str(&mut out, "[");
        push_str(&mut out, lines[i].timestamp.as_str());
        push_str(&mut out, "] ");
        push_str(&mut out, lines[i].content.as_str());
        proof {
            let t = lv.take(i + 1);
            reveal_strlit("\n");
            reveal_strlit("[");
            reveal_strlit("] ");
            if i == 0 {
                assert(out@ =~= line_text(t[0]));
            } else {
                assert(out@ =~= joined_text(t.drop_last()) + "\n"@ + line_text(t.last()));
            }
        }
    }
    assert(lv.take(n as int) =~= lv);
    out
}

/// The lines of `lines` logged at level "ERROR", in order.
pub open spec fn error_lines_spec(lines: Seq<LogLineView>) -> Seq<LogLineView>
    decreases lines.len(),
{
    if lines.len() == 0 {
        Seq::empty()
    } else {
        let front = error_lines_spec(lines.drop_last());
        if lines.last().level == "ERROR"@ {
            front.push(lines.last())
        } else {
            front
        }
    }
}

/// A copy of a console line.
fn copy_line(l: &LogLine) -> (r: LogLine)
    ensures
        r@ == l@,
{
    LogLine { timestamp: l.timestamp.clone(), content: l.content.clone(), level: l.level.clone() }
}

/// Copies of the lines of `lines` logged at level "ERROR", in order.
pub fn error_lines(lines: &Vec<LogLine>) -> (r: Vec<LogLine>)
    ensures
        line_views(r@) == error_lines_spec(line_views(lines@)),
{
    let ghost lv = line_views(lines@);
    let mut out: Vec<LogLine> = Vec::new();
    let n = lines.len();
    for i in 0..n
        invariant
            n == lines@.len(),
            lv == line_views(lines@),
            line_views(out@) == error_lines_spec(lv.take(i as int)),
    {
        proof {
            let t = lv.take(i + 1);
            assert(t.drop_last() =~= lv.take(i as int));
            assert(t.last() == lines@[i as int]@);
        }
        let level = chars_of(lines[i].level.as_str());
        if chars_equal_str(&level, "ERROR") {
            let c = copy_line(&lines[i]);
            let ghost before = out@;
            out.push(c);
            proof {
                assert(line_views(out@) =~= line_views(before).push(lines@[i as int]@));
            }
        }
        proof {
            assert(line_views(out@) =~= error_lines_spec(lv.take(i + 1)));
        }
    }
    assert(lv.take(n as int) =~= lv);
    out
}

/// The text that "copy errors" takes from the console: the copied text of
/// its error lines.
pub fn copy_errors_text(lines: &Vec<LogLine>) -> (r: String)
    ensures
        r@ == joined_text(error_lines_spec(line_views(lines@))),
{
    let errors = error_lines(lines);
    copy_all_text(&errors)
}

/// The error lines are those of the console at level "ERROR", none added
/// and none reordered.
pub proof fn lemma_error_lines_are_errors(lines: Seq<LogLineView>)
    ensures
        forall|i: int| 0 <= i < error_lines_spec(lines).len() ==> (#[trigger] error_lines_spec(
            lines,
        )[i]).level == "ERROR"@,
        error_lines_spec(lines).len() <= lines.len(),
        error_lines_spec(lines).to_multiset().subset_of(lines.to_multiset()),
    decreases lines.len(),
{
    broadcast use vstd::seq_lib::group_to_multiset_ensures;

    if lines.len() > 0 {
        let front = lines.drop_last();
        lemma_error_lines_are_errors(front);
        assert(lines =~= front.push(lines.last()));
        let e = error_lines_spec(lines);
        if lines.last().level == "ERROR"@ {
            assert forall|i: int| 0 <= i < e.len() implies (#[trigger] e[i]).level == "ERROR"@ by {
                if i < e.len() - 1 {
                    assert(e[i] == error_lines_spec(front)[i]);
                }
            }
        }
    }
}

/// The header of an exported report.
pub open spec fn report_header() -> Seq<char> {
    "# H4_GameHack Debug Session Report\n\n| Timestamp | Level | Message |\n| :--- | :--- | :--- |\n"@
}

/// The row of an exported report for one line.
pub open spec fn report_row(l: LogLineView) -> Seq<char> {
    "| "@ + l.timestamp + " | **"@ + l.level + "** | `"@ + l.content + "` |\n"@
}

/// The rows of an exported report.
pub open spec fn report_rows(lines: Seq<LogLineView>) -> Seq<char>
    decreases lines.len(),
{
    if lines.len() == 0 {
        Seq::empty()
    } else {
        report_rows(lines.drop_last()) + report_row(lines.last())
    }
}

/// The Markdown report that the console exports: a table with one row per
/// line.
pub fn markdown_report(lines: &Vec<LogLine>) -> (r: String)
    ensures
        r@ == report_header() + report_rows(line_views(lines@)),
{
    let ghost lv = line_views(lines@);
    let mut md = String::from_str(
        "# H4_GameHack Debug Session Report\n\n| Timestamp | Level | Message |\n| :--- | :--- | :--- |\n",
    );
    let n = lines.len();
    for i in 0..n
        invariant
            n == lines@.len(),
            lv == line_views(lines@),
            md@ == report_header() + report_rows(lv.take(i as int)),
    {
        proof {
            let t = lv.take(i + 1);
            assert(t.drop_last() =~= lv.take(i as int));
            assert(t.last() == lines@[i as int]@);
        }
        let ghost before = md@;
        push_str(&mut md, "| ");
        push_str(&mut md, lines[i].timestamp.as_str());
        push_str(&mut md, " | **");
        push_str(&mut md, lines[i].level.as_str());
        push_str(&mut md, "** | `");
        push_str(&mut md, lines[i].content.as_str());
        push_str(&mut md, "` |\n");
        proof {
            assert(md@ =~= before + report_row(lines@[i as int]@));
            assert(md@ =~= report_header() + report_rows(lv.take(i + 1)));
        }
    }
    assert(lv.take(n as int) =~= lv);
    md
}

/// The status that a targeted scan for `target` ends with, after finding
/// `found` results.
pub open spec fn targeted_status(found: nat, target: Seq<char>) -> Seq<char> {
    if found == 0 {
        "Didn't find any "@ + target + " :("@
    } else {
        "FOUND "@ + dec_digits(found) + " "@ + target + "! :D"@
    }
}

/// The status that a targeted scan for `target` ends with.
pub fn targeted_scan_message(found: usize, target: &str) -> (r: String)
    ensures
        r@ == targeted_status(found as nat, target@),
{
    if found == 0 {
        let mut s = String::from_str("Didn't find any ");
        push_str(&mut s, target);
        push_str(&mut s, " :(");
        s
    } else {
        let mut s = String::from_str("FOUND ");
        push_chars(&mut s, &format_dec(found as u64));
        push_str(&mut s, " ");
        push_str(&mut s, target);
        push_str(&mut s, "! :D");
        s
    }
}

} // verus!
