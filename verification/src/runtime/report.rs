//! Lines that the command line prints about a run.

use vstd::prelude::*;
use vstd::string::{StrSliceExecFns, StringExecFns};

use crate::runtime::trace::{
    events_of, termination_text, termination_words, ApiEvent, EntryTraceEvent, EntryTraceSummary,
    MicroRunSummary,
};
use crate::text::{dec, hex_padded, push_dec, push_hex_padded};

verus! {

/// An address in sixteen digits.
pub open spec fn address(v: u64) -> Seq<char> {
    hex_padded(v as nat, 16)
}

/// An address that may be absent.
pub open spec fn optional_address(v: Option<u64>) -> Seq<char> {
    match v {
        Some(a) => address(a),
        None => "-"@,
    }
}

/// Formats an address that may be absent.
pub fn format_optional_hex(value: Option<u64>) -> (s: String)
    ensures
        s@ == optional_address(value),
{
    match value {
        Some(v) => {
            let mut s = String::new();
            push_hex_padded(&mut s, v, 16);
            assert(s@ =~= address(v));
            s
        },
        None => "-".to_owned(),
    }
}

/// Appends an address that may be absent.
fn push_optional_hex(out: &mut String, value: Option<u64>)
    ensures
        final(out)@ == old(out)@ + optional_address(value),
{
    let s = format_optional_hex(value);
    out.append(s.as_str());
}

/// An event in a line.
pub open spec fn event_line(e: ApiEvent) -> Seq<char> {
    "api["@ + dec(e.index as nat) + "] "@ + (if e.handled {
        "handled"@
    } else {
        "unsupported"@
    }) + " fake="@ + address(e.fake_target_va) + " ret="@ + optional_address(e.return_value)
        + " resume="@ + optional_address(e.return_address) + " "@ + e.library + "!"@ + e.name
}

/// Formats one API event.
pub fn format_entry_trace_event(event: &EntryTraceEvent) -> (s: String)
    ensures
        s@ == event_line(event@),
{
    let mut s = "api[".to_owned();
    push_dec(&mut s, event.index as u64);
    s.append("] ");
    if event.handled {
        s.append("handled");
    } else {
        s.append("unsupported");
    }
    s.append(" fake=");
    push_hex_padded(&mut s, event.fake_target_va, 16);
    s.append(" ret=");
    push_optional_hex(&mut s, event.return_value);
    s.append(" resume=");
    push_optional_hex(&mut s, event.return_address);
    s.append(" ");
    s.append(event.library.as_str());
    s.append("!");
    s.append(event.name.as_str());
    s
}

/// The first line about a trace, given the words for how it ended.
pub open spec fn summary_line(s: EntryTraceSummary, words: Seq<char>) -> Seq<char> {
    "entry="@ + address(s.entry_point_va) + " initial_rsp="@ + address(s.initial_rsp)
        + " termination="@ + words + " final_rip="@ + address(s.final_rip) + " final_rsp="@
        + address(s.final_rsp)
}

/// Formats the first line about a trace.
pub fn format_summary(summary: &EntryTraceSummary, words: &str) -> (s: String)
    ensures
        s@ == summary_line(*summary, words@),
{
    let mut s = "entry=".to_owned();
    push_hex_padded(&mut s, summary.entry_point_va, 16);
    s.append(" initial_rsp=");
    push_hex_padded(&mut s, summary.initial_rsp, 16);
    s.append(" termination=");
    s.append(words);
    s.append(" final_rip=");
    push_hex_padded(&mut s, summary.final_rip, 16);
    s.append(" final_rsp=");
    push_hex_padded(&mut s, summary.final_rsp, 16);
    s
}

/// The lines about a trace: a summary and its events.
pub fn entry_trace_lines(summary: &EntryTraceSummary) -> (r: Vec<String>)
    ensures
        r@.len() == 1 + summary.events@.len(),
        r@[0]@ == summary_line(*summary, termination_words(summary.termination)),
        forall|k: int|
            0 <= k < summary.events@.len() ==> (#[trigger] r@[k + 1])@ == event_line(
                events_of(summary.events@)[k],
            ),
{
    let words = termination_text(&summary.termination);
    let mut out: Vec<String> = Vec::new();
    out.push(format_summary(summary, words.as_str()));
    let ghost all = events_of(summary.events@);
    let mut i: usize = 0;
    while i < summary.events.len()
        invariant
            i <= summary.events@.len(),
            all == events_of(summary.events@),
            out@.len() == i + 1,
            out@[0]@ == summary_line(*summary, termination_words(summary.termination)),
            forall|k: int| 0 <= k < i ==> (#[trigger] out@[k + 1])@ == event_line(all[k]),
        decreases summary.events@.len() - i,
    {
        assert(all[i as int] == summary.events@[i as int]@);
        out.push(format_entry_trace_event(&summary.events[i]));
        i = i + 1;
        assert forall|k: int| 0 <= k < i implies (#[trigger] out@[k + 1])@ == event_line(all[k]) by {
        }
    }
    out
}

/// A number with spaces before it, up to four characters.
pub open spec fn right4(n: nat) -> Seq<char> {
    if n < 10 {
        "   "@ + dec(n)
    } else if n < 100 {
        "  "@ + dec(n)
    } else if n < 1000 {
        " "@ + dec(n)
    } else {
        dec(n)
    }
}

/// A number that may be absent, as `{:?}` writes it.
pub open spec fn optional_number(v: Option<u64>) -> Seq<char> {
    match v {
        Some(n) => "Some("@ + dec(n as nat) + ")"@,
        None => "None"@,
    }
}

/// An event in a line of the report about a small program.
pub open spec fn micro_event_line(e: ApiEvent) -> Seq<char> {
    "  ["@ + right4(e.index as nat) + "] "@ + e.library + "!"@ + e.name + " handled="@ + (
    if e.handled {
        "true"@
    } else {
        "false"@
    }) + " ret="@ + optional_number(e.return_value)
}

/// Formats an event for the report about a small program.
pub fn format_micro_event(event: &EntryTraceEvent) -> (s: String)
    ensures
        s@ == micro_event_line(event@),
{
    let mut s = "  [".to_owned();
    let ghost before = s@;
    let n: u64 = event.index as u64;
    if n < 10 {
        s.append("   ");
    } else if n < 100 {
        s.append("  ");
    } else if n < 1000 {
        s.append(" ");
    }
    push_dec(&mut s, n);
    assert(s@ =~= before + right4(n as nat));
    s.append("] ");
    s.append(event.library.as_str());
    s.append("!");
    s.append(event.name.as_str());
    s.append(" handled=");
    if event.handled {
        s.append("true");
    } else {
        s.append("false");
    }
    s.append(" ret=");
    let ghost front = s@;
    match event.return_value {
        Some(v) => {
            s.append("Some(");
            push_dec(&mut s, v);
            s.append(")");
        },
        None => {
            s.append("None");
        },
    }
    assert(s@ =~= front + optional_number(event.return_value));
    s
}

/// The lines before the events in the report about a small program.
pub open spec fn micro_header(s: MicroRunSummary, words: Seq<char>) -> Seq<Seq<char>> {
    seq![
        "run_micro: path="@ + s.path@,
        "cpu_backend: "@ + s.cpu_backend@,
        "entry="@ + address(s.entry_point_va) + " initial_rsp="@ + address(s.initial_rsp),
        "events="@ + dec(s.run.events@.len()) + " termination="@ + words,
    ]
}

/// The strings of a list.
pub open spec fn texts(v: Seq<String>) -> Seq<Seq<char>> {
    v.map_values(|s: String| s@)
}

/// Formats the lines before the events in the report about a small program.
pub fn format_micro_header(summary: &MicroRunSummary, words: &str) -> (r: Vec<String>)
    ensures
        texts(r@) == micro_header(*summary, words@),
{
    let mut out: Vec<String> = Vec::new();
    let mut path = "run_micro: path=".to_owned();
    path.append(summary.path.as_str());
    out.push(path);
    let mut backend = "cpu_backend: ".to_owned();
    backend.append(summary.cpu_backend.as_str());
    out.push(backend);
    let mut entry = "entry=".to_owned();
    push_hex_padded(&mut entry, summary.entry_point_va, 16);
    entry.append(" initial_rsp=");
    push_hex_padded(&mut entry, summary.initial_rsp, 16);
    out.push(entry);
    let mut events = "events=".to_owned();
    push_dec(&mut events, summary.run.events.len() as u64);
    events.append(" termination=");
    events.append(words);
    out.push(events);
    assert(texts(out@) =~= micro_header(*summary, words@));
    out
}

/// The lines of the report about a small program.
pub fn micro_report(summary: &MicroRunSummary) -> (r: Vec<String>)
    ensures
        texts(r@) == micro_header(*summary, termination_words(summary.run.termination))
            + events_of(summary.run.events@).map_values(|e: ApiEvent| micro_event_line(e)),
{
    let words = termination_text(&summary.run.termination);
    let mut out = format_micro_header(summary, words.as_str());
    let ghost header = texts(out@);
    let ghost lines = events_of(summary.run.events@).map_values(|e: ApiEvent| micro_event_line(e));
    let mut i: usize = 0;
    assert(texts(out@) =~= header + lines.take(0));
    while i < summary.run.events.len()
        invariant
            i <= summary.run.events@.len(),
            lines == events_of(summary.run.events@).map_values(|e: ApiEvent| micro_event_line(e)),
            texts(out@) == header + lines.take(i as int),
        decreases summary.run.events@.len() - i,
    {
        let ghost before = out@;
        let line = format_micro_event(&summary.run.events[i]);
        proof {
            assert(lines[i as int] == line@);
            assert(lines.take(i + 1) =~= lines.take(i as int).push(line@));
        }
        out.push(line);
        i = i + 1;
        assert(texts(out@) =~= texts(before).push(line@));
        assert(texts(out@) =~= header + lines.take(i as int));
    }
    assert(lines.take(summary.run.events@.len() as int) =~= lines);
    out
}

/// The verdict on a run of a small program that should end with a code, given the
/// words for how it ended: a line to print, or an error.
pub open spec fn verdict(exit_code: Option<u32>, expected: u32, words: Seq<char>) -> Result<
    Seq<char>,
    Seq<char>,
> {
    match exit_code {
        Some(code) => if code == expected {
            Ok("run_micro: ok exit="@ + dec(code as nat))
        } else {
            Err("run_micro: exit="@ + dec(code as nat) + " expected="@ + dec(expected as nat))
        },
        None => Err("run_micro: did not reach ExitProcess (termination="@ + words + ")"@),
    }
}

/// The verdict on a run of a small program.
pub fn judge(exit_code: Option<u32>, expected: u32, words: &str) -> (r: Result<String, String>)
    ensures
        match verdict(exit_code, expected, words@) {
            Ok(t) => r matches Ok(s) && s@ == t,
            Err(t) => r matches Err(s) && s@ == t,
        },
{
    match exit_code {
        Some(code) => if code == expected {
            let mut s = "run_micro: ok exit=".to_owned();
            push_dec(&mut s, code as u64);
            Ok(s)
        } else {
            let mut s = "run_micro: exit=".to_owned();
            push_dec(&mut s, code as u64);
            s.append(" expected=");
            push_dec(&mut s, expected as u64);
            Err(s)
        },
        None => {
            let mut s = "run_micro: did not reach ExitProcess (termination=".to_owned();
            s.append(words);
            s.append(")");
            Err(s)
        },
    }
}

/// The verdict on a run of a small program that should end with a code.
pub fn micro_verdict(summary: &MicroRunSummary, expected: u32) -> (r: Result<String, String>)
    ensures
        match verdict(summary.exit_code, expected, termination_words(summary.run.termination)) {
            Ok(t) => r matches Ok(s) && s@ == t,
            Err(t) => r matches Err(s) && s@ == t,
        },
{
    let words = termination_text(&summary.run.termination);
    judge(summary.exit_code, expected, words.as_str())
}

} // verus!
