//! What reports say: each value stands behind its label.

use vstd::prelude::*;

use crate::exec::step::Stepped;
use crate::iced_cpu::{failure_text, once_text, trace_text};
use crate::regs::Regs;
use crate::runtime::report::{
    address, event_line, micro_event_line, micro_header, optional_address, optional_number,
    summary_line,
};
use crate::runtime::scenario::posted_words;
use crate::runtime::trace::{
    carried, termination_with, ApiEvent, EntryTraceSummary, EntryTraceTermination, MicroRunSummary,
};
use crate::runtime::windows::contains;
use crate::text::{dec, hex, signed_dec};

verus! {

/// What stands between two texts is in the whole.
proof fn lemma_inside(whole: Seq<char>, a: Seq<char>, p: Seq<char>, b: Seq<char>)
    requires
        whole == a + p + b,
    ensures
        contains(whole, p),
{
    let i = a.len() as int;
    assert(whole.subrange(i, i + p.len()) =~= p);
}

/// The line of an event has its number, whether it was handled, its address, what it
/// returned, where the guest went on, and its library and name, in that order.
pub proof fn event_lines_say_it_all(e: ApiEvent)
    ensures
        contains(event_line(e), "api["@ + dec(e.index as nat) + "] "@),
        e.handled ==> contains(event_line(e), "] "@ + "handled"@ + " fake="@),
        !e.handled ==> contains(event_line(e), "] "@ + "unsupported"@ + " fake="@),
        contains(event_line(e), " fake="@ + address(e.fake_target_va) + " ret="@),
        contains(event_line(e), " ret="@ + optional_address(e.return_value) + " resume="@),
        contains(event_line(e), " resume="@ + optional_address(e.return_address) + " "@),
        contains(event_line(e), " "@ + e.library + "!"@),
        contains(event_line(e), "!"@ + e.name),
{
    let none = Seq::<char>::empty();
    let word = if e.handled {
        "handled"@
    } else {
        "unsupported"@
    };
    let line = event_line(e);
    let ret = optional_address(e.return_value);
    let resume = optional_address(e.return_address);
    let fake = address(e.fake_target_va);
    let a1 = "api["@ + dec(e.index as nat);
    let a2 = a1 + "] "@ + word;
    let a3 = a2 + " fake="@ + fake;
    let a4 = a3 + " ret="@ + ret;
    let a5 = a4 + " resume="@ + resume;
    let a6 = a5 + " "@ + e.library;
    assert(line == a6 + "!"@ + e.name);
    assert(line =~= a6 + ("!"@ + e.name) + none);
    lemma_inside(line, a6, "!"@ + e.name, none);
    assert((a6 + "!"@).is_prefix_of(line));
    lemma_label(line, a5, " "@, e.library, "!"@);
    lemma_label(line, a4, " resume="@, resume, " "@);
    lemma_label(line, a3, " ret="@, ret, " resume="@);
    lemma_label(line, a2, " fake="@, fake, " ret="@);
    lemma_label(line, a1, "] "@, word, " fake="@);
    assert(none + "api["@ + dec(e.index as nat) + "] "@ =~= a1 + "] "@);
    lemma_label(line, none, "api["@, dec(e.index as nat), "] "@);
}

/// Addresses have `0x` and sixteen digits; without one there is a dash.
pub proof fn addresses_have_sixteen_digits(v: u64)
    ensures
        address(v).len() == 18,
        address(v).take(2) == seq!['0', 'x'],
        crate::text_laws::read(address(v).skip(2), 16) == v,
        optional_address(Some(v)) == address(v),
        optional_address(None) == "-"@,
        optional_number(None) == "None"@,
        optional_number(Some(v)) == "Some("@ + dec(v as nat) + ")"@,
{
    crate::text_laws::padded_numbers_read_back(v as nat, 16);
    reveal_with_fuel(range, 17);
    lemma_digits(v as nat, 16);
}

/// How many numbers there are of `k` digits in base 16.
spec fn range(k: nat) -> nat
    decreases k,
{
    if k == 0 {
        1
    } else {
        16 * range((k - 1) as nat)
    }
}

/// A number of at most `k` digits has at most `k` digits.
proof fn lemma_digits(n: nat, k: nat)
    requires
        n < range(k),
        k > 0,
    ensures
        crate::text::hex_digits(n).len() <= k,
    decreases k,
{
    if n >= 16 {
        assert(k == 1 ==> range(0) == 1);
        lemma_digits(n / 16, (k - 1) as nat);
    }
}

/// The line of a traced run has the entry point, the stack pointer at the start, how it
/// ended, and where.
pub proof fn summary_lines_say_it_all(s: EntryTraceSummary, words: Seq<char>)
    ensures
        contains(summary_line(s, words), "entry="@ + address(s.entry_point_va)),
        contains(summary_line(s, words), " initial_rsp="@ + address(s.initial_rsp)),
        contains(summary_line(s, words), " termination="@ + words),
        contains(summary_line(s, words), " final_rip="@ + address(s.final_rip)),
        contains(summary_line(s, words), " final_rsp="@ + address(s.final_rsp)),
{
    let none = Seq::<char>::empty();
    let line = summary_line(s, words);
    let p0 = "entry="@ + address(s.entry_point_va);
    let p1 = " initial_rsp="@ + address(s.initial_rsp);
    let p2 = " termination="@ + words;
    let p3 = " final_rip="@ + address(s.final_rip);
    let p4 = " final_rsp="@ + address(s.final_rsp);
    assert(line =~= none + p0 + (p1 + p2 + p3 + p4));
    lemma_inside(line, none, p0, p1 + p2 + p3 + p4);
    assert(line =~= p0 + p1 + (p2 + p3 + p4));
    lemma_inside(line, p0, p1, p2 + p3 + p4);
    assert(line =~= (p0 + p1) + p2 + (p3 + p4));
    lemma_inside(line, p0 + p1, p2, p3 + p4);
    assert(line =~= (p0 + p1 + p2) + p3 + p4);
    lemma_inside(line, p0 + p1 + p2, p3, p4);
    assert(line =~= (p0 + p1 + p2 + p3) + p4 + none);
    lemma_inside(line, p0 + p1 + p2 + p3, p4, none);
}

/// The line of an event of a micro run has its number, library and name, whether it was
/// handled, and what it returned.
pub proof fn micro_lines_say_it_all(e: ApiEvent)
    ensures
        contains(micro_event_line(e), "  ["@ + crate::runtime::report::right4(e.index as nat)),
        contains(micro_event_line(e), "] "@ + e.library + "!"@ + e.name),
        e.handled ==> contains(micro_event_line(e), " handled="@ + "true"@),
        !e.handled ==> contains(micro_event_line(e), " handled="@ + "false"@),
        contains(micro_event_line(e), " ret="@ + optional_number(e.return_value)),
{
    let none = Seq::<char>::empty();
    let line = micro_event_line(e);
    let p0 = "  ["@ + crate::runtime::report::right4(e.index as nat);
    let p1 = "] "@ + e.library + "!"@ + e.name;
    let p2 = " handled="@ + if e.handled {
        "true"@
    } else {
        "false"@
    };
    let p3 = " ret="@ + optional_number(e.return_value);
    assert(line =~= none + p0 + (p1 + p2 + p3));
    lemma_inside(line, none, p0, p1 + p2 + p3);
    assert(line =~= p0 + p1 + (p2 + p3));
    lemma_inside(line, p0, p1, p2 + p3);
    assert(line =~= (p0 + p1) + p2 + p3);
    lemma_inside(line, p0 + p1, p2, p3);
    assert(line =~= (p0 + p1 + p2) + p3 + none);
    lemma_inside(line, p0 + p1 + p2, p3, none);
}

/// The head of a micro run's report: the path, the processor, where the run started, and
/// how many events there were and how it ended.
pub proof fn micro_heads_say_it_all(s: MicroRunSummary, words: Seq<char>)
    ensures
        micro_header(s, words).len() == 4,
        contains(micro_header(s, words)[0], "path="@ + s.path@),
        contains(micro_header(s, words)[1], "cpu_backend: "@ + s.cpu_backend@),
        contains(micro_header(s, words)[2], "entry="@ + address(s.entry_point_va)),
        contains(micro_header(s, words)[2], " initial_rsp="@ + address(s.initial_rsp)),
        contains(micro_header(s, words)[3], "events="@ + dec(s.run.events@.len())),
        contains(micro_header(s, words)[3], " termination="@ + words),
{
    let none = Seq::<char>::empty();
    let h = micro_header(s, words);
    reveal_strlit("run_micro: path=");
    reveal_strlit("run_micro: ");
    reveal_strlit("path=");
    assert(h[0] =~= "run_micro: "@ + ("path="@ + s.path@) + none);
    lemma_inside(h[0], "run_micro: "@, "path="@ + s.path@, none);
    assert(h[1] =~= none + ("cpu_backend: "@ + s.cpu_backend@) + none);
    lemma_inside(h[1], none, "cpu_backend: "@ + s.cpu_backend@, none);
    let a = "entry="@ + address(s.entry_point_va);
    let b = " initial_rsp="@ + address(s.initial_rsp);
    assert(h[2] =~= none + a + b);
    lemma_inside(h[2], none, a, b);
    assert(h[2] =~= a + b + none);
    lemma_inside(h[2], a, b, none);
    let a = "events="@ + dec(s.run.events@.len());
    let b = " termination="@ + words;
    assert(h[3] =~= none + a + b);
    lemma_inside(h[3], none, a, b);
    assert(h[3] =~= a + b + none);
    lemma_inside(h[3], a, b, none);
}

/// What is said of a posted message: the window, the message's name, and its two parameters.
pub proof fn posted_words_say_it_all(target: u64, m: (u32, u64, u64, Seq<char>))
    ensures
        contains(posted_words(target, m), "hwnd="@ + hex(target as nat) + " "@ + m.3),
        contains(posted_words(target, m), " wparam="@ + hex(m.1 as nat)),
        contains(posted_words(target, m), " lparam="@ + hex(m.2 as nat)),
{
    let none = Seq::<char>::empty();
    let line = posted_words(target, m);
    let p0 = "hwnd="@ + hex(target as nat) + " "@ + m.3;
    let p1 = " wparam="@ + hex(m.1 as nat);
    let p2 = " lparam="@ + hex(m.2 as nat);
    assert(line =~= none + p0 + (p1 + p2));
    lemma_inside(line, none, p0, p1 + p2);
    assert(line =~= p0 + p1 + p2);
    lemma_inside(line, p0, p1, p2);
    assert(line =~= (p0 + p1) + p2 + none);
    lemma_inside(line, p0 + p1, p2, none);
}

/// How a run ended, in words: each end has its own, with its code, text or request.
pub proof fn ends_have_words(t: EntryTraceTermination, quoted: Seq<char>)
    ensures
        t matches EntryTraceTermination::ExitProcess { code } ==> termination_with(t, quoted)
            == "ExitProcess { code: "@ + dec(code as nat) + " }"@,
        t is UnsupportedApi ==> termination_with(t, quoted) == "UnsupportedApi("@ + quoted + ")"@,
        t is RuntimeStop ==> termination_with(t, quoted) == "RuntimeStop("@ + quoted + ")"@,
        t is ApiLimit ==> termination_with(t, quoted) == "ApiLimit"@,
        t is WaitingForMessage ==> termination_with(t, quoted) == "WaitingForMessage"@,
        t matches EntryTraceTermination::GuestCallbackRequested { request } ==> termination_with(
            t,
            quoted,
        ) == "GuestCallbackRequested { request: "@ + request@ + " }"@,
        t matches EntryTraceTermination::UnsupportedApi(s) ==> carried(t) == s@,
        t matches EntryTraceTermination::RuntimeStop(s) ==> carried(t) == s@,
{
}

/// The text of a failed run starts with the reason and has each register behind its name,
/// and the trace in brackets at the end.
pub proof fn failures_show_registers(reason: Seq<char>, regs: Regs, trace: Seq<u64>)
    ensures
        ({
            let f = failure_text(reason, regs, trace);
            &&& reason.is_prefix_of(f)
            &&& contains(f, " rax="@ + hex(regs.gpr[0] as nat) + " rbx="@)
            &&& contains(f, " rbx="@ + hex(regs.gpr[3] as nat) + " rcx="@)
            &&& contains(f, " rcx="@ + hex(regs.gpr[1] as nat) + " rdx="@)
            &&& contains(f, " rdx="@ + hex(regs.gpr[2] as nat) + " rsp="@)
            &&& contains(f, " rsp="@ + hex(regs.gpr[4] as nat) + " rbp="@)
            &&& contains(f, " rbp="@ + hex(regs.gpr[5] as nat) + " rsi="@)
            &&& contains(f, " rsi="@ + hex(regs.gpr[6] as nat) + " rdi="@)
            &&& contains(f, " rdi="@ + hex(regs.gpr[7] as nat) + " r8="@)
            &&& contains(f, " r8="@ + hex(regs.gpr[8] as nat) + " r9="@)
            &&& contains(f, " r9="@ + hex(regs.gpr[9] as nat) + " r12="@)
            &&& contains(f, " r12="@ + hex(regs.gpr[12] as nat) + " r13="@)
            &&& contains(f, " r13="@ + hex(regs.gpr[13] as nat) + " r14="@)
            &&& contains(f, " r14="@ + hex(regs.gpr[14] as nat) + " r15="@)
            &&& contains(f, " r15="@ + hex(regs.gpr[15] as nat) + "; iced_rip_trace=["@)
            &&& contains(f, "; iced_rip_trace=["@ + trace_text(trace) + "]"@)
        }),
{
    let f = failure_text(reason, regs, trace);
    let none = Seq::<char>::empty();
    reveal_strlit("; iced_regs rax=");
    reveal_strlit("; iced_regs");
    reveal_strlit(" rax=");
    assert("; iced_regs rax="@ =~= "; iced_regs"@ + " rax="@);
    let a0 = reason + "; iced_regs"@;
    let a1 = a0 + " rax="@ + hex(regs.gpr[0] as nat);
    let a2 = a1 + " rbx="@ + hex(regs.gpr[3] as nat);
    let a3 = a2 + " rcx="@ + hex(regs.gpr[1] as nat);
    let a4 = a3 + " rdx="@ + hex(regs.gpr[2] as nat);
    let a5 = a4 + " rsp="@ + hex(regs.gpr[4] as nat);
    let a6 = a5 + " rbp="@ + hex(regs.gpr[5] as nat);
    let a7 = a6 + " rsi="@ + hex(regs.gpr[6] as nat);
    let a8 = a7 + " rdi="@ + hex(regs.gpr[7] as nat);
    let a9 = a8 + " r8="@ + hex(regs.gpr[8] as nat);
    let a10 = a9 + " r9="@ + hex(regs.gpr[9] as nat);
    let a11 = a10 + " r12="@ + hex(regs.gpr[12] as nat);
    let a12 = a11 + " r13="@ + hex(regs.gpr[13] as nat);
    let a13 = a12 + " r14="@ + hex(regs.gpr[14] as nat);
    let a14 = a13 + " r15="@ + hex(regs.gpr[15] as nat);
    assert(a1 =~= reason + "; iced_regs rax="@ + hex(regs.gpr[0] as nat));
    assert(f == a14 + "; iced_rip_trace=["@ + trace_text(trace) + "]"@);
    let end = "; iced_rip_trace=["@ + trace_text(trace) + "]"@;
    assert(f =~= a14 + end + none);
    lemma_inside(f, a14, end, none);
    assert((a14 + "; iced_rip_trace=["@).is_prefix_of(f));
    assert(a14.is_prefix_of(f));
    lemma_label(f, a13, " r15="@, hex(regs.gpr[15] as nat), "; iced_rip_trace=["@);
    lemma_label(f, a12, " r14="@, hex(regs.gpr[14] as nat), " r15="@);
    lemma_label(f, a11, " r13="@, hex(regs.gpr[13] as nat), " r14="@);
    lemma_label(f, a10, " r12="@, hex(regs.gpr[12] as nat), " r13="@);
    lemma_label(f, a9, " r9="@, hex(regs.gpr[9] as nat), " r12="@);
    lemma_label(f, a8, " r8="@, hex(regs.gpr[8] as nat), " r9="@);
    lemma_label(f, a7, " rdi="@, hex(regs.gpr[7] as nat), " r8="@);
    lemma_label(f, a6, " rsi="@, hex(regs.gpr[6] as nat), " rdi="@);
    lemma_label(f, a5, " rbp="@, hex(regs.gpr[5] as nat), " rsi="@);
    lemma_label(f, a4, " rsp="@, hex(regs.gpr[4] as nat), " rbp="@);
    lemma_label(f, a3, " rdx="@, hex(regs.gpr[2] as nat), " rsp="@);
    lemma_label(f, a2, " rcx="@, hex(regs.gpr[1] as nat), " rdx="@);
    lemma_label(f, a1, " rbx="@, hex(regs.gpr[3] as nat), " rcx="@);
    lemma_label(f, a0, " rax="@, hex(regs.gpr[0] as nat), " rbx="@);
    assert(reason.is_prefix_of(a0));
}

/// A value behind its label and before the next one, and the text up to them.
proof fn lemma_label(f: Seq<char>, a: Seq<char>, l: Seq<char>, v: Seq<char>, next: Seq<char>)
    requires
        (a + l + v + next).is_prefix_of(f),
    ensures
        contains(f, l + v + next),
        (a + l).is_prefix_of(f),
        a.is_prefix_of(f),
{
    let whole = a + l + v + next;
    let rest = f.skip(whole.len() as int);
    assert(f =~= whole + rest);
    assert(f =~= a + (l + v + next) + rest);
    lemma_inside(f, a, l + v + next, rest);
    assert((a + l) =~= f.take((a + l).len() as int));
    assert(a =~= f.take(a.len() as int));
}

/// One step in words: nothing where it went on, else where and why it did not.
pub proof fn steps_have_words(what: Stepped)
    ensures
        what is Continue <==> once_text(what) is None,
        what matches Stepped::HostStop(a, size) ==> once_text(what) == Some(
            "host_stop at "@ + hex(a as nat),
        ),
        what matches Stepped::Failed(m) ==> once_text(what) == Some(m),
        what matches Stepped::Invalid(inv) ==> {
            &&& contains(
                once_text(what)->0,
                "invalid memory "@ + signed_dec(inv.access_type as int),
            )
            &&& contains(once_text(what)->0, " at "@ + hex(inv.address as nat))
            &&& contains(once_text(what)->0, " size="@ + signed_dec(inv.size as int))
        },
{
    match what {
        Stepped::Invalid(inv) => {
            let none = Seq::<char>::empty();
            let line = once_text(what)->0;
            let p0 = "invalid memory "@ + signed_dec(inv.access_type as int);
            let p1 = " at "@ + hex(inv.address as nat);
            let p2 = " size="@ + signed_dec(inv.size as int);
            assert(line =~= none + p0 + (p1 + p2));
            lemma_inside(line, none, p0, p1 + p2);
            assert(line =~= p0 + p1 + p2);
            lemma_inside(line, p0, p1, p2);
            assert(line =~= (p0 + p1) + p2 + none);
            lemma_inside(line, p0 + p1, p2, none);
        },
        _ => {},
    }
}

/// A trace is its addresses in order, with arrows between them.
pub proof fn traces_are_in_order(trace: Seq<u64>, rip: u64)
    ensures
        trace_text(seq![rip]) == hex(rip as nat),
        trace.len() > 0 ==> trace_text(trace.push(rip)) == trace_text(trace) + " → "@ + hex(
            rip as nat,
        ),
        trace_text(Seq::empty()) == Seq::<char>::empty(),
{
    assert(trace.push(rip).drop_last() =~= trace);
}

} // verus!
