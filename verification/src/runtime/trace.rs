//! What a run of the guest did, and how it is described.

use vstd::prelude::*;
use vstd::string::StringExecFns;

use crate::runtime::stubs::same;
use crate::text::{dec, push_dec};

verus! {

/// One API event observed during a run.
#[derive(Debug)]
pub struct EntryTraceEvent {
    /// Event index.
    pub index: usize,
    /// Imported library name.
    pub library: String,
    /// Imported function name.
    pub name: String,
    /// Fake API address that was hit.
    pub fake_target_va: u64,
    /// Whether the call was handled.
    pub handled: bool,
    /// Handler return value, if handled.
    pub return_value: Option<u64>,
    /// Address where execution resumed after a handled call.
    pub return_address: Option<u64>,
}

/// An API event as a mathematical value.
pub struct ApiEvent {
    /// Event index.
    pub index: usize,
    /// Imported library name.
    pub library: Seq<char>,
    /// Imported function name.
    pub name: Seq<char>,
    /// Fake API address that was hit.
    pub fake_target_va: u64,
    /// Whether the call was handled.
    pub handled: bool,
    /// Handler return value, if handled.
    pub return_value: Option<u64>,
    /// Address where execution resumed after a handled call.
    pub return_address: Option<u64>,
}

impl View for EntryTraceEvent {
    type V = ApiEvent;

    open spec fn view(&self) -> ApiEvent {
        ApiEvent {
            index: self.index,
            library: self.library@,
            name: self.name@,
            fake_target_va: self.fake_target_va,
            handled: self.handled,
            return_value: self.return_value,
            return_address: self.return_address,
        }
    }
}

/// The events of a list.
pub open spec fn events_of(v: Seq<EntryTraceEvent>) -> Seq<ApiEvent> {
    v.map_values(|e: EntryTraceEvent| e@)
}

/// Reason why a run stopped.
#[derive(Debug)]
pub enum EntryTraceTermination {
    /// The guest ended its process.
    ExitProcess {
        /// Exit code supplied by the guest.
        code: u32,
    },
    /// Execution reached an unsupported API.
    UnsupportedApi(String),
    /// Execution stopped for another diagnostic reason.
    RuntimeStop(String),
    /// The maximum number of API calls was reached.
    ApiLimit,
    /// Execution yielded because the guest waits for a message.
    WaitingForMessage,
    /// Execution stopped before calling back into the guest.
    GuestCallbackRequested {
        /// Description of the requested callback.
        request: String,
    },
}

/// Result of controlled entry-point tracing.
#[derive(Debug)]
pub struct EntryTraceSummary {
    /// PE entry point.
    pub entry_point_va: u64,
    /// Initial stack pointer.
    pub initial_rsp: u64,
    /// Trace events.
    pub events: Vec<EntryTraceEvent>,
    /// Reason why tracing stopped.
    pub termination: EntryTraceTermination,
    /// Final `RIP`.
    pub final_rip: u64,
    /// Final `RSP`.
    pub final_rsp: u64,
}

/// Result of running a session until it yields or stops.
#[derive(Debug)]
pub struct RuntimeRunSummary {
    /// API events observed during this run segment.
    pub events: Vec<EntryTraceEvent>,
    /// Reason why this run segment stopped.
    pub termination: EntryTraceTermination,
    /// Final guest instruction pointer.
    pub final_rip: u64,
    /// Final guest stack pointer.
    pub final_rsp: u64,
}

/// Summary of a run of a small program until it ends its process, or fails to.
#[derive(Debug)]
pub struct MicroRunSummary {
    /// Path that was executed.
    pub path: String,
    /// PE entry point VA.
    pub entry_point_va: u64,
    /// Initial RSP.
    pub initial_rsp: u64,
    /// Guest exit code if the guest ended its process.
    pub exit_code: Option<u32>,
    /// Full run segment.
    pub run: RuntimeRunSummary,
    /// Active CPU backend name.
    pub cpu_backend: String,
}

/// What the formatting `{:?}` of the standard library makes of a string.
pub uninterp spec fn debug_str(s: Seq<char>) -> Seq<char>;

/// Formats a string with `{:?}` of `std::format`. The claim is only that the outcome,
/// which quotes the string and escapes some of its characters, depends on the string
/// alone.
#[verifier::external_body]
fn debug_quoted(s: &str) -> (r: String)
    ensures
        r@ == debug_str(s@),
{
    format!("{s:?}")
}

/// The text that a termination carries.
pub open spec fn carried(t: EntryTraceTermination) -> Seq<char> {
    match t {
        EntryTraceTermination::UnsupportedApi(s) => s@,
        EntryTraceTermination::RuntimeStop(s) => s@,
        _ => Seq::empty(),
    }
}

/// A termination in words, given the quoted form of the text that it carries.
pub open spec fn termination_with(t: EntryTraceTermination, quoted: Seq<char>) -> Seq<char> {
    match t {
        EntryTraceTermination::ExitProcess { code } => "ExitProcess { code: "@ + dec(code as nat)
            + " }"@,
        EntryTraceTermination::UnsupportedApi(_) => "UnsupportedApi("@ + quoted + ")"@,
        EntryTraceTermination::RuntimeStop(_) => "RuntimeStop("@ + quoted + ")"@,
        EntryTraceTermination::ApiLimit => "ApiLimit"@,
        EntryTraceTermination::WaitingForMessage => "WaitingForMessage"@,
        EntryTraceTermination::GuestCallbackRequested { request } =>
            "GuestCallbackRequested { request: "@ + request@ + " }"@,
    }
}

/// A termination in words.
pub open spec fn termination_words(t: EntryTraceTermination) -> Seq<char> {
    termination_with(t, debug_str(carried(t)))
}

/// A termination in words, given the quoted form of the text that it carries.
pub fn describe_termination(t: &EntryTraceTermination, quoted: &str) -> (s: String)
    ensures
        s@ == termination_with(*t, quoted@),
{
    match t {
        EntryTraceTermination::ExitProcess { code } => {
            let mut s = "ExitProcess { code: ".to_owned();
            push_dec(&mut s, *code as u64);
            s.append(" }");
            s
        },
        EntryTraceTermination::UnsupportedApi(_) => {
            let mut s = "UnsupportedApi(".to_owned();
            s.append(quoted);
            s.append(")");
            s
        },
        EntryTraceTermination::RuntimeStop(_) => {
            let mut s = "RuntimeStop(".to_owned();
            s.append(quoted);
            s.append(")");
            s
        },
        EntryTraceTermination::ApiLimit => "ApiLimit".to_owned(),
        EntryTraceTermination::WaitingForMessage => "WaitingForMessage".to_owned(),
        EntryTraceTermination::GuestCallbackRequested { request } => {
            let mut s = "GuestCallbackRequested { request: ".to_owned();
            s.append(request.as_str());
            s.append(" }");
            s
        },
    }
}

/// A termination in words.
pub fn termination_text(t: &EntryTraceTermination) -> (s: String)
    ensures
        s@ == termination_words(*t),
{
    match t {
        EntryTraceTermination::UnsupportedApi(text) => {
            let quoted = debug_quoted(text.as_str());
            describe_termination(t, quoted.as_str())
        },
        EntryTraceTermination::RuntimeStop(text) => {
            let quoted = debug_quoted(text.as_str());
            describe_termination(t, quoted.as_str())
        },
        _ => describe_termination(t, ""),
    }
}

/// The summary of a run from the entry point.
pub fn entry_summary(entry_point_va: u64, initial_rsp: u64, run: RuntimeRunSummary) -> (r:
    EntryTraceSummary)
    ensures
        r == (EntryTraceSummary {
            entry_point_va,
            initial_rsp,
            events: run.events,
            termination: run.termination,
            final_rip: run.final_rip,
            final_rsp: run.final_rsp,
        }),
{
    EntryTraceSummary {
        entry_point_va,
        initial_rsp,
        events: run.events,
        termination: run.termination,
        final_rip: run.final_rip,
        final_rsp: run.final_rsp,
    }
}

/// The exit code of a guest that ended its process.
pub open spec fn exit_code_of(t: EntryTraceTermination) -> Option<u32> {
    match t {
        EntryTraceTermination::ExitProcess { code } => Some(code),
        _ => None,
    }
}

/// The summary of a run of a small program.
pub fn micro_summary(
    path: &str,
    entry_point_va: u64,
    initial_rsp: u64,
    run: RuntimeRunSummary,
    cpu_backend: &str,
) -> (r: MicroRunSummary)
    ensures
        r.path@ == path@,
        r.entry_point_va == entry_point_va,
        r.initial_rsp == initial_rsp,
        r.exit_code == exit_code_of(run.termination),
        r.run == run,
        r.cpu_backend@ == cpu_backend@,
{
    let exit_code = match &run.termination {
        EntryTraceTermination::ExitProcess { code } => Some(*code),
        _ => None,
    };
    MicroRunSummary {
        path: path.to_owned(),
        entry_point_va,
        initial_rsp,
        exit_code,
        run,
        cpu_backend: cpu_backend.to_owned(),
    }
}

/// An event is a handled call of one of two functions of a library.
pub open spec fn is_handled_call(e: ApiEvent, library: Seq<char>, a: Seq<char>, b: Seq<char>) -> bool {
    same(e.library, library) && (same(e.name, a) || same(e.name, b)) && e.handled
}

/// Whether one of two functions of a library was called, and the call handled.
pub open spec fn saw_call(
    events: Seq<ApiEvent>,
    library: Seq<char>,
    a: Seq<char>,
    b: Seq<char>,
) -> bool {
    exists|k: int| 0 <= k < events.len() && is_handled_call(#[trigger] events[k], library, a, b)
}

/// Whether one of two functions of a library was called, and the call handled.
pub fn saw_handled_call(events: &Vec<EntryTraceEvent>, library: &str, a: &str, b: &str) -> (r: bool)
    ensures
        r == saw_call(events_of(events@), library@, a@, b@),
{
    let ghost all = events_of(events@);
    let mut i: usize = 0;
    while i < events.len()
        invariant
            i <= events@.len(),
            all == events_of(events@),
            forall|k: int| 0 <= k < i ==> !is_handled_call(#[trigger] all[k], library@, a@, b@),
        decreases events@.len() - i,
    {
        let e = &events[i];
        assert(all[i as int] == e@);
        if e.library.as_str().eq_ignore_ascii_case(library) && (
        e.name.as_str().eq_ignore_ascii_case(a) || e.name.as_str().eq_ignore_ascii_case(b))
            && e.handled {
            return true;
        }
        i = i + 1;
    }
    false
}

/// An event is a message dispatch that came back with a value and a place to resume
/// at.
pub open spec fn is_completed_dispatch(e: ApiEvent) -> bool {
    same(e.library, "USER32.dll"@) && same(e.name, "DispatchMessageA"@) && e.return_value is Some
        && e.return_address is Some
}

/// Whether a message dispatch completed.
pub open spec fn dispatch_completed(events: Seq<ApiEvent>) -> bool {
    exists|k: int| 0 <= k < events.len() && is_completed_dispatch(#[trigger] events[k])
}

/// Whether a message dispatch completed.
pub fn saw_completed_dispatch(events: &Vec<EntryTraceEvent>) -> (r: bool)
    ensures
        r == dispatch_completed(events_of(events@)),
{
    let ghost all = events_of(events@);
    let mut i: usize = 0;
    while i < events.len()
        invariant
            i <= events@.len(),
            all == events_of(events@),
            forall|k: int| 0 <= k < i ==> !is_completed_dispatch(#[trigger] all[k]),
        decreases events@.len() - i,
    {
        let e = &events[i];
        assert(all[i as int] == e@);
        if e.library.as_str().eq_ignore_ascii_case("USER32.dll")
            && e.name.as_str().eq_ignore_ascii_case("DispatchMessageA") && e.return_value.is_some()
            && e.return_address.is_some() {
            return true;
        }
        i = i + 1;
    }
    false
}

} // verus!
