//! Scenarios that drive a guest program through its windows: what to post next, and
//! whether what happened is what was expected.

use vstd::prelude::*;
use vstd::string::StringExecFns;

use crate::runtime::trace::{
    dispatch_completed, events_of, saw_call, saw_completed_dispatch, saw_handled_call,
    termination_text, termination_words, EntryTraceTermination, RuntimeRunSummary,
};
use crate::runtime::windows::{
    command_window_candidates, editor_targets, find_open_file, level_editor_targets,
    looks_like_editor, names_file, saw_level_editor_window, windows_of, GuestWindow, OpenFile,
};
use crate::text::{dec, hex, push_dec, push_hex};

verus! {

/// Message without meaning, which only wakes a message loop.
pub const WM_NULL: u32 = 0x0000;

/// Message of a menu command.
pub const WM_COMMAND: u32 = 0x0111;

/// Message to paint.
pub const WM_PAINT: u32 = 0x000f;

/// Message of a mouse move.
pub const WM_MOUSEMOVE: u32 = 0x0200;

/// Message of a mouse button press.
pub const WM_LBUTTONDOWN: u32 = 0x0201;

/// Message of a mouse button release.
pub const WM_LBUTTONUP: u32 = 0x0202;

/// Message of a key press.
pub const WM_KEYDOWN: u32 = 0x0100;

/// Message of a key release.
pub const WM_KEYUP: u32 = 0x0101;

/// Message of a typed character.
pub const WM_CHAR: u32 = 0x0102;

/// Menu command that opens a ROM.
pub const WIE_MENU_ID_OPEN_ROM: u32 = 0x238c;

/// Number of menu commands that are tried to open a ROM.
pub const OPEN_ROM_COMMANDS: usize = 4;

/// The menu commands that are tried to open a ROM.
pub open spec fn open_rom_command(k: int) -> u32 {
    if k == 0 {
        WIE_MENU_ID_OPEN_ROM
    } else if k == 1 {
        0x238d
    } else if k == 2 {
        0x238e
    } else {
        0x2391
    }
}

/// Why a scenario failed.
#[derive(Debug)]
pub enum ScenarioError {
    /// What went wrong.
    Message(String),
}

impl ScenarioError {
    /// The text of the error.
    pub open spec fn text(self) -> Seq<char> {
        match self {
            ScenarioError::Message(m) => m@,
        }
    }

    /// The message, as it is shown to the user.
    pub fn message(&self) -> (s: &str)
        ensures
            s@ == self.text(),
    {
        match self {
            ScenarioError::Message(m) => m.as_str(),
        }
    }
}

/// An error with a fixed message.
fn failed(message: &str) -> (e: ScenarioError)
    ensures
        e.text() == message@,
{
    ScenarioError::Message(message.to_owned())
}

/// Checks that a run ended because the guest waits for a message. `expected` starts
/// the error's text, and how the run did end finishes it.
pub fn require_waiting(expected: &str, t: &EntryTraceTermination) -> (r: Result<(), ScenarioError>)
    ensures
        r is Ok == t is WaitingForMessage,
        r matches Err(e) ==> e.text() == expected@ + termination_words(*t),
{
    if matches!(t, EntryTraceTermination::WaitingForMessage) {
        return Ok(());
    }
    let mut s = expected.to_owned();
    let words = termination_text(t);
    s.append(words.as_str());
    Err(ScenarioError::Message(s))
}

/// Result of the yield/resume scenario.
#[derive(Debug)]
pub struct PersistentResumeSmokeSummary {
    /// PE entry point.
    pub entry_point_va: u64,
    /// Initial guest stack pointer.
    pub initial_rsp: u64,
    /// First segment, which yields on an empty message queue.
    pub first_run: RuntimeRunSummary,
    /// Second segment, after a message was posted.
    pub resumed_run: RuntimeRunSummary,
}

/// Result of the callback scenario.
#[derive(Debug)]
pub struct PersistentCallbackSmokeSummary {
    /// PE entry point.
    pub entry_point_va: u64,
    /// Initial guest stack pointer.
    pub initial_rsp: u64,
    /// First segment, which yields on an empty message queue.
    pub first_run: RuntimeRunSummary,
    /// Second segment, after a message was posted to a window of the guest.
    pub callback_run: RuntimeRunSummary,
}

/// Checks the first segment of the yield/resume scenario.
pub fn check_resume_start(first: &RuntimeRunSummary) -> (r: Result<(), ScenarioError>)
    ensures
        r is Ok == first.termination is WaitingForMessage,
        r matches Err(e) ==> e.text() == "persistent smoke expected WaitingForMessage, got "@
            + termination_words(first.termination),
{
    require_waiting("persistent smoke expected WaitingForMessage, got ", &first.termination)
}

/// Checks the first segment of the callback scenario, and finds the window that the
/// message is posted to.
pub fn check_callback_start(first: &RuntimeRunSummary, window: Option<u64>) -> (r: Result<
    u64,
    ScenarioError,
>)
    ensures
        !(first.termination is WaitingForMessage) ==> (r matches Err(e) && e.text()
            == "callback smoke expected initial WaitingForMessage, got "@ + termination_words(
            first.termination,
        )),
        first.termination is WaitingForMessage ==> match window {
            Some(h) => r == Ok::<u64, ScenarioError>(h),
            None => r matches Err(e) && e.text()
                == "callback smoke found no window backed by a guest WndProc"@,
        },
{
    match require_waiting(
        "callback smoke expected initial WaitingForMessage, got ",
        &first.termination,
    ) {
        Ok(()) => {},
        Err(e) => {
            return Err(e);
        },
    }
    match window {
        Some(h) => Ok(h),
        None => Err(failed("callback smoke found no window backed by a guest WndProc")),
    }
}

/// What is wrong with the second segment of the callback scenario, after which
/// `depth` callbacks are pending.
pub open spec fn callback_error(run: RuntimeRunSummary, depth: usize) -> Option<Seq<char>> {
    if !(run.termination is WaitingForMessage) {
        Some(
            "callback smoke expected WaitingForMessage after WndProc completed, got "@
                + termination_words(run.termination),
        )
    } else if depth != 0 {
        Some("callback smoke left "@ + dec(depth as nat) + " pending guest callback(s)"@)
    } else if !dispatch_completed(events_of(run.events@)) {
        Some(
            "callback smoke did not observe a completed DispatchMessageA (with LRESULT and resume address) after the guest WndProc"@,
        )
    } else {
        None
    }
}

/// Checks the second segment of the callback scenario: the guest waits again, no
/// callback is pending, and the message was dispatched and came back.
pub fn check_callback_run(run: &RuntimeRunSummary, depth: usize) -> (r: Result<(), ScenarioError>)
    ensures
        match callback_error(*run, depth) {
            Some(t) => r matches Err(e) && e.text() == t,
            None => r is Ok,
        },
{
    match require_waiting(
        "callback smoke expected WaitingForMessage after WndProc completed, got ",
        &run.termination,
    ) {
        Ok(()) => {},
        Err(e) => {
            return Err(e);
        },
    }
    if depth != 0 {
        let mut s = "callback smoke left ".to_owned();
        push_dec(&mut s, depth as u64);
        s.append(" pending guest callback(s)");
        return Err(ScenarioError::Message(s));
    }
    if !saw_completed_dispatch(&run.events) {
        return Err(
            failed(
                "callback smoke did not observe a completed DispatchMessageA (with LRESULT and resume address) after the guest WndProc",
            ),
        );
    }
    Ok(())
}

/// Summary of the scenario that mounts a host file and opens it as the guest would.
#[derive(Debug)]
pub struct RomFilesystemSmokeSummary {
    /// Guest path used for the mount and dialog policy.
    pub guest_path: String,
    /// Host path of the ROM.
    pub host_path: String,
    /// Open handle.
    pub handle: u64,
    /// ROM size in bytes.
    pub size: u64,
    /// First 16 bytes of the ROM.
    pub header_prefix: Vec<u8>,
    /// Whether the message loop is still reached after mounting.
    pub message_loop_yielded: bool,
}

/// How many bytes of a file of that size are looked at.
pub open spec fn prefix_of_file(size: u64) -> int {
    if size <= 16 {
        size as int
    } else {
        16
    }
}

/// All bytes of a small file are looked at, and the first sixteen of others.
pub proof fn prefixes_are_short(size: u64)
    ensures
        prefix_of_file(size) <= 16,
        prefix_of_file(size) <= size,
        prefix_of_file(size) == 16 || prefix_of_file(size) == size,
{
}

/// How many bytes of a file of that size are looked at.
pub fn header_prefix_len(size: u64) -> (n: usize)
    ensures
        n == prefix_of_file(size),
        n == if size < 16 {
            size as int
        } else {
            16
        },
{
    if size < 16 {
        size as usize
    } else {
        16
    }
}

/// Checks that a mounted file is not empty.
pub fn check_rom_not_empty(size: u64, host_path: &str) -> (r: Result<(), ScenarioError>)
    ensures
        r is Ok == (size != 0),
        r matches Err(e) ==> e.text() == "mounted ROM opened with zero size: "@ + host_path@,
{
    if size == 0 {
        let mut s = "mounted ROM opened with zero size: ".to_owned();
        s.append(host_path);
        return Err(ScenarioError::Message(s));
    }
    Ok(())
}

/// Checks that a mounted file has the size of the host's.
pub fn check_rom_size(size: u64, host_size: u64, host_path: &str) -> (r: Result<(), ScenarioError>)
    ensures
        r is Ok == (size == host_size),
        r matches Err(e) ==> e.text() == "mounted ROM size mismatch guest="@ + dec(size as nat)
            + " host="@ + dec(host_size as nat) + " path="@ + host_path@,
{
    if size != host_size {
        let mut s = "mounted ROM size mismatch guest=".to_owned();
        push_dec(&mut s, size);
        s.append(" host=");
        push_dec(&mut s, host_size);
        s.append(" path=");
        s.append(host_path);
        return Err(ScenarioError::Message(s));
    }
    Ok(())
}

/// Checks the run after mounting a file, and summarizes the scenario.
pub fn rom_filesystem_summary(
    guest_path: &str,
    host_path: &str,
    handle: u64,
    size: u64,
    header_prefix: Vec<u8>,
    run: &RuntimeRunSummary,
) -> (r: Result<RomFilesystemSmokeSummary, ScenarioError>)
    ensures
        r is Ok == run.termination is WaitingForMessage,
        r matches Ok(s) ==> s.guest_path@ == guest_path@ && s.host_path@ == host_path@ && s.handle
            == handle && s.size == size && s.header_prefix == header_prefix
            && s.message_loop_yielded,
        r matches Err(e) ==> e.text()
            == "rom fs smoke expected WaitingForMessage after bootstrap, got "@
            + termination_words(run.termination),
{
    match require_waiting(
        "rom fs smoke expected WaitingForMessage after bootstrap, got ",
        &run.termination,
    ) {
        Ok(()) => {},
        Err(e) => {
            return Err(e);
        },
    }
    Ok(
        RomFilesystemSmokeSummary {
            guest_path: guest_path.to_owned(),
            host_path: host_path.to_owned(),
            handle,
            size,
            header_prefix,
            message_loop_yielded: true,
        },
    )
}

/// What opening a ROM needs to have happened in a run.
#[derive(Debug, Clone, Copy, PartialEq, Eq, Structural)]
pub struct OpenProgress {
    /// A file dialog was answered.
    pub dialog: bool,
    /// A file was opened.
    pub create: bool,
}

/// How far a run came with opening a ROM.
pub open spec fn progress_of(run: RuntimeRunSummary) -> OpenProgress {
    OpenProgress {
        dialog: saw_call(
            events_of(run.events@),
            "comdlg32.dll"@,
            "GetOpenFileNameA"@,
            "GetOpenFileNameW"@,
        ),
        create: saw_call(
            events_of(run.events@),
            "KERNEL32.dll"@,
            "CreateFileA"@,
            "CreateFileW"@,
        ),
    }
}

/// How far a run came with opening a ROM.
pub fn open_progress(run: &RuntimeRunSummary) -> (p: OpenProgress)
    ensures
        p == progress_of(*run),
{
    OpenProgress {
        dialog: saw_handled_call(
            &run.events,
            "comdlg32.dll",
            "GetOpenFileNameA",
            "GetOpenFileNameW",
        ),
        create: saw_handled_call(&run.events, "KERNEL32.dll", "CreateFileA", "CreateFileW"),
    }
}

/// The search for a window and a menu command that open a ROM: every command is
/// tried on every window, window by window.
#[derive(Debug)]
pub struct OpenRomSearch {
    handles: Vec<u64>,
    at: usize,
    command: usize,
}

/// The attempt number `k`: a window and a menu command.
pub open spec fn attempt(handles: Seq<u64>, k: int) -> (u64, u32) {
    (handles[k / OPEN_ROM_COMMANDS as int], open_rom_command(k % OPEN_ROM_COMMANDS as int))
}

/// Whether another attempt follows a run: only if the run made no progress and the
/// guest waits for a message.
pub open spec fn try_another(run: RuntimeRunSummary) -> bool {
    !progress_of(run).dialog && !progress_of(run).create && run.termination is WaitingForMessage
}

impl OpenRomSearch {
    /// The windows.
    pub closed spec fn handles(self) -> Seq<u64> {
        self.handles@
    }

    /// The number of the attempt.
    pub closed spec fn number(self) -> int {
        self.at * OPEN_ROM_COMMANDS + self.command
    }

    /// There is such an attempt.
    pub closed spec fn wf(self) -> bool {
        self.at < self.handles@.len() && self.command < OPEN_ROM_COMMANDS
    }

    /// A search that is well-formed is at one of its attempts.
    pub proof fn lemma_number(self)
        requires
            self.wf(),
        ensures
            0 <= self.number() < OPEN_ROM_COMMANDS * self.handles().len(),
    {
        assert(self.at * OPEN_ROM_COMMANDS + OPEN_ROM_COMMANDS <= self.handles@.len()
            * OPEN_ROM_COMMANDS) by (nonlinear_arith)
            requires
                self.at + 1 <= self.handles@.len(),
                OPEN_ROM_COMMANDS == 4,
        ;
    }

    /// Starts the search, unless there are no windows. `scenario` starts the error's
    /// text.
    pub fn new(scenario: &str, preferred: Option<u64>, windows: &[GuestWindow]) -> (r: Result<
        OpenRomSearch,
        ScenarioError,
    >)
        ensures
            ({
                let handles = crate::runtime::windows::candidates(
                    crate::runtime::windows::preferred_first(preferred),
                    windows_of(windows@),
                );
                if handles.len() == 0 {
                    r matches Err(e) && e.text() == scenario@
                        + " found no guest window for WM_COMMAND"@
                } else {
                    r matches Ok(s) && s.wf() && s.handles() == handles && s.number() == 0
                }
            }),
    {
        let handles = command_window_candidates(preferred, windows);
        if handles.len() == 0 {
            let mut s = scenario.to_owned();
            s.append(" found no guest window for WM_COMMAND");
            return Err(ScenarioError::Message(s));
        }
        Ok(OpenRomSearch { handles, at: 0, command: 0 })
    }

    /// The window and the menu command of the attempt.
    pub fn current(&self) -> (r: (u64, u32))
        requires
            self.wf(),
        ensures
            r == attempt(self.handles(), self.number()),
    {
        proof {
            assert(self.number() / OPEN_ROM_COMMANDS as int == self.at);
            assert(self.number() % OPEN_ROM_COMMANDS as int == self.command);
        }
        let id: u32 = match self.command {
            0 => WIE_MENU_ID_OPEN_ROM,
            1 => 0x238d,
            2 => 0x238e,
            _ => 0x2391,
        };
        (self.handles[self.at], id)
    }

    /// Takes note of the run of an attempt, and goes on to the next one if there is one
    /// and the run calls for it.
    pub fn observe(&mut self, run: &RuntimeRunSummary) -> (more: bool)
        requires
            old(self).wf(),
        ensures
            final(self).wf(),
            final(self).handles() == old(self).handles(),
            more == (try_another(*run) && old(self).number() + 1 < OPEN_ROM_COMMANDS * old(self).handles().len()),
            final(self).number() == old(self).number() + if more {
                1int
            } else {
                0int
            },
    {
        let p = open_progress(run);
        if p.dialog || p.create || !matches!(
            run.termination,
            EntryTraceTermination::WaitingForMessage
        ) {
            return false;
        }
        if self.command + 1 < OPEN_ROM_COMMANDS {
            self.command = self.command + 1;
            proof {
                self.lemma_number();
            }
            return true;
        }
        proof {
            let n = self.handles@.len() as int;
            let at = self.at as int;
            assert(self.number() + 1 == 4 * (at + 1));
            assert((at + 1 < n) == (4 * (at + 1) < 4 * n));
        }
        if self.handles.len() - self.at > 1 {
            self.at = self.at + 1;
            self.command = 0;
            return true;
        }
        false
    }
}

/// Every menu command is tried on every window before the search gives up.
pub proof fn every_command_is_tried(handles: Seq<u64>, w: int, c: int)
    requires
        0 <= w < handles.len(),
        0 <= c < OPEN_ROM_COMMANDS,
    ensures
        0 <= w * OPEN_ROM_COMMANDS + c < OPEN_ROM_COMMANDS * handles.len(),
        attempt(handles, w * OPEN_ROM_COMMANDS + c) == (handles[w], open_rom_command(c)),
{
    assert((w * 4 + c) / 4 == w);
    assert((w * 4 + c) % 4 == c);
}

/// Summary of opening a ROM through the menu of the guest.
#[derive(Debug)]
pub struct OpenRomSmokeSummary {
    /// PE entry point.
    pub entry_point_va: u64,
    /// Guest path configured for dialog and mount.
    pub guest_path: String,
    /// Host ROM path.
    pub host_path: String,
    /// Menu command that was posted last.
    pub menu_command_id: u32,
    /// Window that it was posted to.
    pub window_handle: u64,
    /// First segment, which yields on an empty message queue.
    pub first_run: RuntimeRunSummary,
    /// Segment after the command.
    pub open_run: RuntimeRunSummary,
    /// Whether a file dialog was answered during `open_run`.
    pub saw_get_open_file_name: bool,
    /// Whether a file was opened during `open_run`.
    pub saw_create_file: bool,
    /// Whether the ROM is among the open files.
    pub rom_handle_open: bool,
    /// Handle of the ROM if it is open.
    pub rom_handle: Option<u64>,
    /// Size of the ROM if it is open.
    pub rom_size: Option<u64>,
    /// Whether `open_run` came back to the idle message loop.
    pub returned_to_message_loop: bool,
    /// Whether a window looks like the editor's.
    pub saw_level_editor_window: bool,
}

/// An open file was found, and it is the first that is the guest file with a path.
pub open spec fn found_file(files: Seq<OpenFile>, guest_path: Seq<char>, k: int) -> bool {
    &&& 0 <= k < files.len()
    &&& names_file(files[k].path@, guest_path)
    &&& forall|j: int| 0 <= j < k ==> !names_file((#[trigger] files[j]).path@, guest_path)
}

/// A summary says how opening a ROM went.
pub open spec fn summarizes_open(
    s: OpenRomSmokeSummary,
    open_run: RuntimeRunSummary,
    files: Seq<OpenFile>,
    windows: Seq<GuestWindow>,
    guest_path: Seq<char>,
) -> bool {
    &&& s.open_run == open_run
    &&& s.saw_get_open_file_name == progress_of(open_run).dialog
    &&& s.saw_create_file == progress_of(open_run).create
    &&& s.rom_handle_open == s.rom_handle is Some
    &&& s.rom_handle is Some == s.rom_size is Some
    &&& s.rom_handle matches Some(h) ==> exists|k: int| #[trigger]
        found_file(files, guest_path, k) && files[k].handle == h && Some(files[k].size)
            == s.rom_size
    &&& s.rom_handle is None ==> forall|j: int|
        0 <= j < files.len() ==> !names_file((#[trigger] files[j]).path@, guest_path)
    &&& s.returned_to_message_loop == open_run.termination is WaitingForMessage
    &&& s.saw_level_editor_window == exists|k: int|
        0 <= k < windows.len() && looks_like_editor((#[trigger] windows[k])@)
}

/// Summarizes the opening of a ROM from what was seen after the last attempt.
pub fn open_rom_summary(
    entry_point_va: u64,
    guest_path: &str,
    host_path: &str,
    attempted: (u64, u32),
    first_run: RuntimeRunSummary,
    open_run: RuntimeRunSummary,
    files: &[OpenFile],
    windows: &[GuestWindow],
) -> (s: OpenRomSmokeSummary)
    ensures
        s.entry_point_va == entry_point_va,
        s.guest_path@ == guest_path@,
        s.host_path@ == host_path@,
        s.window_handle == attempted.0,
        s.menu_command_id == attempted.1,
        s.first_run == first_run,
        summarizes_open(s, open_run, files@, windows@, guest_path@),
{
    let p = open_progress(&open_run);
    let rom = find_open_file(files, guest_path);
    let returned: bool = matches!(open_run.termination, EntryTraceTermination::WaitingForMessage);
    let editor: bool = saw_level_editor_window(windows);
    let (rom_handle, rom_size) = match rom {
        Some((h, n)) => (Some(h), Some(n)),
        None => (None, None),
    };
    proof {
        if let Some((h, n)) = rom {
            let k = choose|k: int|
                0 <= k < files@.len() && (#[trigger] files@[k]).handle == h && files@[k].size == n
                    && names_file(files@[k].path@, guest_path@) && forall|j: int|
                    0 <= j < k ==> !names_file((#[trigger] files@[j]).path@, guest_path@);
            assert(found_file(files@, guest_path@, k));
        }
    }
    OpenRomSmokeSummary {
        entry_point_va,
        guest_path: guest_path.to_owned(),
        host_path: host_path.to_owned(),
        menu_command_id: attempted.1,
        window_handle: attempted.0,
        first_run,
        open_run,
        saw_get_open_file_name: p.dialog,
        saw_create_file: p.create,
        rom_handle_open: rom_handle.is_some(),
        rom_handle,
        rom_size,
        returned_to_message_loop: returned,
        saw_level_editor_window: editor,
    }
}

/// Checks that a scenario can go on after the ROM was opened: the guest waits for a
/// message, and the run made progress.
pub fn check_opened(scenario: &str, run: &RuntimeRunSummary) -> (r: Result<(), ScenarioError>)
    ensures
        if !(run.termination is WaitingForMessage) {
            r matches Err(e) && e.text() == scenario@
                + " requires open to return to message loop first; got "@ + termination_words(
                run.termination,
            )
        } else if !progress_of(*run).dialog && !progress_of(*run).create {
            r matches Err(e) && e.text() == scenario@ + " saw no open progress before next phase"@
        } else {
            r is Ok
        },
{
    let mut expected = scenario.to_owned();
    expected.append(" requires open to return to message loop first; got ");
    match require_waiting(expected.as_str(), &run.termination) {
        Ok(()) => {},
        Err(e) => {
            return Err(e);
        },
    }
    let p = open_progress(run);
    if !(p.dialog || p.create) {
        let mut s = scenario.to_owned();
        s.append(" saw no open progress before next phase");
        return Err(ScenarioError::Message(s));
    }
    Ok(())
}

/// Checks the first segment of a scenario that opens a ROM.
pub fn check_open_start(scenario: &str, first: &RuntimeRunSummary) -> (r: Result<(), ScenarioError>)
    ensures
        r is Ok == first.termination is WaitingForMessage,
        r matches Err(e) ==> e.text() == scenario@ + " expected initial WaitingForMessage, got "@
            + termination_words(first.termination),
{
    let mut expected = scenario.to_owned();
    expected.append(" expected initial WaitingForMessage, got ");
    require_waiting(expected.as_str(), &first.termination)
}

/// Result of the scenario that paints after opening a ROM.
#[derive(Debug)]
pub struct PostOpenPaintProbeSummary {
    /// How opening went.
    pub open: OpenRomSmokeSummary,
    /// Windows after opening.
    pub windows_after_open: Vec<GuestWindow>,
    /// Windows that were told to paint.
    pub paint_targets: Vec<u64>,
    /// Segment after that.
    pub paint_run: RuntimeRunSummary,
    /// Whether painting began.
    pub saw_begin_paint: bool,
    /// Whether painting ended.
    pub saw_end_paint: bool,
    /// Whether the segment came back to the idle message loop.
    pub returned_to_message_loop: bool,
}

/// Summarizes the scenario that paints after opening a ROM.
pub fn paint_summary(
    open: OpenRomSmokeSummary,
    windows_after_open: Vec<GuestWindow>,
    paint_run: RuntimeRunSummary,
) -> (s: PostOpenPaintProbeSummary)
    ensures
        s.open == open,
        s.windows_after_open == windows_after_open,
        s.paint_targets@ == editor_targets(windows_of(windows_after_open@)),
        s.paint_run == paint_run,
        s.saw_begin_paint == saw_call(
            events_of(paint_run.events@),
            "USER32.dll"@,
            "BeginPaint"@,
            "BeginPaint"@,
        ),
        s.saw_end_paint == saw_call(
            events_of(paint_run.events@),
            "USER32.dll"@,
            "EndPaint"@,
            "EndPaint"@,
        ),
        s.returned_to_message_loop == paint_run.termination is WaitingForMessage,
{
    let paint_targets = level_editor_targets(windows_after_open.as_slice());
    let saw_begin_paint: bool = saw_handled_call(
        &paint_run.events,
        "USER32.dll",
        "BeginPaint",
        "BeginPaint",
    );
    let saw_end_paint: bool = saw_handled_call(
        &paint_run.events,
        "USER32.dll",
        "EndPaint",
        "EndPaint",
    );
    let returned_to_message_loop: bool = matches!(
        paint_run.termination,
        EntryTraceTermination::WaitingForMessage
    );
    PostOpenPaintProbeSummary {
        open,
        windows_after_open,
        paint_targets,
        paint_run,
        saw_begin_paint,
        saw_end_paint,
        returned_to_message_loop,
    }
}

/// A mouse position as a message carries it.
pub open spec fn mouse_position(x: u16, y: u16) -> int {
    y * 0x1_0000 + x
}

/// Both coordinates of a mouse position can be read back: the lower half is the first.
pub proof fn positions_read_back(x: u16, y: u16)
    ensures
        mouse_position(x, y) % 0x1_0000 == x,
        mouse_position(x, y) / 0x1_0000 == y,
{
}

/// A mouse position as a message carries it.
pub fn pack_mouse_lparam(x: u16, y: u16) -> (r: u64)
    ensures
        r == x + 0x1_0000 * y,
        r == mouse_position(x, y),
{
    x as u64 + 0x1_0000 * (y as u64)
}

/// A message that the input scenario posts.
#[derive(Debug, Clone, Copy)]
pub struct InputMessage {
    /// Message number.
    pub message: u32,
    /// First parameter.
    pub wparam: u64,
    /// Second parameter.
    pub lparam: u64,
    /// What it is called.
    pub label: &'static str,
}

/// The messages that the input scenario posts: a click, cursor keys, a letter, and
/// a paint.
pub open spec fn input_messages() -> Seq<(u32, u64, u64, Seq<char>)> {
    let at = (128 + 0x1_0000 * 96) as u64;
    seq![
        (WM_MOUSEMOVE, 0u64, at, "WM_MOUSEMOVE"@),
        (WM_LBUTTONDOWN, 1u64, at, "WM_LBUTTONDOWN"@),
        (WM_LBUTTONUP, 0u64, at, "WM_LBUTTONUP"@),
        (WM_KEYDOWN, 0x27u64, 1u64, "WM_KEYDOWN VK_RIGHT"@),
        (WM_KEYUP, 0x27u64, 0xc000_0001u64, "WM_KEYUP VK_RIGHT"@),
        (WM_KEYDOWN, 0x28u64, 1u64, "WM_KEYDOWN VK_DOWN"@),
        (WM_KEYUP, 0x28u64, 0xc000_0001u64, "WM_KEYUP VK_DOWN"@),
        (WM_KEYDOWN, 0x47u64, 1u64, "WM_KEYDOWN 'G'"@),
        (WM_CHAR, 0x67u64, 1u64, "WM_CHAR 'g'"@),
        (WM_KEYUP, 0x47u64, 0xc000_0001u64, "WM_KEYUP 'G'"@),
        (WM_PAINT, 0u64, 0u64, "WM_PAINT"@),
    ]
}

/// A message with its fields.
fn input(message: u32, wparam: u64, lparam: u64, label: &'static str) -> (m: InputMessage)
    ensures
        (m.message, m.wparam, m.lparam, m.label@) == (message, wparam, lparam, label@),
{
    InputMessage { message, wparam, lparam, label }
}

/// The messages of a list.
pub open spec fn messages_of(v: Seq<InputMessage>) -> Seq<(u32, u64, u64, Seq<char>)> {
    v.map_values(|m: InputMessage| (m.message, m.wparam, m.lparam, m.label@))
}

/// The messages that the input scenario posts.
pub fn input_sequence() -> (r: Vec<InputMessage>)
    ensures
        messages_of(r@) == input_messages(),
{
    let at: u64 = pack_mouse_lparam(128, 96);
    let mut v: Vec<InputMessage> = Vec::new();
    v.push(input(WM_MOUSEMOVE, 0, at, "WM_MOUSEMOVE"));
    v.push(input(WM_LBUTTONDOWN, 1, at, "WM_LBUTTONDOWN"));
    v.push(input(WM_LBUTTONUP, 0, at, "WM_LBUTTONUP"));
    v.push(input(WM_KEYDOWN, 0x27, 1, "WM_KEYDOWN VK_RIGHT"));
    v.push(input(WM_KEYUP, 0x27, 0xc000_0001, "WM_KEYUP VK_RIGHT"));
    v.push(input(WM_KEYDOWN, 0x28, 1, "WM_KEYDOWN VK_DOWN"));
    v.push(input(WM_KEYUP, 0x28, 0xc000_0001, "WM_KEYUP VK_DOWN"));
    v.push(input(WM_KEYDOWN, 0x47, 1, "WM_KEYDOWN 'G'"));
    v.push(input(WM_CHAR, 0x67, 1, "WM_CHAR 'g'"));
    v.push(input(WM_KEYUP, 0x47, 0xc000_0001, "WM_KEYUP 'G'"));
    v.push(input(WM_PAINT, 0, 0, "WM_PAINT"));
    assert(messages_of(v@) =~= input_messages());
    v
}

/// A posted message in words.
pub open spec fn posted_words(target: u64, m: (u32, u64, u64, Seq<char>)) -> Seq<char> {
    "hwnd="@ + hex(target as nat) + " "@ + m.3 + " wparam="@ + hex(m.1 as nat) + " lparam="@ + hex(
        m.2 as nat,
    )
}

/// A posted message in words.
pub fn posted_text(target: u64, m: &InputMessage) -> (s: String)
    ensures
        s@ == posted_words(target, (m.message, m.wparam, m.lparam, m.label@)),
{
    let mut s = "hwnd=".to_owned();
    push_hex(&mut s, target);
    s.append(" ");
    s.append(m.label);
    s.append(" wparam=");
    push_hex(&mut s, m.wparam);
    s.append(" lparam=");
    push_hex(&mut s, m.lparam);
    s
}

/// The window that the input scenario posts to: the first of the editor's.
pub fn input_target(windows: &[GuestWindow]) -> (r: Result<u64, ScenarioError>)
    ensures
        if editor_targets(windows_of(windows@)).len() > 0 {
            r == Ok::<u64, ScenarioError>(editor_targets(windows_of(windows@))[0])
        } else {
            r matches Err(e) && e.text()
                == "post-open input probe found no level-editor target window"@
        },
{
    let targets = level_editor_targets(windows);
    if targets.len() > 0 {
        Ok(targets[0])
    } else {
        Err(failed("post-open input probe found no level-editor target window"))
    }
}

/// Result of the scenario that gives input after opening a ROM.
#[derive(Debug)]
pub struct PostOpenInputProbeSummary {
    /// How opening went.
    pub open: OpenRomSmokeSummary,
    /// Windows after opening.
    pub windows_after_open: Vec<GuestWindow>,
    /// Window that received the input.
    pub input_target: u64,
    /// The posted messages in words.
    pub posted_sequence: Vec<String>,
    /// Segment after the input.
    pub input_run: RuntimeRunSummary,
    /// Whether a message was dispatched.
    pub saw_dispatch: bool,
    /// Whether painting began.
    pub saw_begin_paint: bool,
    /// Whether the segment came back to the idle message loop.
    pub returned_to_message_loop: bool,
}

/// The posted messages in words.
fn posted_texts(target: u64) -> (r: Vec<String>)
    ensures
        r@.len() == input_messages().len(),
        forall|k: int|
            0 <= k < r@.len() ==> (#[trigger] r@[k])@ == posted_words(target, input_messages()[k]),
{
    let v = input_sequence();
    let ghost all = messages_of(v@);
    let mut out: Vec<String> = Vec::new();
    let mut i: usize = 0;
    while i < v.len()
        invariant
            i <= v@.len(),
            all == messages_of(v@),
            out@.len() == i,
            forall|k: int| 0 <= k < i ==> (#[trigger] out@[k])@ == posted_words(target, all[k]),
        decreases v@.len() - i,
    {
        assert(all[i as int] == (v@[i as int].message, v@[i as int].wparam, v@[i as int].lparam, v@[
            i as int
        ].label@));
        out.push(posted_text(target, &v[i]));
        i = i + 1;
    }
    out
}

/// Summarizes the scenario that gives input after opening a ROM.
pub fn input_summary(
    open: OpenRomSmokeSummary,
    windows_after_open: Vec<GuestWindow>,
    input_target: u64,
    input_run: RuntimeRunSummary,
) -> (s: PostOpenInputProbeSummary)
    ensures
        s.open == open,
        s.windows_after_open == windows_after_open,
        s.input_target == input_target,
        s.posted_sequence@.len() == input_messages().len(),
        forall|k: int|
            0 <= k < s.posted_sequence@.len() ==> (#[trigger] s.posted_sequence@[k])@
                == posted_words(input_target, input_messages()[k]),
        s.input_run == input_run,
        s.saw_dispatch == (saw_call(
            events_of(input_run.events@),
            "USER32.dll"@,
            "DispatchMessageA"@,
            "DispatchMessageW"@,
        ) || saw_call(
            events_of(input_run.events@),
            "USER32.dll"@,
            "SendMessageA"@,
            "SendMessageW"@,
        )),
        s.saw_begin_paint == saw_call(
            events_of(input_run.events@),
            "USER32.dll"@,
            "BeginPaint"@,
            "BeginPaint"@,
        ),
        s.returned_to_message_loop == input_run.termination is WaitingForMessage,
{
    let saw_dispatch: bool = saw_handled_call(
        &input_run.events,
        "USER32.dll",
        "DispatchMessageA",
        "DispatchMessageW",
    ) || saw_handled_call(&input_run.events, "USER32.dll", "SendMessageA", "SendMessageW");
    let saw_begin_paint: bool = saw_handled_call(
        &input_run.events,
        "USER32.dll",
        "BeginPaint",
        "BeginPaint",
    );
    let returned_to_message_loop: bool = matches!(
        input_run.termination,
        EntryTraceTermination::WaitingForMessage
    );
    PostOpenInputProbeSummary {
        open,
        windows_after_open,
        input_target,
        posted_sequence: posted_texts(input_target),
        input_run,
        saw_dispatch,
        saw_begin_paint,
        returned_to_message_loop,
    }
}

} // verus!
