//! What scripted runs choose, send and accept.

use vstd::prelude::*;

use crate::ascii::{lower, lower_char};
use crate::runtime::report::{right4, verdict};
use crate::runtime::scenario::{
    attempt, callback_error, found_file, input_messages, progress_of, summarizes_open, try_another,
    OpenRomSmokeSummary,
};
use crate::runtime::stubs::same;
use crate::runtime::trace::{
    events_of, exit_code_of, ApiEvent, EntryTraceTermination, RuntimeRunSummary,
};
use crate::runtime::windows::{
    base_name, candidates, contains, editor_targets, handles_where, is_target, looks_like_editor,
    mentions, names_file, preferred_first, GuestWindow, OpenFile, Window,
};
use crate::text::dec;
use crate::text_laws::read;

verus! {

/// A text mentions another if the other, in any spelling, stands somewhere in it.
pub proof fn mentions_stand_somewhere(s: Seq<char>, part: Seq<char>, i: int)
    ensures
        0 <= i <= s.len() - part.len() && same(s.subrange(i, i + part.len()), part) ==> mentions(
            s,
            part,
        ),
        mentions(s, part) ==> exists|j: int|
            0 <= j <= s.len() - part.len() && same(#[trigger] s.subrange(j, j + part.len()), part),
{
    let (a, b) = (lower(s), lower(part));
    assert(a.len() == s.len() && b.len() == part.len());
    if 0 <= i <= s.len() - part.len() && same(s.subrange(i, i + part.len()), part) {
        assert(a.subrange(i, i + b.len()) =~= lower(s.subrange(i, i + part.len())));
    }
    if mentions(s, part) {
        let j = choose|j: int|
            0 <= j <= a.len() - b.len() && #[trigger] a.subrange(j, j + b.len()) == b;
        assert(a.subrange(j, j + b.len()) =~= lower(s.subrange(j, j + part.len())));
        assert(same(s.subrange(j, j + part.len()), part));
    }
}

/// Which windows look like the editor's: by class those that mention `smw` or
/// `leveleditor`, by title those that mention `level` or `smw`.
pub proof fn editors_are_known_by_name(w: Window)
    ensures
        looks_like_editor(w) <==> (mentions(w.class, "smw"@) || mentions(w.class, "leveleditor"@)
            || mentions(w.title, "level"@) || mentions(w.title, "smw"@)),
        is_target(w) <==> w.has_proc && (looks_like_editor(w) || mentions(w.class, "level"@)),
{
}

/// The windows to try for a command: the preferred one comes first, then windows with a
/// procedure, all of them and no others.
pub proof fn all_command_windows_are_tried(preferred: Option<u64>, windows: Seq<Window>, k: int)
    ensures
        ({
            let c = candidates(preferred_first(preferred), windows);
            &&& preferred matches Some(h) ==> c.len() > 0 && c[0] == h
            &&& 0 <= k < windows.len() && windows[k].has_proc ==> c.contains(windows[k].handle)
            &&& forall|j: int|
                0 <= j < c.len() ==> preferred == Some(#[trigger] c[j]) || exists|i: int|
                    0 <= i < windows.len() && (#[trigger] windows[i]).has_proc && windows[i].handle
                        == c[j]
        }),
{
    let first = preferred_first(preferred);
    lemma_candidates(first, windows, k);
    let c = candidates(first, windows);
    if preferred is Some {
        assert(c[0] == first[0]);
    }
    assert forall|j: int| 0 <= j < c.len() implies preferred == Some(#[trigger] c[j]) || exists|
        i: int,
    |
        0 <= i < windows.len() && (#[trigger] windows[i]).has_proc && windows[i].handle == c[j] by {
        if j < first.len() {
            assert(c[j] == first[j]);
        }
    }
}

/// What candidates there are after some.
proof fn lemma_candidates(done: Seq<u64>, more: Seq<Window>, k: int)
    ensures
        ({
            let c = candidates(done, more);
            &&& done.is_prefix_of(c)
            &&& 0 <= k < more.len() && more[k].has_proc ==> c.contains(more[k].handle)
            &&& forall|j: int|
                done.len() <= j < c.len() ==> exists|i: int|
                    0 <= i < more.len() && (#[trigger] more[i]).has_proc && more[i].handle
                        == #[trigger] c[j]
        }),
    decreases more.len(),
{
    if more.len() > 0 {
        let rest = more.skip(1);
        let take = more[0].has_proc && !done.contains(more[0].handle);
        let next = if take {
            done.push(more[0].handle)
        } else {
            done
        };
        let c = candidates(done, more);
        lemma_candidates(next, rest, k - 1);
        if 0 < k < more.len() {
            assert(rest[k - 1] == more[k]);
        }
        if more[0].has_proc {
            assert(next.contains(more[0].handle)) by {
                if take {
                    assert(next[done.len() as int] == more[0].handle);
                }
            }
            let i = choose|i: int| 0 <= i < next.len() && next[i] == more[0].handle;
            assert(c[i] == next[i]);
        }
        assert forall|j: int| done.len() <= j < c.len() implies exists|i: int|
            0 <= i < more.len() && (#[trigger] more[i]).has_proc && more[i].handle
                == #[trigger] c[j] by {
            if j < next.len() {
                assert(c[j] == next[j]);
                assert(more[0].handle == c[j]);
            } else {
                let i = choose|i: int|
                    0 <= i < rest.len() && (#[trigger] rest[i]).has_proc && rest[i].handle == c[j];
                assert(more[i + 1] == rest[i]);
            }
        }
    }
}

/// Some window with the handle is kept.
spec fn kept(windows: Seq<Window>, keep: spec_fn(Window) -> bool, h: u64) -> bool {
    exists|i: int| 0 <= i < windows.len() && keep(#[trigger] windows[i]) && windows[i].handle == h
}

/// The handles of windows that are kept.
proof fn lemma_handles(
    done: Seq<u64>,
    windows: Seq<Window>,
    keep: spec_fn(Window) -> bool,
    k: int,
)
    ensures
        ({
            let c = handles_where(done, windows, keep);
            &&& done.is_prefix_of(c)
            &&& 0 <= k < windows.len() && keep(windows[k]) ==> c.len() > done.len() && c.contains(
                windows[k].handle,
            )
            &&& forall|j: int| done.len() <= j < c.len() ==> kept(windows, keep, #[trigger] c[j])
        }),
    decreases windows.len(),
{
    if windows.len() > 0 {
        let rest = windows.skip(1);
        let next = if keep(windows[0]) {
            done.push(windows[0].handle)
        } else {
            done
        };
        let c = handles_where(done, windows, keep);
        lemma_handles(next, rest, keep, k - 1);
        if 0 < k < windows.len() {
            assert(rest[k - 1] == windows[k]);
        }
        if keep(windows[0]) {
            assert(c[done.len() as int] == next[done.len() as int]);
        }
        assert forall|j: int| done.len() <= j < c.len() implies kept(
            windows,
            keep,
            #[trigger] c[j],
        ) by {
            if j < next.len() {
                assert(c[j] == next[j]);
                assert(windows[0].handle == c[j]);
            } else {
                assert(kept(rest, keep, c[j]));
                let i = choose|i: int|
                    0 <= i < rest.len() && keep(#[trigger] rest[i]) && rest[i].handle == c[j];
                assert(windows[i + 1] == rest[i]);
            }
        }
    }
}

/// The handle is that of a window with a procedure.
pub open spec fn handles_messages(windows: Seq<Window>, h: u64) -> bool {
    exists|i: int|
        0 <= i < windows.len() && (#[trigger] windows[i]).has_proc && windows[i].handle == h
}

/// The handle is that of a window of the editor.
pub open spec fn is_editors(windows: Seq<Window>, h: u64) -> bool {
    exists|i: int|
        0 <= i < windows.len() && is_target(#[trigger] windows[i]) && windows[i].handle == h
}

/// The windows that input goes to: those of the editor where there are any, all of them and
/// no others; elsewhere all windows with a procedure.
pub proof fn input_goes_to_editors(windows: Seq<Window>, k: int)
    requires
        0 <= k < windows.len(),
    ensures
        is_target(windows[k]) ==> editor_targets(windows).contains(windows[k].handle) && forall|
            j: int,
        |
            0 <= j < editor_targets(windows).len() ==> is_editors(
                windows,
                #[trigger] editor_targets(windows)[j],
            ),
        (forall|i: int| 0 <= i < windows.len() ==> !is_target(#[trigger] windows[i]))
            && windows[k].has_proc ==> editor_targets(windows).contains(windows[k].handle),
        forall|j: int|
            0 <= j < editor_targets(windows).len() ==> handles_messages(
                windows,
                #[trigger] editor_targets(windows)[j],
            ),
{
    let none = Seq::<u64>::empty();
    let target = |w: Window| is_target(w);
    let any = |w: Window| w.has_proc;
    lemma_handles(none, windows, target, k);
    lemma_handles(none, windows, any, k);
    let t = handles_where(none, windows, target);
    let all = handles_where(none, windows, any);
    let e = editor_targets(windows);
    assert(e == if t.len() == 0 {
        all
    } else {
        t
    });
    assert forall|j: int| 0 <= j < t.len() implies is_editors(windows, #[trigger] t[j])
        && handles_messages(windows, t[j]) by {
        assert(kept(windows, target, t[j]));
        let i = choose|i: int|
            0 <= i < windows.len() && target(#[trigger] windows[i]) && windows[i].handle == t[j];
        assert(is_target(windows[i]) && windows[i].has_proc);
    }
    assert forall|j: int| 0 <= j < all.len() implies handles_messages(windows, #[trigger] all[j]) by {
        assert(kept(windows, any, all[j]));
        let i = choose|i: int|
            0 <= i < windows.len() && any(#[trigger] windows[i]) && windows[i].handle == all[j];
        assert(windows[i].has_proc);
    }
    if forall|i: int| 0 <= i < windows.len() ==> !is_target(#[trigger] windows[i]) {
        if t.len() > 0 {
            assert(is_editors(windows, t[0]));
        }
    }
}

/// The last part of a path is what follows its last separator of either kind.
pub proof fn base_names_are_last_parts(dir: Seq<char>, name: Seq<char>)
    requires
        dir.len() == 0 || dir.last() == '/' || dir.last() == '\\',
        forall|k: int| 0 <= k < name.len() ==> #[trigger] name[k] != '/' && name[k] != '\\',
    ensures
        base_name(dir + name) == name,
    decreases name.len(),
{
    let path = dir + name;
    if name.len() == 0 {
        assert(path =~= dir);
        assert(base_name(path) =~= name);
    } else {
        let shorter = name.drop_last();
        assert(path.drop_last() =~= dir + shorter);
        assert(path.last() == name.last());
        assert forall|k: int| 0 <= k < shorter.len() implies #[trigger] shorter[k] != '/'
            && shorter[k] != '\\' by {
            assert(name[k] != '/');
        }
        base_names_are_last_parts(dir, shorter);
        assert(name[name.len() - 1] != '/');
        assert(shorter.push(name.last()) =~= name);
    }
}

/// An open file is the one asked for if its path mentions what was asked for, or if both
/// have the same last part in any spelling.
pub proof fn files_are_known_by_name(
    dir: Seq<char>,
    name: Seq<char>,
    asked_dir: Seq<char>,
    asked: Seq<char>,
)
    requires
        dir.len() == 0 || dir.last() == '/' || dir.last() == '\\',
        asked_dir.len() == 0 || asked_dir.last() == '/' || asked_dir.last() == '\\',
        forall|k: int| 0 <= k < name.len() ==> #[trigger] name[k] != '/' && name[k] != '\\',
        forall|k: int| 0 <= k < asked.len() ==> #[trigger] asked[k] != '/' && asked[k] != '\\',
    ensures
        same(name, asked) ==> names_file(dir + name, asked_dir + asked),
        names_file(dir + name, asked_dir + asked) ==> same(name, asked) || mentions(
            dir + name,
            asked_dir + asked,
        ),
        mentions(dir + name, asked_dir + asked) ==> names_file(dir + name, asked_dir + asked),
{
    lemma_lower_parts(dir, name);
    lemma_lower_parts(asked_dir, asked);
}

/// The last part of a path in lower case.
proof fn lemma_lower_parts(dir: Seq<char>, name: Seq<char>)
    requires
        dir.len() == 0 || dir.last() == '/' || dir.last() == '\\',
        forall|k: int| 0 <= k < name.len() ==> #[trigger] name[k] != '/' && name[k] != '\\',
    ensures
        base_name(lower(dir + name)) == lower(name),
{
    assert(lower(dir + name) =~= lower(dir) + lower(name));
    assert(lower(dir).len() == dir.len());
    if dir.len() > 0 {
        assert(lower(dir).last() == lower_char(dir.last()));
    }
    let n = lower(name);
    assert forall|k: int| 0 <= k < n.len() implies #[trigger] n[k] != '/' && n[k] != '\\' by {
        assert(n[k] == lower_char(name[k]));
        assert(name[k] != '/');
    }
    base_names_are_last_parts(lower(dir), n);
}

/// To open a ROM, four menu commands are tried on each window in turn.
pub proof fn four_commands_per_window(handles: Seq<u64>, w: int)
    requires
        0 <= w < handles.len(),
    ensures
        attempt(handles, 4 * w) == (handles[w], 0x238cu32),
        attempt(handles, 4 * w + 1) == (handles[w], 0x238du32),
        attempt(handles, 4 * w + 2) == (handles[w], 0x238eu32),
        attempt(handles, 4 * w + 3) == (handles[w], 0x2391u32),
{
}

/// A call of a function, in either of two spellings for narrow and wide text, was seen and
/// handled.
pub open spec fn was_handled(
    events: Seq<ApiEvent>,
    library: Seq<char>,
    narrow: Seq<char>,
    wide: Seq<char>,
) -> bool {
    exists|k: int|
        0 <= k < events.len() && same((#[trigger] events[k]).library, library) && (same(
            events[k].name,
            narrow,
        ) || same(events[k].name, wide)) && events[k].handled
}

/// A ROM is being opened if the file dialog or the opening of a file was handled; another
/// command is tried only where neither was and the guest waits for messages.
pub proof fn opening_shows_in_calls(run: RuntimeRunSummary)
    ensures
        ({
            let events = events_of(run.events@);
            let dialog = was_handled(
                events,
                "comdlg32.dll"@,
                "GetOpenFileNameA"@,
                "GetOpenFileNameW"@,
            );
            let create = was_handled(events, "KERNEL32.dll"@, "CreateFileA"@, "CreateFileW"@);
            &&& progress_of(run).dialog == dialog
            &&& progress_of(run).create == create
            &&& try_another(run) == (!dialog && !create && run.termination is WaitingForMessage)
        }),
{
    let events = events_of(run.events@);
    let p = progress_of(run);
    if p.dialog {
        let k = choose|k: int|
            0 <= k < events.len() && crate::runtime::trace::is_handled_call(
                #[trigger] events[k],
                "comdlg32.dll"@,
                "GetOpenFileNameA"@,
                "GetOpenFileNameW"@,
            );
        assert(same(events[k].library, "comdlg32.dll"@));
    }
    if p.create {
        let k = choose|k: int|
            0 <= k < events.len() && crate::runtime::trace::is_handled_call(
                #[trigger] events[k],
                "KERNEL32.dll"@,
                "CreateFileA"@,
                "CreateFileW"@,
            );
        assert(same(events[k].library, "KERNEL32.dll"@));
    }
}

/// A callback run is accepted exactly if the guest waits for messages again, no callback is
/// pending, and a dispatch of a message completed with a result and an address to go on at.
pub proof fn callbacks_complete(run: RuntimeRunSummary, depth: usize)
    ensures
        callback_error(run, depth) is None <==> run.termination is WaitingForMessage && depth == 0
            && exists|k: int|
            0 <= k < events_of(run.events@).len() && same(
                (#[trigger] events_of(run.events@)[k]).library,
                "USER32.dll"@,
            ) && same(events_of(run.events@)[k].name, "DispatchMessageA"@) && events_of(
                run.events@,
            )[k].return_value is Some && events_of(run.events@)[k].return_address is Some,
{
    let events = events_of(run.events@);
    if crate::runtime::trace::dispatch_completed(events) {
        let k = choose|k: int|
            0 <= k < events.len() && crate::runtime::trace::is_completed_dispatch(
                #[trigger] events[k],
            );
        assert(same(events[k].library, "USER32.dll"@));
    }
}

/// What is sent: a mouse press and release where the mouse was moved to, three keys, each
/// released after it was pressed, the character of the last, and a paint request at the
/// end.
pub proof fn input_comes_in_pairs()
    ensures
        ({
            let m = input_messages();
            let place = 128 + 0x1_0000 * 96;
            &&& m.len() == 11
            &&& m[0].0 == 0x200 && m[1].0 == 0x201 && m[2].0 == 0x202
            &&& m[0].2 == place && m[1].2 == place && m[2].2 == place
            &&& m[0].1 == 0 && m[1].1 == 1 && m[2].1 == 0
            &&& m[3].0 == 0x100 && m[4].0 == 0x101 && m[3].1 == m[4].1 && m[3].1 == 0x27
            &&& m[5].0 == 0x100 && m[6].0 == 0x101 && m[5].1 == m[6].1 && m[5].1 == 0x28
            &&& m[7].0 == 0x100 && m[9].0 == 0x101 && m[7].1 == m[9].1 && m[7].1 == 'G' as u64
            &&& m[8].0 == 0x102 && m[8].1 == 'g' as u64
            &&& m[3].2 == 1 && m[5].2 == 1 && m[7].2 == 1 && m[8].2 == 1
            &&& m[4].2 == 0xc000_0001 && m[6].2 == 0xc000_0001 && m[9].2 == 0xc000_0001
            &&& m[10].0 == 0xf && m[10].1 == 0 && m[10].2 == 0
        }),
{
}

/// A micro run succeeds exactly if it ended its process with the code that was expected.
pub proof fn runs_are_judged_by_their_code(t: EntryTraceTermination, expected: u32, words: Seq<char>)
    ensures
        verdict(exit_code_of(t), expected, words) is Ok <==> (t matches
            EntryTraceTermination::ExitProcess { code } && code == expected),
        exit_code_of(t) is Some <==> t is ExitProcess,
{
}

/// Numbers of events are right-aligned to four columns, and read back.
pub proof fn numbers_are_aligned(n: nat)
    ensures
        n < 10_000 ==> right4(n).len() == 4,
        n < 10 ==> right4(n).take(3) == "   "@ && right4(n).skip(3) == dec(n),
        10 <= n < 100 ==> right4(n).take(2) == "  "@ && right4(n).skip(2) == dec(n),
        100 <= n < 1000 ==> right4(n).take(1) == " "@ && right4(n).skip(1) == dec(n),
        n >= 1000 ==> right4(n) == dec(n),
{
    reveal_with_fuel(dec, 5);
    reveal_strlit("   ");
    reveal_strlit("  ");
    reveal_strlit(" ");
    let r = right4(n);
    if n < 10 {
        assert(r.take(3) =~= "   "@);
        assert(r.skip(3) =~= dec(n));
    } else if n < 100 {
        assert(r.take(2) =~= "  "@);
        assert(r.skip(2) =~= dec(n));
    } else if n < 1000 {
        assert(r.take(1) =~= " "@);
        assert(r.skip(1) =~= dec(n));
    }
}

/// What is said of an attempt to open a ROM: which calls were seen, the first open file that
/// is the one asked for, with its size, whether the guest waits for messages again, and
/// whether there is an editor window.
pub proof fn open_summaries_say_it_all(
    s: OpenRomSmokeSummary,
    open_run: RuntimeRunSummary,
    files: Seq<OpenFile>,
    windows: Seq<GuestWindow>,
    path: Seq<char>,
    k: int,
)
    requires
        summarizes_open(s, open_run, files, windows, path),
    ensures
        s.open_run == open_run,
        s.saw_get_open_file_name == progress_of(open_run).dialog,
        s.saw_create_file == progress_of(open_run).create,
        s.returned_to_message_loop == open_run.termination is WaitingForMessage,
        0 <= k < files.len() && names_file(files[k].path@, path) && (forall|j: int|
            0 <= j < k ==> !names_file((#[trigger] files[j]).path@, path)) ==> s.rom_handle_open
            && s.rom_handle == Some(files[k].handle) && s.rom_size == Some(files[k].size),
        (forall|j: int| 0 <= j < files.len() ==> !names_file((#[trigger] files[j]).path@, path))
            ==> !s.rom_handle_open && s.rom_handle is None && s.rom_size is None,
        0 <= k < windows.len() && looks_like_editor(windows[k]@) ==> s.saw_level_editor_window,
        (forall|j: int| 0 <= j < windows.len() ==> !looks_like_editor((#[trigger] windows[j])@))
            ==> !s.saw_level_editor_window,
{
    if s.rom_handle is Some {
        let h = s.rom_handle->0;
        let m = choose|m: int| #[trigger]
            found_file(files, path, m) && files[m].handle == h && Some(files[m].size)
                == s.rom_size;
        assert(names_file(files[m].path@, path));
        if 0 <= k < files.len() && names_file(files[k].path@, path) && (forall|j: int|
            0 <= j < k ==> !names_file((#[trigger] files[j]).path@, path)) {
            if m < k {
                assert(!names_file(files[m].path@, path));
            } else if k < m {
                assert(!names_file(files[k].path@, path));
            }
        }
    }
}

} // verus!
