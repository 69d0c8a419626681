//! Windows and files of the guest: which ones a scenario drives.

use vstd::prelude::*;
use vstd::string::StrSliceExecFns;

use crate::ascii::{lower, lower_char};

verus! {

/// A window of the guest.
#[derive(Debug)]
pub struct GuestWindow {
    /// Handle.
    pub handle: u64,
    /// Name of its class.
    pub class: String,
    /// Title.
    pub title: String,
    /// Whether the guest has a procedure for it.
    pub has_proc: bool,
}

/// A window as a mathematical value.
pub struct Window {
    /// Handle.
    pub handle: u64,
    /// Name of its class.
    pub class: Seq<char>,
    /// Title.
    pub title: Seq<char>,
    /// Whether the guest has a procedure for it.
    pub has_proc: bool,
}

impl View for GuestWindow {
    type V = Window;

    open spec fn view(&self) -> Window {
        Window {
            handle: self.handle,
            class: self.class@,
            title: self.title@,
            has_proc: self.has_proc,
        }
    }
}

/// The windows of a list.
pub open spec fn windows_of(v: Seq<GuestWindow>) -> Seq<Window> {
    v.map_values(|w: GuestWindow| w@)
}

/// A string contains another.
pub open spec fn contains(s: Seq<char>, part: Seq<char>) -> bool {
    exists|i: int|
        0 <= i <= s.len() - part.len() && #[trigger] s.subrange(i, i + part.len()) == part
}

/// An ASCII upper case letter in lower case.
fn lower_of(c: char) -> (r: char)
    ensures
        r == lower_char(c),
{
    if 'A' <= c && c <= 'Z' {
        (c as u8 + 32) as char
    } else {
        c
    }
}

/// The characters of a string, with its ASCII letters in lower case.
fn lowered(s: &str) -> (r: Vec<char>)
    ensures
        r@ == lower(s@),
{
    let n: usize = s.unicode_len();
    let mut out: Vec<char> = Vec::new();
    let mut i: usize = 0;
    while i < n
        invariant
            i <= n,
            n == s@.len(),
            out@.len() == i,
            forall|k: int| 0 <= k < i ==> #[trigger] out@[k] == lower_char(s@[k]),
        decreases n - i,
    {
        out.push(lower_of(s.get_char(i)));
        i = i + 1;
    }
    assert(out@ =~= lower(s@));
    out
}

/// Whether the characters from `at` on are those of `part`.
fn matches_at(s: &Vec<char>, part: &Vec<char>, at: usize) -> (r: bool)
    requires
        at + part@.len() <= s@.len(),
    ensures
        r == (s@.subrange(at as int, at + part@.len()) == part@),
{
    let end: usize = s.len();
    let ghost here = s@.subrange(at as int, at + part@.len());
    let mut k: usize = 0;
    while k < part.len()
        invariant
            k <= part@.len(),
            end == s@.len(),
            at + part@.len() <= end,
            here == s@.subrange(at as int, at + part@.len()),
            forall|j: int| 0 <= j < k ==> here[j] == part@[j],
        decreases part@.len() - k,
    {
        if s[at + k] != part[k] {
            assert(here[k as int] != part@[k as int]);
            return false;
        }
        k = k + 1;
    }
    assert(here =~= part@);
    true
}

/// Whether one string contains another.
fn has_part(s: &Vec<char>, part: &Vec<char>) -> (r: bool)
    ensures
        r == contains(s@, part@),
{
    if part.len() > s.len() {
        return false;
    }
    let last: usize = s.len() - part.len();
    let mut i: usize = 0;
    while i < last
        invariant
            last == s@.len() - part@.len(),
            i <= last,
            forall|j: int|
                0 <= j < i ==> #[trigger] s@.subrange(j, j + part@.len()) != part@,
        decreases last - i,
    {
        if matches_at(s, part, i) {
            return true;
        }
        i = i + 1;
    }
    matches_at(s, part, last)
}

/// A string contains another, whatever the case of its ASCII letters.
pub open spec fn mentions(s: Seq<char>, part: Seq<char>) -> bool {
    contains(lower(s), lower(part))
}

/// Whether a string contains another, whatever the case of its ASCII letters.
pub fn mentions_text(s: &str, part: &str) -> (r: bool)
    ensures
        r == mentions(s@, part@),
{
    let a = lowered(s);
    let b = lowered(part);
    has_part(&a, &b)
}

/// A window looks like the editor's.
pub open spec fn looks_like_editor(w: Window) -> bool {
    mentions(w.class, "smw"@) || mentions(w.class, "leveleditor"@) || mentions(w.title, "level"@)
        || mentions(w.title, "smw"@)
}

/// Whether a window looks like the editor's.
fn is_editor(w: &GuestWindow) -> (r: bool)
    ensures
        r == looks_like_editor(w@),
{
    mentions_text(w.class.as_str(), "smw") || mentions_text(w.class.as_str(), "leveleditor")
        || mentions_text(w.title.as_str(), "level") || mentions_text(w.title.as_str(), "smw")
}

/// Whether some window looks like the editor's.
pub fn saw_level_editor_window(windows: &[GuestWindow]) -> (r: bool)
    ensures
        r == exists|k: int|
            0 <= k < windows@.len() && looks_like_editor((#[trigger] windows@[k])@),
{
    let mut i: usize = 0;
    while i < windows.len()
        invariant
            i <= windows@.len(),
            forall|k: int| 0 <= k < i ==> !looks_like_editor((#[trigger] windows@[k])@),
        decreases windows@.len() - i,
    {
        if is_editor(&windows[i]) {
            return true;
        }
        i = i + 1;
    }
    false
}

/// The windows `done`, and after them those of `more` that have a procedure and are
/// not among them.
pub open spec fn candidates(done: Seq<u64>, more: Seq<Window>) -> Seq<u64>
    decreases more.len(),
{
    if more.len() == 0 {
        done
    } else if more[0].has_proc && !done.contains(more[0].handle) {
        candidates(done.push(more[0].handle), more.skip(1))
    } else {
        candidates(done, more.skip(1))
    }
}

/// The windows to start with.
pub open spec fn preferred_first(preferred: Option<u64>) -> Seq<u64> {
    match preferred {
        Some(h) => seq![h],
        None => Seq::empty(),
    }
}

/// Whether a handle is in a list.
fn lists(handles: &Vec<u64>, h: u64) -> (r: bool)
    ensures
        r == handles@.contains(h),
{
    let mut i: usize = 0;
    while i < handles.len()
        invariant
            i <= handles@.len(),
            forall|k: int| 0 <= k < i ==> handles@[k] != h,
        decreases handles@.len() - i,
    {
        if handles[i] == h {
            return true;
        }
        i = i + 1;
    }
    false
}

/// The windows to try for a command: the preferred one first, then those that have
/// a procedure.
pub fn command_window_candidates(preferred: Option<u64>, windows: &[GuestWindow]) -> (r: Vec<u64>)
    ensures
        r@ == candidates(preferred_first(preferred), windows_of(windows@)),
{
    let ghost all = windows_of(windows@);
    let mut out: Vec<u64> = Vec::new();
    if let Some(h) = preferred {
        out.push(h);
    }
    assert(out@ =~= preferred_first(preferred));
    assert(all.skip(0) =~= all);
    let mut i: usize = 0;
    while i < windows.len()
        invariant
            i <= windows@.len(),
            all == windows_of(windows@),
            candidates(preferred_first(preferred), all) == candidates(out@, all.skip(i as int)),
        decreases windows@.len() - i,
    {
        let w = &windows[i];
        proof {
            assert(all.skip(i as int)[0] == w@);
            assert(all.skip(i as int).skip(1) =~= all.skip(i + 1));
        }
        if w.has_proc && !lists(&out, w.handle) {
            out.push(w.handle);
        }
        i = i + 1;
    }
    out
}

/// No window is tried twice.
pub proof fn candidates_are_distinct(done: Seq<u64>, more: Seq<Window>)
    requires
        done.no_duplicates(),
    ensures
        candidates(done, more).no_duplicates(),
    decreases more.len(),
{
    if more.len() > 0 {
        if more[0].has_proc && !done.contains(more[0].handle) {
            let next = done.push(more[0].handle);
            assert(next.no_duplicates()) by {
                assert forall|a: int, b: int|
                    0 <= a < next.len() && 0 <= b < next.len() && a != b implies next[a]
                    != next[b] by {
                    if a == done.len() {
                        assert(done.contains(next[b]));
                    }
                    if b == done.len() {
                        assert(done.contains(next[a]));
                    }
                }
            }
            candidates_are_distinct(next, more.skip(1));
        } else {
            candidates_are_distinct(done, more.skip(1));
        }
    }
}

/// The handles of the windows that pass a test, after `done`.
pub open spec fn handles_where(
    done: Seq<u64>,
    windows: Seq<Window>,
    keep: spec_fn(Window) -> bool,
) -> Seq<u64>
    decreases windows.len(),
{
    if windows.len() == 0 {
        done
    } else if keep(windows[0]) {
        handles_where(done.push(windows[0].handle), windows.skip(1), keep)
    } else {
        handles_where(done, windows.skip(1), keep)
    }
}

/// A window that has a procedure and looks like the editor's.
pub open spec fn is_target(w: Window) -> bool {
    w.has_proc && (looks_like_editor(w) || mentions(w.class, "level"@))
}

/// The windows of the editor, or all that have a procedure if there are none.
pub open spec fn editor_targets(windows: Seq<Window>) -> Seq<u64> {
    let t = handles_where(Seq::empty(), windows, |w: Window| is_target(w));
    if t.len() == 0 {
        handles_where(Seq::empty(), windows, |w: Window| w.has_proc)
    } else {
        t
    }
}

/// The handles of the windows of the editor, or of all that have a procedure.
fn pick_windows(windows: &[GuestWindow], editor: bool) -> (r: Vec<u64>)
    ensures
        editor ==> r@ == handles_where(
            Seq::empty(),
            windows_of(windows@),
            |w: Window| is_target(w),
        ),
        !editor ==> r@ == handles_where(Seq::empty(), windows_of(windows@), |w: Window| w.has_proc),
{
    let ghost all = windows_of(windows@);
    let ghost keep: spec_fn(Window) -> bool = if editor {
        |w: Window| is_target(w)
    } else {
        |w: Window| w.has_proc
    };
    let mut out: Vec<u64> = Vec::new();
    assert(out@ =~= Seq::<u64>::empty());
    assert(all.skip(0) =~= all);
    let mut i: usize = 0;
    while i < windows.len()
        invariant
            i <= windows@.len(),
            all == windows_of(windows@),
            editor ==> keep == (|w: Window| is_target(w)),
            !editor ==> keep == (|w: Window| w.has_proc),
            handles_where(Seq::empty(), all, keep) == handles_where(out@, all.skip(i as int), keep),
        decreases windows@.len() - i,
    {
        let w = &windows[i];
        proof {
            assert(all.skip(i as int)[0] == w@);
            assert(all.skip(i as int).skip(1) =~= all.skip(i + 1));
        }
        let take: bool = w.has_proc && (!editor || is_editor(w) || mentions_text(
            w.class.as_str(),
            "level",
        ));
        assert(take == keep(w@));
        if take {
            out.push(w.handle);
        }
        i = i + 1;
    }
    out
}

/// The windows of the editor, or all that have a procedure if there are none.
pub fn level_editor_targets(windows: &[GuestWindow]) -> (r: Vec<u64>)
    ensures
        r@ == editor_targets(windows_of(windows@)),
{
    let targets = pick_windows(windows, true);
    if targets.len() == 0 {
        pick_windows(windows, false)
    } else {
        targets
    }
}

/// A file that the guest has open.
#[derive(Debug)]
pub struct OpenFile {
    /// Handle.
    pub handle: u64,
    /// Path.
    pub path: String,
    /// Size.
    pub size: u64,
}

/// What follows the last `\` or `/` of a path.
pub open spec fn base_name(path: Seq<char>) -> Seq<char>
    decreases path.len(),
{
    if path.len() == 0 || path.last() == '\\' || path.last() == '/' {
        Seq::empty()
    } else {
        base_name(path.drop_last()).push(path.last())
    }
}

/// The base name is the end of the path.
proof fn lemma_base_name(path: Seq<char>, start: int)
    requires
        0 <= start <= path.len(),
        start > 0 ==> path[start - 1] == '\\' || path[start - 1] == '/',
        forall|k: int| start <= k < path.len() ==> path[k] != '\\' && path[k] != '/',
    ensures
        base_name(path) == path.subrange(start, path.len() as int),
    decreases path.len(),
{
    if path.len() == 0 || path.last() == '\\' || path.last() == '/' {
        assert(start == path.len());
        assert(path.subrange(start, path.len() as int) =~= Seq::<char>::empty());
    } else {
        if start == path.len() {
            assert(false);
        }
        lemma_base_name(path.drop_last(), start);
        assert(path.drop_last().subrange(start, path.len() - 1).push(path.last())
            =~= path.subrange(start, path.len() as int));
    }
}

/// The base name of a path.
fn base_of(path: &Vec<char>) -> (r: Vec<char>)
    ensures
        r@ == base_name(path@),
{
    let end: usize = path.len();
    let mut start: usize = end;
    while start > 0 && path[start - 1] != '\\' && path[start - 1] != '/'
        invariant
            start <= end,
            end == path@.len(),
            forall|k: int| start <= k < end ==> path@[k] != '\\' && path@[k] != '/',
        decreases start,
    {
        start = start - 1;
    }
    proof {
        lemma_base_name(path@, start as int);
    }
    let mut out: Vec<char> = Vec::new();
    let mut i: usize = start;
    while i < end
        invariant
            start <= i <= end,
            end == path@.len(),
            out@ == path@.subrange(start as int, i as int),
        decreases end - i,
    {
        out.push(path[i]);
        i = i + 1;
        assert(out@ =~= path@.subrange(start as int, i as int));
    }
    out
}

/// A path names a guest file: it contains the file's path, or the two have the same
/// base name. Case does not matter.
pub open spec fn names_file(path: Seq<char>, guest_path: Seq<char>) -> bool {
    contains(lower(path), lower(guest_path)) || base_name(lower(path)) == base_name(
        lower(guest_path),
    )
}

/// Whether two strings are equal.
fn same_chars(a: &Vec<char>, b: &Vec<char>) -> (r: bool)
    ensures
        r == (a@ == b@),
{
    if a.len() != b.len() {
        return false;
    }
    let r: bool = matches_at(a, b, 0);
    assert(a@.subrange(0, b@.len() as int) =~= a@);
    r
}

/// The first open file that is the guest file with a path.
pub fn find_open_file(files: &[OpenFile], guest_path: &str) -> (r: Option<(u64, u64)>)
    ensures
        match r {
            Some((handle, size)) => exists|k: int|
                0 <= k < files@.len() && (#[trigger] files@[k]).handle == handle && files@[k].size
                    == size && names_file(files@[k].path@, guest_path@) && forall|j: int|
                    0 <= j < k ==> !names_file((#[trigger] files@[j]).path@, guest_path@),
            None => forall|j: int|
                0 <= j < files@.len() ==> !names_file((#[trigger] files@[j]).path@, guest_path@),
        },
{
    let wanted = lowered(guest_path);
    let base = base_of(&wanted);
    let mut i: usize = 0;
    while i < files.len()
        invariant
            i <= files@.len(),
            wanted@ == lower(guest_path@),
            base@ == base_name(lower(guest_path@)),
            forall|j: int|
                0 <= j < i ==> !names_file((#[trigger] files@[j]).path@, guest_path@),
        decreases files@.len() - i,
    {
        let f = &files[i];
        let path = lowered(f.path.as_str());
        let name = base_of(&path);
        if has_part(&path, &wanted) || same_chars(&name, &base) {
            assert(files@[i as int].handle == f.handle);
            return Some((f.handle, f.size));
        }
        i = i + 1;
    }
    None
}

} // verus!
