//! Registration of fake API addresses, and what an address at which the guest
//! stopped stands for.

use vstd::prelude::*;

use std::collections::HashSet;

use crate::runtime::names::{com_method_name, method_name, ComInterface};
use crate::runtime::stubs::{classify_guest_stub, guest_stub, same, GuestStubKind};

verus! {

/// How calls of an export are handled.
#[derive(Debug, Clone, Copy, PartialEq, Eq, Structural)]
pub struct WinApiTraits {
    /// Ends the process.
    pub exit_process: bool,
    /// Is answered inside the guest.
    pub guest_stub: bool,
    /// Is too frequent to be traced.
    pub noisy: bool,
    /// Further traits, one per bit, which are carried along.
    pub other: u32,
}

/// No traits.
pub open spec fn no_traits() -> WinApiTraits {
    WinApiTraits { exit_process: false, guest_stub: false, noisy: false, other: 0 }
}

impl Default for WinApiTraits {
    fn default() -> (r: Self)
        ensures
            r == no_traits(),
    {
        WinApiTraits { exit_process: false, guest_stub: false, noisy: false, other: 0 }
    }
}

/// An export that has a handler.
#[derive(Debug, Clone, Copy, PartialEq, Eq, Structural)]
pub struct WinApi {
    /// Dense number of the handler.
    pub id: u16,
    /// How calls are handled.
    pub traits: WinApiTraits,
}

/// What is known of an imported function: its handler, if it has one, and whether
/// its library is one of the C runtime.
#[derive(Debug, Clone, Copy, PartialEq, Eq, Structural)]
pub struct ApiFacts {
    /// The handler.
    pub api: Option<WinApi>,
    /// Whether the library is one of the C runtime.
    pub ucrt: bool,
}

/// Runtime fake API dispatch entry.
#[derive(Debug)]
pub struct RuntimeFakeApiEntry {
    /// Fake API target virtual address.
    pub fake_target_va: u64,
    /// Imported library name.
    pub library: String,
    /// Imported function name.
    pub name: String,
    /// Runtime `IAT` slot virtual address (0 if not from the table).
    pub iat_slot_va: u64,
    /// Dense handler number.
    pub winapi_id: Option<u16>,
    /// How calls are handled.
    pub traits: WinApiTraits,
    /// Whether the library is one of the C runtime.
    pub ucrt: bool,
    /// The stub that answers calls in the guest, if one can. Tables that a stub
    /// reads are not placed yet.
    pub stub_kind: Option<GuestStubKind>,
}

/// A dispatch entry as a mathematical value.
pub struct FakeApi {
    /// Fake API target virtual address.
    pub fake_target_va: u64,
    /// Imported library name.
    pub library: Seq<char>,
    /// Imported function name.
    pub name: Seq<char>,
    /// Runtime `IAT` slot virtual address.
    pub iat_slot_va: u64,
    /// Dense handler number.
    pub winapi_id: Option<u16>,
    /// How calls are handled.
    pub traits: WinApiTraits,
    /// Whether the library is one of the C runtime.
    pub ucrt: bool,
    /// The stub that answers calls in the guest, if one can.
    pub stub_kind: Option<GuestStubKind>,
}

impl View for RuntimeFakeApiEntry {
    type V = FakeApi;

    open spec fn view(&self) -> FakeApi {
        FakeApi {
            fake_target_va: self.fake_target_va,
            library: self.library@,
            name: self.name@,
            iat_slot_va: self.iat_slot_va,
            winapi_id: self.winapi_id,
            traits: self.traits,
            ucrt: self.ucrt,
            stub_kind: self.stub_kind,
        }
    }
}

/// The entries of a list.
pub open spec fn apis_of(v: Seq<RuntimeFakeApiEntry>) -> Seq<FakeApi> {
    v.map_values(|e: RuntimeFakeApiEntry| e@)
}

impl Clone for RuntimeFakeApiEntry {
    fn clone(&self) -> (r: Self)
        ensures
            r@ == self@,
    {
        RuntimeFakeApiEntry {
            fake_target_va: self.fake_target_va,
            library: self.library.as_str().to_owned(),
            name: self.name.as_str().to_owned(),
            iat_slot_va: self.iat_slot_va,
            winapi_id: self.winapi_id,
            traits: self.traits,
            ucrt: self.ucrt,
            stub_kind: self.stub_kind,
        }
    }
}

/// A function that ends the process.
pub open spec fn ends_process(library: Seq<char>, name: Seq<char>, ucrt: bool) -> bool {
    (same(library, "KERNEL32.dll"@) && same(name, "ExitProcess"@)) || (ucrt && (same(
        name,
        "exit"@,
    ) || same(name, "_exit"@) || same(name, "abort"@)))
}

/// How calls of a function are handled: as its handler says, except that functions
/// that end the process do only that, and functions that have a stub are marked.
pub open spec fn traits_of(library: Seq<char>, name: Seq<char>, facts: ApiFacts) -> WinApiTraits {
    let base = if ends_process(library, name, facts.ucrt) {
        WinApiTraits { exit_process: true, ..no_traits() }
    } else {
        match facts.api {
            Some(api) => api.traits,
            None => no_traits(),
        }
    };
    if guest_stub(library, name, facts.ucrt, 0) is Some {
        WinApiTraits { guest_stub: true, noisy: true, ..base }
    } else {
        base
    }
}

/// The dispatch entry of a function.
pub open spec fn entry_of(
    va: u64,
    library: Seq<char>,
    name: Seq<char>,
    iat_slot_va: u64,
    facts: ApiFacts,
) -> FakeApi {
    FakeApi {
        fake_target_va: va,
        library,
        name,
        iat_slot_va,
        winapi_id: match facts.api {
            Some(api) => Some(api.id),
            None => None,
        },
        traits: traits_of(library, name, facts),
        ucrt: facts.ucrt,
        stub_kind: guest_stub(library, name, facts.ucrt, 0),
    }
}

/// Makes the dispatch entry of a function.
pub fn make_entry(
    fake_target_va: u64,
    library: &str,
    name: &str,
    iat_slot_va: u64,
    facts: ApiFacts,
) -> (r: RuntimeFakeApiEntry)
    ensures
        r@ == entry_of(fake_target_va, library@, name@, iat_slot_va, facts),
{
    let mut traits = match facts.api {
        Some(api) => api.traits,
        None => WinApiTraits::default(),
    };
    if (library.eq_ignore_ascii_case("KERNEL32.dll") && name.eq_ignore_ascii_case("ExitProcess"))
        || (facts.ucrt && (name.eq_ignore_ascii_case("exit") || name.eq_ignore_ascii_case("_exit")
        || name.eq_ignore_ascii_case("abort"))) {
        traits = WinApiTraits::default();
        traits.exit_process = true;
    }
    let stub_kind = classify_guest_stub(library, name, facts.ucrt, 0);
    if stub_kind.is_some() {
        traits.guest_stub = true;
        traits.noisy = true;
    }
    RuntimeFakeApiEntry {
        fake_target_va,
        library: library.to_owned(),
        name: name.to_owned(),
        iat_slot_va,
        winapi_id: match facts.api {
            Some(api) => Some(api.id),
            None => None,
        },
        traits,
        ucrt: facts.ucrt,
        stub_kind,
    }
}

/// Number of entries that a soft table can hold.
pub const SOFT_CAPACITY: usize = 0x8000;

/// Functions without a handler, by the number that their address encodes.
#[derive(Debug)]
pub struct SoftApiTable {
    entries: Vec<RuntimeFakeApiEntry>,
}

/// An entry is for a function.
pub open spec fn is_for(e: FakeApi, library: Seq<char>, name: Seq<char>) -> bool {
    same(e.library, library) && same(e.name, name)
}

/// The number of the first entry for a function.
pub open spec fn find_api(entries: Seq<FakeApi>, library: Seq<char>, name: Seq<char>) -> Option<int>
    decreases entries.len(),
{
    if entries.len() == 0 {
        None
    } else if is_for(entries[0], library, name) {
        Some(0)
    } else {
        match find_api(entries.skip(1), library, name) {
            Some(k) => Some(k + 1),
            None => None,
        }
    }
}

/// The first entry for a function is where it is.
pub proof fn lemma_find_api(entries: Seq<FakeApi>, library: Seq<char>, name: Seq<char>, k: int)
    requires
        0 <= k <= entries.len(),
        forall|j: int| 0 <= j < k ==> !is_for(#[trigger] entries[j], library, name),
    ensures
        k < entries.len() && is_for(entries[k], library, name) ==> find_api(entries, library, name)
            == Some(k),
        k == entries.len() ==> find_api(entries, library, name) is None,
    decreases k,
{
    if k > 0 {
        let rest = entries.skip(1);
        assert forall|j: int| 0 <= j < k - 1 implies !is_for(#[trigger] rest[j], library, name) by {
            assert(rest[j] == entries[j + 1]);
        }
        lemma_find_api(rest, library, name, k - 1);
        assert(!is_for(entries[0], library, name));
    }
}

/// What is wrong with a table that holds `n` entries and must hold one more.
pub open spec fn soft_full(n: nat) -> Option<Seq<char>> {
    if n > u16::MAX {
        Some("soft API table exceeds 32767"@)
    } else if n >= SOFT_CAPACITY {
        Some("soft API table exceeds encoding capacity"@)
    } else {
        None
    }
}

/// Why a function could not be registered.
#[derive(Debug)]
pub enum FakeApiError {
    /// What was wrong.
    Message(String),
}

impl FakeApiError {
    /// The text of the error.
    pub open spec fn text(self) -> Seq<char> {
        match self {
            FakeApiError::Message(m) => m@,
        }
    }

    /// The message, as it is shown to the user.
    pub fn message(&self) -> (s: &str)
        ensures
            s@ == self.text(),
    {
        match self {
            FakeApiError::Message(m) => m.as_str(),
        }
    }
}

/// What interning a function in a table gives: the entries afterwards, and the entry
/// of the function.
pub open spec fn interned(
    entries: Seq<FakeApi>,
    library: Seq<char>,
    name: Seq<char>,
    fresh: FakeApi,
) -> (Seq<FakeApi>, Result<FakeApi, Seq<char>>) {
    match find_api(entries, library, name) {
        Some(k) => (entries, Ok(entries[k])),
        None => match soft_full(entries.len()) {
            Some(t) => (entries, Err(t)),
            None => (entries.push(fresh), Ok(fresh)),
        },
    }
}

/// The outcome of registering a function is the one that is wanted.
pub open spec fn registers(
    want: Result<FakeApi, Seq<char>>,
    r: Result<(u64, RuntimeFakeApiEntry), FakeApiError>,
) -> bool {
    match want {
        Ok(e) => r matches Ok(v) && v.0 == e.fake_target_va && v.1@ == e,
        Err(t) => r matches Err(e) && e.text() == t,
    }
}

impl SoftApiTable {
    /// The entries, by number.
    pub closed spec fn entries(self) -> Seq<FakeApi> {
        apis_of(self.entries@)
    }

    /// No function has two entries, and every number can be encoded.
    pub open spec fn wf(self) -> bool {
        &&& self.entries().len() <= SOFT_CAPACITY
        &&& forall|a: int, b: int|
            0 <= a < b < self.entries().len() ==> !is_for(
                #[trigger] self.entries()[b],
                (#[trigger] self.entries()[a]).library,
                self.entries()[a].name,
            )
    }

    /// An empty table.
    pub fn new() -> (t: Self)
        ensures
            t.wf(),
            t.entries() == Seq::<FakeApi>::empty(),
    {
        let t = SoftApiTable { entries: Vec::new() };
        assert(t.entries() =~= Seq::<FakeApi>::empty());
        t
    }

    /// The entry with a number.
    #[must_use]
    pub fn get(&self, index: u16) -> (r: Option<&RuntimeFakeApiEntry>)
        ensures
            match r {
                Some(e) => index < self.entries().len() && e@ == self.entries()[index as int],
                None => index >= self.entries().len(),
            },
    {
        if (index as usize) < self.entries.len() {
            Some(&self.entries[index as usize])
        } else {
            None
        }
    }

    /// The entries, by number.
    #[must_use]
    pub fn as_slice(&self) -> (r: &[RuntimeFakeApiEntry])
        ensures
            apis_of(r@) == self.entries(),
    {
        self.entries.as_slice()
    }

    /// The number that the next new function gets.
    #[must_use]
    pub fn next_index(&self) -> (r: Result<u16, FakeApiError>)
        ensures
            match soft_full(self.entries().len()) {
                None => r matches Ok(n) && n == self.entries().len(),
                Some(t) => r matches Err(e) && e.text() == t,
            },
    {
        let n: usize = self.entries.len();
        if n > 0xffff {
            return Err(FakeApiError::Message("soft API table exceeds 32767".to_owned()));
        }
        if n >= SOFT_CAPACITY {
            return Err(
                FakeApiError::Message("soft API table exceeds encoding capacity".to_owned()),
            );
        }
        Ok(n as u16)
    }

    /// Registers a function: gives the entry that it has, or a new one at `va`, the
    /// address that encodes the next number.
    pub fn intern(
        &mut self,
        library: &str,
        name: &str,
        iat_slot_va: u64,
        facts: ApiFacts,
        va: u64,
    ) -> (r: Result<(u64, RuntimeFakeApiEntry), FakeApiError>)
        requires
            old(self).wf(),
        ensures
            final(self).wf(),
            final(self).entries() == interned(
                old(self).entries(),
                library@,
                name@,
                entry_of(va, library@, name@, iat_slot_va, facts),
            ).0,
            registers(
                interned(
                    old(self).entries(),
                    library@,
                    name@,
                    entry_of(va, library@, name@, iat_slot_va, facts),
                ).1,
                r,
            ),
    {
        let ghost before = self.entries();
        let mut k: usize = 0;
        while k < self.entries.len()
            invariant
                k <= before.len(),
                *self == *old(self),
                self.wf(),
                before == self.entries(),
                before.len() == self.entries@.len(),
                forall|j: int| 0 <= j < k ==> !is_for(#[trigger] before[j], library@, name@),
            decreases before.len() - k,
        {
            let e = &self.entries[k];
            assert(before[k as int] == e@);
            if e.library.as_str().eq_ignore_ascii_case(library)
                && e.name.as_str().eq_ignore_ascii_case(name) {
                proof {
                    lemma_find_api(before, library@, name@, k as int);
                }
                return Ok((e.fake_target_va, e.clone()));
            }
            k = k + 1;
        }
        proof {
            lemma_find_api(before, library@, name@, k as int);
        }
        match self.next_index() {
            Ok(_) => {},
            Err(e) => {
                return Err(e);
            },
        }
        let entry = make_entry(va, library, name, iat_slot_va, facts);
        let copy = entry.clone();
        self.entries.push(entry);
        proof {
            assert(self.entries() =~= before.push(entry@));
        }
        Ok((va, copy))
    }
}

/// Registers an imported function. One that has a handler is found at `export_va`,
/// the address that encodes the handler; any other gets an entry of the soft table,
/// at `soft_va` if it is new.
pub fn resolve_import_fake_va(
    library: &str,
    name: &str,
    iat_slot_va: u64,
    soft: &mut SoftApiTable,
    facts: ApiFacts,
    export_va: u64,
    soft_va: u64,
) -> (r: Result<(u64, RuntimeFakeApiEntry), FakeApiError>)
    requires
        old(soft).wf(),
    ensures
        final(soft).wf(),
        facts.api is Some ==> final(soft).entries() == old(soft).entries() && registers(
            Ok(entry_of(export_va, library@, name@, iat_slot_va, facts)),
            r,
        ),
        facts.api is None ==> final(soft).entries() == interned(
            old(soft).entries(),
            library@,
            name@,
            entry_of(soft_va, library@, name@, iat_slot_va, facts),
        ).0 && registers(
            interned(
                old(soft).entries(),
                library@,
                name@,
                entry_of(soft_va, library@, name@, iat_slot_va, facts),
            ).1,
            r,
        ),
{
    if facts.api.is_some() {
        let entry = make_entry(export_va, library, name, iat_slot_va, facts);
        return Ok((export_va, entry));
    }
    soft.intern(library, name, iat_slot_va, facts, soft_va)
}

/// A function keeps the address that it was registered at, however often and in
/// whatever case its name is given, and registering it again changes nothing.
pub proof fn interning_is_stable(
    entries: Seq<FakeApi>,
    library: Seq<char>,
    name: Seq<char>,
    fresh: FakeApi,
    again_library: Seq<char>,
    again_name: Seq<char>,
    again: FakeApi,
)
    requires
        is_for(fresh, library, name),
        same(library, again_library),
        same(name, again_name),
        interned(entries, library, name, fresh).1 is Ok,
    ensures
        interned(
            interned(entries, library, name, fresh).0,
            again_library,
            again_name,
            again,
        ) == interned(entries, library, name, fresh),
{
    let (after, first) = interned(entries, library, name, fresh);
    lemma_same_function(entries, library, name, again_library, again_name);
    if find_api(entries, library, name) is None {
        lemma_none_is_for(entries, again_library, again_name);
        assert forall|j: int| 0 <= j < entries.len() implies !is_for(
            #[trigger] after[j],
            again_library,
            again_name,
        ) by {
            assert(after[j] == entries[j]);
        }
        lemma_find_api(after, again_library, again_name, entries.len() as int);
    }
}

/// Names that differ in case only find the same entry.
proof fn lemma_same_function(
    entries: Seq<FakeApi>,
    library: Seq<char>,
    name: Seq<char>,
    again_library: Seq<char>,
    again_name: Seq<char>,
)
    requires
        same(library, again_library),
        same(name, again_name),
    ensures
        find_api(entries, library, name) == find_api(entries, again_library, again_name),
    decreases entries.len(),
{
    if entries.len() > 0 {
        lemma_same_function(entries.skip(1), library, name, again_library, again_name);
    }
}

/// Where nothing is found, no entry is for the function.
proof fn lemma_none_is_for(entries: Seq<FakeApi>, library: Seq<char>, name: Seq<char>)
    requires
        find_api(entries, library, name) is None,
    ensures
        forall|j: int| 0 <= j < entries.len() ==> !is_for(#[trigger] entries[j], library, name),
    decreases entries.len(),
{
    if entries.len() > 0 {
        lemma_none_is_for(entries.skip(1), library, name);
        assert forall|j: int| 0 <= j < entries.len() implies !is_for(
            #[trigger] entries[j],
            library,
            name,
        ) by {
            if j > 0 {
                assert(entries[j] == entries.skip(1)[j - 1]);
            }
        }
    }
}

/// What an address at which the guest stopped encodes.
#[derive(Debug, Clone, Copy, PartialEq, Eq, Structural)]
pub enum FakeVa {
    /// An export that has a handler.
    Export(WinApi),
    /// Another name of such an export.
    Alias(WinApi),
    /// An entry of the soft table.
    Unresolved(u16),
    /// A method of an object.
    Com {
        /// The interface.
        iface: u8,
        /// Number of the method.
        method: u8,
    },
    /// An address that the session handles itself.
    Special(u16),
}

/// Resolved stop target.
#[derive(Debug)]
pub struct ResolvedFakeApi {
    /// Library name.
    pub library: String,
    /// Function name.
    pub name: String,
    /// Dense handler number.
    pub winapi_id: Option<u16>,
    /// How calls are handled.
    pub traits: WinApiTraits,
}

/// A resolved stop target holds the given values.
pub open spec fn resolves_to(
    r: ResolvedFakeApi,
    library: Seq<char>,
    name: Seq<char>,
    api: Option<u16>,
    traits: WinApiTraits,
) -> bool {
    &&& r.library@ == library
    &&& r.name@ == name
    &&& r.winapi_id == api
    &&& r.traits == traits
}

/// The names of all exports that have a handler, by handler number. A number that
/// has none is called `unknown`; of several names the last one counts.
pub open spec fn export_name(rows: Seq<(Seq<char>, Seq<char>, u16)>, id: int) -> (
    Seq<char>,
    Seq<char>,
)
    decreases rows.len(),
{
    if rows.len() == 0 {
        ("unknown.dll"@, "unknown"@)
    } else if rows.last().2 == id {
        (rows.last().0, rows.last().1)
    } else {
        export_name(rows.drop_last(), id)
    }
}

/// Rows of library, name and handler number.
pub open spec fn rows_of(rows: Seq<(String, String, u16)>) -> Seq<(Seq<char>, Seq<char>, u16)> {
    rows.map_values(|r: (String, String, u16)| (r.0@, r.1@, r.2))
}

/// Builds the table of the names of all exports, by handler number, from rows of
/// library, name and number. Rows with a number that is too large are left out.
pub fn export_names(rows: &[(String, String, u16)], count: usize) -> (r: Vec<(String, String)>)
    ensures
        r@.len() == count,
        forall|k: int|
            0 <= k < count ==> ((#[trigger] r@[k]).0@, r@[k].1@) == export_name(rows_of(rows@), k),
{
    let ghost all = rows_of(rows@);
    let mut out: Vec<(String, String)> = Vec::new();
    let mut k: usize = 0;
    while k < count
        invariant
            k <= count,
            out@.len() == k,
            forall|j: int|
                0 <= j < k ==> ((#[trigger] out@[j]).0@, out@[j].1@) == ("unknown.dll"@, "unknown"@),
        decreases count - k,
    {
        out.push(("unknown.dll".to_owned(), "unknown".to_owned()));
        k = k + 1;
    }
    let mut i: usize = 0;
    while i < rows.len()
        invariant
            i <= rows@.len(),
            all == rows_of(rows@),
            out@.len() == count,
            forall|j: int|
                0 <= j < count ==> ((#[trigger] out@[j]).0@, out@[j].1@) == export_name(
                    all.take(i as int),
                    j,
                ),
        decreases rows@.len() - i,
    {
        let row = &rows[i];
        let at: usize = row.2 as usize;
        let ghost before = out@;
        proof {
            assert(all.take(i + 1).drop_last() =~= all.take(i as int));
            assert(all.take(i + 1).last() == (row.0@, row.1@, row.2));
        }
        if at < count {
            out.set(at, (row.0.as_str().to_owned(), row.1.as_str().to_owned()));
        }
        proof {
            assert forall|j: int| 0 <= j < count implies ((#[trigger] out@[j]).0@, out@[j].1@)
                == export_name(all.take(i + 1), j) by {
                if j != at {
                    assert(out@[j] == before[j]);
                }
            }
        }
        i = i + 1;
    }
    assert(all.take(rows@.len() as int) =~= all);
    out
}

/// What an address stands for, given what it encodes. Methods of objects are
/// resolved by [`resolve_com`]; addresses that the session handles stand for
/// nothing.
pub fn resolve_fake_api(
    decoded: FakeVa,
    soft: &SoftApiTable,
    names: &[(String, String)],
) -> (r: Option<ResolvedFakeApi>)
    requires
        decoded matches FakeVa::Export(api) ==> api.id < names@.len(),
        decoded matches FakeVa::Alias(api) ==> api.id < names@.len(),
    ensures
        match decoded {
            FakeVa::Export(api) | FakeVa::Alias(api) => r matches Some(v) && resolves_to(
                v,
                names@[api.id as int].0@,
                names@[api.id as int].1@,
                Some(api.id),
                api.traits,
            ),
            FakeVa::Unresolved(index) => if index < soft.entries().len() {
                let e = soft.entries()[index as int];
                r matches Some(v) && resolves_to(v, e.library, e.name, e.winapi_id, e.traits)
            } else {
                r is None
            },
            _ => r is None,
        },
{
    match decoded {
        FakeVa::Export(api) | FakeVa::Alias(api) => {
            let row = &names[api.id as usize];
            Some(
                ResolvedFakeApi {
                    library: row.0.as_str().to_owned(),
                    name: row.1.as_str().to_owned(),
                    winapi_id: Some(api.id),
                    traits: api.traits,
                },
            )
        },
        FakeVa::Unresolved(index) => match soft.get(index) {
            Some(e) => Some(
                ResolvedFakeApi {
                    library: e.library.as_str().to_owned(),
                    name: e.name.as_str().to_owned(),
                    winapi_id: e.winapi_id,
                    traits: e.traits,
                },
            ),
            None => None,
        },
        _ => None,
    }
}

/// What a method of an object stands for: the export of `D3D9.dll` that is called
/// like the method.
pub fn resolve_com(
    iface: ComInterface,
    method: u8,
    d3d9_names: &[String],
    device_name: &str,
    api: Option<WinApi>,
) -> (r: ResolvedFakeApi)
    ensures
        resolves_to(
            r,
            "D3D9.dll"@,
            method_name(iface, method, d3d9_names@.map_values(|s: String| s@), device_name@),
            match api {
                Some(a) => Some(a.id),
                None => None,
            },
            match api {
                Some(a) => a.traits,
                None => no_traits(),
            },
        ),
{
    let name = com_method_name(iface, method, d3d9_names, device_name);
    ResolvedFakeApi {
        library: "D3D9.dll".to_owned(),
        name,
        winapi_id: match api {
            Some(a) => Some(a.id),
            None => None,
        },
        traits: match api {
            Some(a) => a.traits,
            None => WinApiTraits::default(),
        },
    }
}

/// The entries `done`, and after them those of `more` whose address was not seen
/// before.
pub open spec fn with_unseen(seen: Set<u64>, done: Seq<FakeApi>, more: Seq<FakeApi>) -> Seq<FakeApi>
    decreases more.len(),
{
    if more.len() == 0 {
        done
    } else if seen.contains(more[0].fake_target_va) {
        with_unseen(seen, done, more.skip(1))
    } else {
        with_unseen(
            seen.insert(more[0].fake_target_va),
            done.push(more[0]),
            more.skip(1),
        )
    }
}

/// The addresses of entries.
pub open spec fn addresses(entries: Seq<FakeApi>) -> Set<u64> {
    Set::new(|va: u64| exists|k: int| 0 <= k < entries.len() && #[trigger] entries[k].fake_target_va
        == va)
}

/// Collects every entry for which a stub can be planted: those of the imports, and
/// those of the soft table at other addresses.
pub fn collect_stub_entries(iat_entries: &[RuntimeFakeApiEntry], soft: &SoftApiTable) -> (r: Vec<
    RuntimeFakeApiEntry,
>)
    ensures
        apis_of(r@) == with_unseen(
            addresses(apis_of(iat_entries@)),
            apis_of(iat_entries@),
            soft.entries(),
        ),
{
    broadcast use vstd::std_specs::hash::group_hash_axioms;

    let ghost imports = apis_of(iat_entries@);
    let mut seen: HashSet<u64> = HashSet::new();
    let mut out: Vec<RuntimeFakeApiEntry> = Vec::new();
    let mut i: usize = 0;
    assert(seen@ =~= addresses(imports.take(0)));
    while i < iat_entries.len()
        invariant
            i <= iat_entries@.len(),
            imports == apis_of(iat_entries@),
            apis_of(out@) == imports.take(i as int),
            seen@ == addresses(imports.take(i as int)),
        decreases iat_entries@.len() - i,
    {
        broadcast use vstd::std_specs::hash::group_hash_axioms;

        let e = &iat_entries[i];
        let copy = e.clone();
        let ghost before = out@;
        let ghost had = imports.take(i as int);
        let ghost has = imports.take(i + 1);
        seen.insert(e.fake_target_va);
        out.push(copy);
        i = i + 1;
        proof {
            assert(has =~= had.push(e@));
            assert(apis_of(out@) =~= apis_of(before).push(e@));
            assert(seen@ =~= addresses(has)) by {
                assert forall|va: u64| addresses(has).contains(va) == (addresses(had).contains(va)
                    || va == e.fake_target_va) by {
                    if addresses(had).contains(va) {
                        let k = choose|k: int|
                            0 <= k < had.len() && #[trigger] had[k].fake_target_va == va;
                        assert(has[k].fake_target_va == va);
                    }
                    if va == e.fake_target_va {
                        assert(has[had.len() as int].fake_target_va == va);
                    }
                    if addresses(has).contains(va) {
                        let k = choose|k: int|
                            0 <= k < has.len() && #[trigger] has[k].fake_target_va == va;
                        if k < had.len() {
                            assert(had[k].fake_target_va == va);
                        }
                    }
                }
            }
        }
    }
    assert(imports.take(iat_entries@.len() as int) =~= imports);
    let more = soft.as_slice();
    let ghost all = soft.entries();
    let ghost want = with_unseen(addresses(imports), imports, all);
    let mut j: usize = 0;
    assert(all.skip(0) =~= all);
    while j < more.len()
        invariant
            j <= more@.len(),
            all == apis_of(more@),
            want == with_unseen(seen@, apis_of(out@), all.skip(j as int)),
        decreases more@.len() - j,
    {
        broadcast use vstd::std_specs::hash::group_hash_axioms;

        let e = &more[j];
        let ghost before = out@;
        proof {
            assert(all.skip(j as int)[0] == e@);
            assert(all.skip(j as int).skip(1) =~= all.skip(j + 1));
        }
        let ghost had = seen@;
        if seen.insert(e.fake_target_va) {
            let copy = e.clone();
            out.push(copy);
            assert(apis_of(out@) =~= apis_of(before).push(e@));
        } else {
            assert(seen@ =~= had);
        }
        j = j + 1;
    }
    out
}

} // verus!
