//! Machine code that answers trivial API calls inside the guest, without a stop.

use vstd::prelude::*;

use crate::ascii::lower;
use crate::endian::{le_bytes, lemma_le_bytes_len, write_le};

verus! {

/// Kind of in-guest stub to plant at a fake API address.
#[derive(Debug, Clone, Copy, PartialEq, Eq, Structural)]
pub enum GuestStubKind {
    /// `ret`.
    VoidRet,
    /// `mov rax, rcx; ret`.
    IdentityRcxToRax,
    /// `xor eax, eax; ret`.
    ReturnZero,
    /// `mov eax, imm32; ret`.
    ReturnImm32(u32),
    /// `mov rax, imm64; ret`.
    ReturnImm64(u64),
    /// `mov rax, imm64; mov eax, [rax]; ret`.
    LoadZx32FromVa(u64),
    /// `mov rax, imm64; mov rax, [rax]; ret`.
    LoadPtrFromVa(u64),
    /// `mov rax, imm64; mov [rax], ecx; ret`.
    StoreEcxToVa(u64),
    /// Reads slot `RCX` of a table; zero where there is no such slot.
    FlsGetValue {
        /// Address of the table.
        table_va: u64,
        /// Slots in the table.
        max_slots: u32,
    },
    /// Writes `RDX` to slot `RCX` of a table; tells whether there is such a slot.
    FlsSetValue {
        /// Address of the table.
        table_va: u64,
        /// Slots in the table.
        max_slots: u32,
    },
    /// The `FILE*` of a standard stream.
    AcrtIobFunc,
}

/// Address of `TEB.LastErrorValue`.
pub const TEB_LAST_ERROR_VA: u64 = 0x68;

/// Slots of the guest's fiber-local table.
pub const GUEST_FLS_SLOT_COUNT: u32 = 256;

/// Bytes between two fake API addresses.
pub const SLOT_STRIDE: usize = 16;

/// Bytes of the jump to a stub that lies elsewhere.
pub const JUMP_SIZE: usize = 12;

/// `cmp rcx, max; jae +skip; mov rax, table`: the check before a table access. The
/// jump skips the `skip` bytes after itself.
pub open spec fn table_check(table_va: u64, max_slots: u32, skip: u8) -> Seq<u8> {
    seq![0x48u8, 0x81, 0xf9] + le_bytes(max_slots as int, 4) + seq![0x73u8, skip] + seq![
        0x48u8,
        0xb8,
    ] + le_bytes(table_va as int, 8)
}

/// The machine code of a stub.
pub open spec fn stub_code(kind: GuestStubKind) -> Seq<u8> {
    match kind {
        GuestStubKind::VoidRet => seq![0xc3u8],
        GuestStubKind::IdentityRcxToRax => seq![0x48u8, 0x89, 0xc8, 0xc3],
        GuestStubKind::ReturnZero => seq![0x31u8, 0xc0, 0xc3],
        GuestStubKind::ReturnImm32(imm) => seq![0xb8u8] + le_bytes(imm as int, 4) + seq![0xc3u8],
        GuestStubKind::ReturnImm64(imm) => seq![0x48u8, 0xb8] + le_bytes(imm as int, 8) + seq![
            0xc3u8,
        ],
        GuestStubKind::LoadZx32FromVa(va) => seq![0x48u8, 0xb8] + le_bytes(va as int, 8) + seq![
            0x8bu8,
            0x00,
            0xc3,
        ],
        GuestStubKind::LoadPtrFromVa(va) => seq![0x48u8, 0xb8] + le_bytes(va as int, 8) + seq![
            0x48u8,
            0x8b,
            0x00,
            0xc3,
        ],
        GuestStubKind::StoreEcxToVa(va) => seq![0x48u8, 0xb8] + le_bytes(va as int, 8) + seq![
            0x89u8,
            0x08,
            0xc3,
        ],
        GuestStubKind::FlsGetValue { table_va, max_slots } => table_check(table_va, max_slots, 15)
            + seq![0x48u8, 0x8b, 0x04, 0xc8] + seq![0xc3u8] + seq![0x31u8, 0xc0, 0xc3],
        GuestStubKind::FlsSetValue { table_va, max_slots } => table_check(table_va, max_slots, 20)
            + seq![0x48u8, 0x89, 0x14, 0xc8] + seq![0xb8u8, 0x01, 0x00, 0x00, 0x00] + seq![0xc3u8]
            + seq![0x31u8, 0xc0, 0xc3],
        GuestStubKind::AcrtIobFunc => seq![0xb8u8, 0x00, 0x00, 0x00, 0x68] + seq![
            0xc1u8,
            0xe1,
            0x08,
        ] + seq![0x01u8, 0xc8] + seq![0xc3u8],
    }
}

/// `mov rax, target; jmp rax`.
pub open spec fn jump_code(target: u64) -> Seq<u8> {
    seq![0x48u8, 0xb8] + le_bytes(target as int, 8) + seq![0xffu8, 0xe0]
}

/// Whether a stub lies outside its slot, which then holds a jump to it.
pub open spec fn out_of_line(kind: GuestStubKind) -> bool {
    kind is FlsGetValue || kind is FlsSetValue
}

/// Appends the low `n` bytes of a number.
fn push_le(out: &mut Vec<u8>, v: u64, n: usize)
    ensures
        final(out)@ == old(out)@ + le_bytes(v as int, n as nat),
{
    let ghost before = out@;
    let bytes = write_le(v, n);
    let mut i: usize = 0;
    while i < bytes.len()
        invariant
            i <= bytes@.len(),
            out@ == before + bytes@.take(i as int),
        decreases bytes@.len() - i,
    {
        out.push(bytes[i]);
        i = i + 1;
        assert(out@ =~= before + bytes@.take(i as int));
    }
    assert(bytes@.take(bytes@.len() as int) =~= bytes@);
}

/// Appends two bytes.
fn push2(out: &mut Vec<u8>, a: u8, b: u8)
    ensures
        final(out)@ == old(out)@ + seq![a, b],
{
    let ghost before = out@;
    out.push(a);
    out.push(b);
    assert(out@ =~= before + seq![a, b]);
}

/// Appends three bytes.
fn push3(out: &mut Vec<u8>, a: u8, b: u8, c: u8)
    ensures
        final(out)@ == old(out)@ + seq![a, b, c],
{
    let ghost before = out@;
    out.push(a);
    out.push(b);
    out.push(c);
    assert(out@ =~= before + seq![a, b, c]);
}

/// Appends four bytes.
fn push4(out: &mut Vec<u8>, a: u8, b: u8, c: u8, d: u8)
    ensures
        final(out)@ == old(out)@ + seq![a, b, c, d],
{
    let ghost before = out@;
    push2(out, a, b);
    push2(out, c, d);
    assert(out@ =~= before + seq![a, b, c, d]);
}

/// Encodes the check before a table access.
fn encode_table_check(table_va: u64, max_slots: u32, skip: u8) -> (out: Vec<u8>)
    ensures
        out@ == table_check(table_va, max_slots, skip),
{
    let mut out: Vec<u8> = Vec::new();
    push3(&mut out, 0x48, 0x81, 0xf9);
    assert(out@ =~= seq![0x48u8, 0x81, 0xf9]);
    push_le(&mut out, max_slots as u64, 4);
    push2(&mut out, 0x73, skip);
    push2(&mut out, 0x48, 0xb8);
    push_le(&mut out, table_va, 8);
    out
}

/// Encodes `mov rax, imm64`.
fn encode_mov_rax(imm: u64) -> (out: Vec<u8>)
    ensures
        out@ == seq![0x48u8, 0xb8] + le_bytes(imm as int, 8),
{
    let mut out: Vec<u8> = Vec::new();
    push2(&mut out, 0x48, 0xb8);
    assert(out@ =~= seq![0x48u8, 0xb8]);
    push_le(&mut out, imm, 8);
    out
}

/// Encodes the jump to a stub that lies elsewhere.
pub fn encode_jump(target: u64) -> (out: Vec<u8>)
    ensures
        out@ == jump_code(target),
        out@.len() == JUMP_SIZE,
{
    let mut out = encode_mov_rax(target);
    push2(&mut out, 0xff, 0xe0);
    proof {
        lemma_le_bytes_len(target as int, 8);
    }
    out
}

impl GuestStubKind {
    /// Encodes the stub body.
    #[must_use]
    pub fn encode(self) -> (out: Vec<u8>)
        ensures
            out@ == stub_code(self),
    {
        match self {
            GuestStubKind::VoidRet => {
                let mut out: Vec<u8> = Vec::new();
                out.push(0xc3);
                assert(out@ =~= seq![0xc3u8]);
                out
            },
            GuestStubKind::IdentityRcxToRax => {
                let mut out: Vec<u8> = Vec::new();
                push4(&mut out, 0x48, 0x89, 0xc8, 0xc3);
                assert(out@ =~= seq![0x48u8, 0x89, 0xc8, 0xc3]);
                out
            },
            GuestStubKind::ReturnZero => {
                let mut out: Vec<u8> = Vec::new();
                push3(&mut out, 0x31, 0xc0, 0xc3);
                assert(out@ =~= seq![0x31u8, 0xc0, 0xc3]);
                out
            },
            GuestStubKind::ReturnImm32(imm) => {
                let mut out: Vec<u8> = Vec::new();
                out.push(0xb8);
                assert(out@ =~= seq![0xb8u8]);
                push_le(&mut out, imm as u64, 4);
                out.push(0xc3);
                assert(out@ =~= stub_code(self));
                out
            },
            GuestStubKind::ReturnImm64(imm) => {
                let mut out = encode_mov_rax(imm);
                out.push(0xc3);
                assert(out@ =~= stub_code(self));
                out
            },
            GuestStubKind::LoadZx32FromVa(va) => {
                let mut out = encode_mov_rax(va);
                push3(&mut out, 0x8b, 0x00, 0xc3);
                out
            },
            GuestStubKind::LoadPtrFromVa(va) => {
                let mut out = encode_mov_rax(va);
                push4(&mut out, 0x48, 0x8b, 0x00, 0xc3);
                out
            },
            GuestStubKind::StoreEcxToVa(va) => {
                let mut out = encode_mov_rax(va);
                push3(&mut out, 0x89, 0x08, 0xc3);
                out
            },
            GuestStubKind::FlsGetValue { table_va, max_slots } => {
                let mut out = encode_table_check(table_va, max_slots, 15);
                push4(&mut out, 0x48, 0x8b, 0x04, 0xc8);
                out.push(0xc3);
                push3(&mut out, 0x31, 0xc0, 0xc3);
                assert(out@ =~= stub_code(self));
                out
            },
            GuestStubKind::FlsSetValue { table_va, max_slots } => {
                let mut out = encode_table_check(table_va, max_slots, 20);
                push4(&mut out, 0x48, 0x89, 0x14, 0xc8);
                push2(&mut out, 0xb8, 0x01);
                push3(&mut out, 0x00, 0x00, 0x00);
                out.push(0xc3);
                push3(&mut out, 0x31, 0xc0, 0xc3);
                assert(out@ =~= stub_code(self));
                out
            },
            GuestStubKind::AcrtIobFunc => {
                let mut out: Vec<u8> = Vec::new();
                push2(&mut out, 0xb8, 0x00);
                push3(&mut out, 0x00, 0x00, 0x68);
                push3(&mut out, 0xc1, 0xe1, 0x08);
                push2(&mut out, 0x01, 0xc8);
                out.push(0xc3);
                assert(out@ =~= stub_code(self));
                out
            },
        }
    }

    /// Whether the body must be planted outside the slot.
    #[must_use]
    pub fn needs_out_of_line_helper(self) -> (r: bool)
        ensures
            r == out_of_line(self),
    {
        matches!(self, GuestStubKind::FlsGetValue { .. } | GuestStubKind::FlsSetValue { .. })
    }
}

/// A stub that lies in its slot fits there, and so does the jump to one that does
/// not.
pub proof fn stubs_fit_their_slots(kind: GuestStubKind, target: u64)
    ensures
        !out_of_line(kind) ==> stub_code(kind).len() <= SLOT_STRIDE,
        jump_code(target).len() == JUMP_SIZE,
        JUMP_SIZE <= SLOT_STRIDE,
{
    lemma_le_bytes_len(target as int, 8);
    match kind {
        GuestStubKind::ReturnImm32(imm) => lemma_le_bytes_len(imm as int, 4),
        GuestStubKind::ReturnImm64(v) | GuestStubKind::LoadZx32FromVa(v)
        | GuestStubKind::LoadPtrFromVa(v) | GuestStubKind::StoreEcxToVa(v) => lemma_le_bytes_len(v as int, 8),
        _ => {},
    }
}

/// Where a table stub finds no slot, its jump leads to the code that returns zero,
/// which is the end of the stub.
pub proof fn missing_slots_return_zero(kind: GuestStubKind)
    requires
        out_of_line(kind),
    ensures
        stub_code(kind)[7] == 0x73,
        stub_code(kind).skip(9 + stub_code(kind)[8]) == stub_code(GuestStubKind::ReturnZero),
{
    match kind {
        GuestStubKind::FlsGetValue { table_va, max_slots } => {
            lemma_le_bytes_len(max_slots as int, 4);
            lemma_le_bytes_len(table_va as int, 8);
        },
        GuestStubKind::FlsSetValue { table_va, max_slots } => {
            lemma_le_bytes_len(max_slots as int, 4);
            lemma_le_bytes_len(table_va as int, 8);
        },
        _ => {},
    }
    assert(stub_code(kind).skip(9 + stub_code(kind)[8]) =~= stub_code(GuestStubKind::ReturnZero));
}

/// Two names are the same but for the case of their ASCII letters.
pub open spec fn same(a: Seq<char>, b: Seq<char>) -> bool {
    lower(a) == lower(b)
}

/// Guest address of the page of C runtime variables.
pub const CRT_BASE: u64 = 0x0000_0000_6800_0000;

/// Functions of the C runtime that do nothing and return zero.
pub open spec fn ucrt_returns_zero(n: Seq<char>) -> bool {
    same(n, "fflush"@) || same(n, "setvbuf"@) || same(n, "_crt_atexit"@) || same(
        n,
        "_set_invalid_parameter_handler"@,
    ) || same(n, "_set_app_type"@) || same(n, "_set_new_mode"@) || same(n, "_initterm"@) || same(
        n,
        "_initterm_e"@,
    ) || same(n, "_configure_narrow_argv"@) || same(n, "_initialize_narrow_environment"@) || same(
        n,
        "__setusermatherr"@,
    ) || same(n, "_configthreadlocale"@) || same(n, "_cexit"@) || same(n, "signal"@)
}

/// The variable of the C runtime that a function returns the address of.
pub open spec fn ucrt_variable(n: Seq<char>) -> Option<u64> {
    if same(n, "__p__environ"@) {
        Some(0x6800_0300)
    } else if same(n, "__p___argv"@) {
        Some(0x6800_0308)
    } else if same(n, "__p___argc"@) {
        Some(0x6800_0310)
    } else if same(n, "__p__commode"@) {
        Some(0x6800_0318)
    } else if same(n, "__p__fmode"@) {
        Some(0x6800_0320)
    } else if same(n, "__p__acmdln"@) {
        Some(0x6800_0328)
    } else {
        None
    }
}

/// The stub of a function of the C runtime.
pub open spec fn ucrt_stub(n: Seq<char>) -> Option<GuestStubKind> {
    if same(n, "__acrt_iob_func"@) {
        Some(GuestStubKind::AcrtIobFunc)
    } else if ucrt_returns_zero(n) {
        Some(GuestStubKind::ReturnZero)
    } else {
        match ucrt_variable(n) {
            Some(va) => Some(GuestStubKind::ReturnImm64(va)),
            None => None,
        }
    }
}

/// Functions of the system libraries that do nothing.
pub open spec fn kernel_does_nothing(n: Seq<char>) -> bool {
    same(n, "EnterCriticalSection"@) || same(n, "LeaveCriticalSection"@) || same(
        n,
        "DeleteCriticalSection"@,
    ) || same(n, "SetHandleCount"@) || same(n, "OutputDebugStringA"@) || same(
        n,
        "OutputDebugStringW"@,
    ) || same(n, "Sleep"@)
}

/// The number that a function of the system libraries always returns.
pub open spec fn kernel_constant(n: Seq<char>) -> Option<u32> {
    if same(n, "GetTickCount"@) {
        Some(12_345)
    } else if same(n, "GetCurrentProcessId"@) {
        Some(0x1234)
    } else if same(n, "GetCurrentThreadId"@) {
        Some(0x5678)
    } else if same(n, "GetACP"@) {
        Some(1252)
    } else if same(n, "GetOEMCP"@) {
        Some(437)
    } else {
        None
    }
}

/// The handle that a function of the system libraries always returns.
pub open spec fn kernel_handle(n: Seq<char>) -> Option<u64> {
    if same(n, "GetCurrentProcess"@) {
        Some(u64::MAX)
    } else if same(n, "GetProcessHeap"@) {
        Some(0x5000_0000)
    } else {
        None
    }
}

/// The stub of a function of the system libraries.
pub open spec fn kernel_stub(n: Seq<char>, fls_table_va: u64) -> Option<GuestStubKind> {
    if same(n, "EncodePointer"@) || same(n, "DecodePointer"@) {
        Some(GuestStubKind::IdentityRcxToRax)
    } else if kernel_does_nothing(n) {
        Some(GuestStubKind::VoidRet)
    } else if same(n, "GetLastError"@) {
        Some(GuestStubKind::LoadZx32FromVa(TEB_LAST_ERROR_VA))
    } else if same(n, "SetLastError"@) {
        Some(GuestStubKind::StoreEcxToVa(TEB_LAST_ERROR_VA))
    } else if same(n, "GetCommandLineA"@) {
        Some(GuestStubKind::LoadPtrFromVa(0x6800_0328))
    } else if same(n, "FlsGetValue"@) {
        Some(
            GuestStubKind::FlsGetValue { table_va: fls_table_va, max_slots: GUEST_FLS_SLOT_COUNT },
        )
    } else if same(n, "FlsSetValue"@) {
        Some(
            GuestStubKind::FlsSetValue { table_va: fls_table_va, max_slots: GUEST_FLS_SLOT_COUNT },
        )
    } else if same(n, "IsDebuggerPresent"@) {
        Some(GuestStubKind::ReturnZero)
    } else if kernel_constant(n) is Some {
        Some(GuestStubKind::ReturnImm32(kernel_constant(n)->0))
    } else if kernel_handle(n) is Some {
        Some(GuestStubKind::ReturnImm64(kernel_handle(n)->0))
    } else {
        None
    }
}

/// The stub that answers calls of a function, if one can. `ucrt` tells whether its
/// library is one of the C runtime.
pub open spec fn guest_stub(
    library: Seq<char>,
    name: Seq<char>,
    ucrt: bool,
    fls_table_va: u64,
) -> Option<GuestStubKind> {
    if ucrt {
        ucrt_stub(name)
    } else if same(library, "KERNEL32.dll"@) || same(library, "ntdll.dll"@) {
        kernel_stub(name, fls_table_va)
    } else {
        None
    }
}

/// Classifies a function of the C runtime.
fn classify_ucrt(n: &str) -> (r: Option<GuestStubKind>)
    ensures
        r == ucrt_stub(n@),
{
    if n.eq_ignore_ascii_case("__acrt_iob_func") {
        return Some(GuestStubKind::AcrtIobFunc);
    }
    if n.eq_ignore_ascii_case("fflush") || n.eq_ignore_ascii_case("setvbuf")
        || n.eq_ignore_ascii_case("_crt_atexit") || n.eq_ignore_ascii_case(
        "_set_invalid_parameter_handler",
    ) || n.eq_ignore_ascii_case("_set_app_type") || n.eq_ignore_ascii_case("_set_new_mode")
        || n.eq_ignore_ascii_case("_initterm") || n.eq_ignore_ascii_case("_initterm_e")
        || n.eq_ignore_ascii_case("_configure_narrow_argv") || n.eq_ignore_ascii_case(
        "_initialize_narrow_environment",
    ) || n.eq_ignore_ascii_case("__setusermatherr") || n.eq_ignore_ascii_case(
        "_configthreadlocale",
    ) || n.eq_ignore_ascii_case("_cexit") || n.eq_ignore_ascii_case("signal") {
        return Some(GuestStubKind::ReturnZero);
    }
    if n.eq_ignore_ascii_case("__p__environ") {
        return Some(GuestStubKind::ReturnImm64(CRT_BASE + 0x300));
    }
    if n.eq_ignore_ascii_case("__p___argv") {
        return Some(GuestStubKind::ReturnImm64(CRT_BASE + 0x308));
    }
    if n.eq_ignore_ascii_case("__p___argc") {
        return Some(GuestStubKind::ReturnImm64(CRT_BASE + 0x310));
    }
    if n.eq_ignore_ascii_case("__p__commode") {
        return Some(GuestStubKind::ReturnImm64(CRT_BASE + 0x318));
    }
    if n.eq_ignore_ascii_case("__p__fmode") {
        return Some(GuestStubKind::ReturnImm64(CRT_BASE + 0x320));
    }
    if n.eq_ignore_ascii_case("__p__acmdln") {
        return Some(GuestStubKind::ReturnImm64(CRT_BASE + 0x328));
    }
    None
}

/// The number that a function of the system libraries always returns.
fn classify_constant(n: &str) -> (r: Option<u32>)
    ensures
        r == kernel_constant(n@),
{
    if n.eq_ignore_ascii_case("GetTickCount") {
        Some(12_345)
    } else if n.eq_ignore_ascii_case("GetCurrentProcessId") {
        Some(0x1234)
    } else if n.eq_ignore_ascii_case("GetCurrentThreadId") {
        Some(0x5678)
    } else if n.eq_ignore_ascii_case("GetACP") {
        Some(1252)
    } else if n.eq_ignore_ascii_case("GetOEMCP") {
        Some(437)
    } else {
        None
    }
}

/// Classifies a function of the system libraries.
fn classify_kernel(n: &str, fls_table_va: u64) -> (r: Option<GuestStubKind>)
    ensures
        r == kernel_stub(n@, fls_table_va),
{
    if n.eq_ignore_ascii_case("EncodePointer") || n.eq_ignore_ascii_case("DecodePointer") {
        return Some(GuestStubKind::IdentityRcxToRax);
    }
    if n.eq_ignore_ascii_case("EnterCriticalSection") || n.eq_ignore_ascii_case(
        "LeaveCriticalSection",
    ) || n.eq_ignore_ascii_case("DeleteCriticalSection") || n.eq_ignore_ascii_case("SetHandleCount")
        || n.eq_ignore_ascii_case("OutputDebugStringA") || n.eq_ignore_ascii_case(
        "OutputDebugStringW",
    ) || n.eq_ignore_ascii_case("Sleep") {
        return Some(GuestStubKind::VoidRet);
    }
    if n.eq_ignore_ascii_case("GetLastError") {
        return Some(GuestStubKind::LoadZx32FromVa(TEB_LAST_ERROR_VA));
    }
    if n.eq_ignore_ascii_case("SetLastError") {
        return Some(GuestStubKind::StoreEcxToVa(TEB_LAST_ERROR_VA));
    }
    if n.eq_ignore_ascii_case("GetCommandLineA") {
        return Some(GuestStubKind::LoadPtrFromVa(CRT_BASE + 0x328));
    }
    if n.eq_ignore_ascii_case("FlsGetValue") {
        return Some(
            GuestStubKind::FlsGetValue { table_va: fls_table_va, max_slots: GUEST_FLS_SLOT_COUNT },
        );
    }
    if n.eq_ignore_ascii_case("FlsSetValue") {
        return Some(
            GuestStubKind::FlsSetValue { table_va: fls_table_va, max_slots: GUEST_FLS_SLOT_COUNT },
        );
    }
    if n.eq_ignore_ascii_case("IsDebuggerPresent") {
        return Some(GuestStubKind::ReturnZero);
    }
    if let Some(v) = classify_constant(n) {
        return Some(GuestStubKind::ReturnImm32(v));
    }
    if n.eq_ignore_ascii_case("GetCurrentProcess") {
        return Some(GuestStubKind::ReturnImm64(u64::MAX));
    }
    if n.eq_ignore_ascii_case("GetProcessHeap") {
        return Some(GuestStubKind::ReturnImm64(0x0000_0000_5000_0000));
    }
    None
}

/// Classifies a function as an in-guest stub when that is safe: only pure functions
/// with fixed results, or results that are kept in guest memory. `ucrt` tells
/// whether the library is one of the C runtime.
#[must_use]
pub fn classify_guest_stub(library: &str, name: &str, ucrt: bool, fls_table_va: u64) -> (r: Option<
    GuestStubKind,
>)
    ensures
        r == guest_stub(library@, name@, ucrt, fls_table_va),
{
    if ucrt {
        return classify_ucrt(name);
    }
    if !library.eq_ignore_ascii_case("KERNEL32.dll") && !library.eq_ignore_ascii_case("ntdll.dll") {
        return None;
    }
    classify_kernel(name, fls_table_va)
}

} // verus!
