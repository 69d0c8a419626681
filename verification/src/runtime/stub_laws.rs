//! Which functions are answered inside the guest, and with what.

use vstd::prelude::*;

use crate::ascii::{lower, lower_char};
use crate::endian::{le_bytes, le_value, lemma_le_bytes_len, bytes_round_trip};
use crate::runtime::stubs::{guest_stub, jump_code, same, stub_code, GuestStubKind};

verus! {

/// Names that differ by case only have the same length and letters.
proof fn lemma_shape(n: Seq<char>, e: Seq<char>)
    ensures
        same(n, e) ==> n.len() == e.len() && forall|k: int|
            0 <= k < e.len() ==> lower_char(n[k]) == lower_char(#[trigger] e[k]),
{
    if same(n, e) {
        assert(lower(n).len() == n.len() && lower(e).len() == e.len());
        assert forall|k: int| 0 <= k < e.len() implies lower_char(n[k]) == lower_char(
            #[trigger] e[k],
        ) by {
            assert(lower(n)[k] == lower(e)[k]);
        }
    }
}

/// Functions of the C runtime that are answered in the guest, however their names are
/// spelled: each variable has eight bytes of its own in the runtime's page, and no other
/// function is answered.
pub proof fn runtime_functions_are_answered(library: Seq<char>, n: Seq<char>, fls: u64)
    ensures
        same(n, "__acrt_iob_func"@) ==> guest_stub(library, n, true, fls) == Some(
            GuestStubKind::AcrtIobFunc,
        ),
        same(n, "fflush"@) ==> guest_stub(library, n, true, fls) == Some(
            GuestStubKind::ReturnZero,
        ),
        same(n, "setvbuf"@) ==> guest_stub(library, n, true, fls) == Some(
            GuestStubKind::ReturnZero,
        ),
        same(n, "_crt_atexit"@) ==> guest_stub(library, n, true, fls) == Some(
            GuestStubKind::ReturnZero,
        ),
        same(n, "_set_invalid_parameter_handler"@) ==> guest_stub(library, n, true, fls) == Some(
            GuestStubKind::ReturnZero,
        ),
        same(n, "_set_app_type"@) ==> guest_stub(library, n, true, fls) == Some(
            GuestStubKind::ReturnZero,
        ),
        same(n, "_set_new_mode"@) ==> guest_stub(library, n, true, fls) == Some(
            GuestStubKind::ReturnZero,
        ),
        same(n, "_initterm"@) ==> guest_stub(library, n, true, fls) == Some(
            GuestStubKind::ReturnZero,
        ),
        same(n, "_initterm_e"@) ==> guest_stub(library, n, true, fls) == Some(
            GuestStubKind::ReturnZero,
        ),
        same(n, "_configure_narrow_argv"@) ==> guest_stub(library, n, true, fls) == Some(
            GuestStubKind::ReturnZero,
        ),
        same(n, "_initialize_narrow_environment"@) ==> guest_stub(library, n, true, fls) == Some(
            GuestStubKind::ReturnZero,
        ),
        same(n, "__setusermatherr"@) ==> guest_stub(library, n, true, fls) == Some(
            GuestStubKind::ReturnZero,
        ),
        same(n, "_configthreadlocale"@) ==> guest_stub(library, n, true, fls) == Some(
            GuestStubKind::ReturnZero,
        ),
        same(n, "_cexit"@) ==> guest_stub(library, n, true, fls) == Some(
            GuestStubKind::ReturnZero,
        ),
        same(n, "signal"@) ==> guest_stub(library, n, true, fls) == Some(
            GuestStubKind::ReturnZero,
        ),
        same(n, "__p__environ"@) ==> guest_stub(library, n, true, fls) == Some(
            GuestStubKind::ReturnImm64(0x6800_0300),
        ),
        same(n, "__p___argv"@) ==> guest_stub(library, n, true, fls) == Some(
            GuestStubKind::ReturnImm64(0x6800_0308),
        ),
        same(n, "__p___argc"@) ==> guest_stub(library, n, true, fls) == Some(
            GuestStubKind::ReturnImm64(0x6800_0310),
        ),
        same(n, "__p__commode"@) ==> guest_stub(library, n, true, fls) == Some(
            GuestStubKind::ReturnImm64(0x6800_0318),
        ),
        same(n, "__p__fmode"@) ==> guest_stub(library, n, true, fls) == Some(
            GuestStubKind::ReturnImm64(0x6800_0320),
        ),
        same(n, "__p__acmdln"@) ==> guest_stub(library, n, true, fls) == Some(
            GuestStubKind::ReturnImm64(0x6800_0328),
        ),
        guest_stub(library, n, true, fls) is Some ==> same(n, "__acrt_iob_func"@)
            || same(n, "fflush"@) || same(n, "setvbuf"@) || same(n, "_crt_atexit"@)
            || same(n, "_set_invalid_parameter_handler"@) || same(n, "_set_app_type"@)
            || same(n, "_set_new_mode"@) || same(n, "_initterm"@) || same(n, "_initterm_e"@)
            || same(n, "_configure_narrow_argv"@) || same(n, "_initialize_narrow_environment"@)
            || same(n, "__setusermatherr"@) || same(n, "_configthreadlocale"@)
            || same(n, "_cexit"@) || same(n, "signal"@) || same(n, "__p__environ"@)
            || same(n, "__p___argv"@) || same(n, "__p___argc"@) || same(n, "__p__commode"@)
            || same(n, "__p__fmode"@) || same(n, "__p__acmdln"@),
{
    reveal_strlit("__acrt_iob_func");
    reveal_strlit("fflush");
    reveal_strlit("setvbuf");
    reveal_strlit("_crt_atexit");
    reveal_strlit("_set_invalid_parameter_handler");
    reveal_strlit("_set_app_type");
    reveal_strlit("_set_new_mode");
    reveal_strlit("_initterm");
    reveal_strlit("_initterm_e");
    reveal_strlit("_configure_narrow_argv");
    reveal_strlit("_initialize_narrow_environment");
    reveal_strlit("__setusermatherr");
    reveal_strlit("_configthreadlocale");
    reveal_strlit("_cexit");
    reveal_strlit("signal");
    reveal_strlit("__p__environ");
    reveal_strlit("__p___argv");
    reveal_strlit("__p___argc");
    reveal_strlit("__p__commode");
    reveal_strlit("__p__fmode");
    reveal_strlit("__p__acmdln");
    lemma_shape(n, "__acrt_iob_func"@);
    lemma_shape(n, "fflush"@);
    lemma_shape(n, "setvbuf"@);
    lemma_shape(n, "_crt_atexit"@);
    lemma_shape(n, "_set_invalid_parameter_handler"@);
    lemma_shape(n, "_set_app_type"@);
    lemma_shape(n, "_set_new_mode"@);
    lemma_shape(n, "_initterm"@);
    lemma_shape(n, "_initterm_e"@);
    lemma_shape(n, "_configure_narrow_argv"@);
    lemma_shape(n, "_initialize_narrow_environment"@);
    lemma_shape(n, "__setusermatherr"@);
    lemma_shape(n, "_configthreadlocale"@);
    lemma_shape(n, "_cexit"@);
    lemma_shape(n, "signal"@);
    lemma_shape(n, "__p__environ"@);
    lemma_shape(n, "__p___argv"@);
    lemma_shape(n, "__p___argc"@);
    lemma_shape(n, "__p__commode"@);
    lemma_shape(n, "__p__fmode"@);
    lemma_shape(n, "__p__acmdln"@);
    assert("_set_app_type"@[5] == 'a' && "_set_new_mode"@[5] == 'n');
    assert("_crt_atexit"@[1] == 'c' && "_initterm_e"@[1] == 'i');
    assert("_set_invalid_parameter_handler"@[1] == 's'
        && "_initialize_narrow_environment"@[1] == 'i');
    assert("fflush"@[0] == 'f' && "_cexit"@[0] == '_');
    assert("fflush"@[0] == 'f' && "signal"@[0] == 's');
    assert("_cexit"@[0] == '_' && "signal"@[0] == 's');
    assert("__p___argv"@[9] == 'v' && "__p___argc"@[9] == 'c');
    assert("__p__environ"@[5] == 'e' && "__p__commode"@[5] == 'c');
    assert("__p___argv"@[5] == '_' && "__p__fmode"@[5] == 'f');
    assert("__p___argc"@[5] == '_' && "__p__fmode"@[5] == 'f');
    assert("_crt_atexit"@[1] == 'c' && "__p__acmdln"@[1] == '_');
    assert("_initterm_e"@[1] == 'i' && "__p__acmdln"@[1] == '_');
}

/// Functions of the system libraries that are answered in the guest, however their names
/// are spelled: the last error is read where it is written, and no other function is
/// answered.
pub proof fn system_functions_are_answered(library: Seq<char>, n: Seq<char>, fls: u64)
    requires
        same(library, "KERNEL32.dll"@) || same(library, "ntdll.dll"@),
    ensures
        same(n, "EncodePointer"@) ==> guest_stub(library, n, false, fls) == Some(
            GuestStubKind::IdentityRcxToRax,
        ),
        same(n, "DecodePointer"@) ==> guest_stub(library, n, false, fls) == Some(
            GuestStubKind::IdentityRcxToRax,
        ),
        same(n, "EnterCriticalSection"@) ==> guest_stub(library, n, false, fls) == Some(
            GuestStubKind::VoidRet,
        ),
        same(n, "LeaveCriticalSection"@) ==> guest_stub(library, n, false, fls) == Some(
            GuestStubKind::VoidRet,
        ),
        same(n, "DeleteCriticalSection"@) ==> guest_stub(library, n, false, fls) == Some(
            GuestStubKind::VoidRet,
        ),
        same(n, "SetHandleCount"@) ==> guest_stub(library, n, false, fls) == Some(
            GuestStubKind::VoidRet,
        ),
        same(n, "OutputDebugStringA"@) ==> guest_stub(library, n, false, fls) == Some(
            GuestStubKind::VoidRet,
        ),
        same(n, "OutputDebugStringW"@) ==> guest_stub(library, n, false, fls) == Some(
            GuestStubKind::VoidRet,
        ),
        same(n, "Sleep"@) ==> guest_stub(library, n, false, fls) == Some(
            GuestStubKind::VoidRet,
        ),
        same(n, "GetLastError"@) ==> guest_stub(library, n, false, fls) == Some(
            GuestStubKind::LoadZx32FromVa(0x68),
        ),
        same(n, "SetLastError"@) ==> guest_stub(library, n, false, fls) == Some(
            GuestStubKind::StoreEcxToVa(0x68),
        ),
        same(n, "GetCommandLineA"@) ==> guest_stub(library, n, false, fls) == Some(
            GuestStubKind::LoadPtrFromVa(0x6800_0328),
        ),
        same(n, "FlsGetValue"@) ==> guest_stub(library, n, false, fls) == Some(
            GuestStubKind::FlsGetValue { table_va: fls, max_slots: 256 },
        ),
        same(n, "FlsSetValue"@) ==> guest_stub(library, n, false, fls) == Some(
            GuestStubKind::FlsSetValue { table_va: fls, max_slots: 256 },
        ),
        same(n, "IsDebuggerPresent"@) ==> guest_stub(library, n, false, fls) == Some(
            GuestStubKind::ReturnZero,
        ),
        same(n, "GetTickCount"@) ==> guest_stub(library, n, false, fls) == Some(
            GuestStubKind::ReturnImm32(12_345),
        ),
        same(n, "GetCurrentProcessId"@) ==> guest_stub(library, n, false, fls) == Some(
            GuestStubKind::ReturnImm32(0x1234),
        ),
        same(n, "GetCurrentThreadId"@) ==> guest_stub(library, n, false, fls) == Some(
            GuestStubKind::ReturnImm32(0x5678),
        ),
        same(n, "GetACP"@) ==> guest_stub(library, n, false, fls) == Some(
            GuestStubKind::ReturnImm32(1252),
        ),
        same(n, "GetOEMCP"@) ==> guest_stub(library, n, false, fls) == Some(
            GuestStubKind::ReturnImm32(437),
        ),
        same(n, "GetCurrentProcess"@) ==> guest_stub(library, n, false, fls) == Some(
            GuestStubKind::ReturnImm64(0xffff_ffff_ffff_ffff),
        ),
        same(n, "GetProcessHeap"@) ==> guest_stub(library, n, false, fls) == Some(
            GuestStubKind::ReturnImm64(0x5000_0000),
        ),
        guest_stub(library, n, false, fls) is Some ==> same(n, "EncodePointer"@)
            || same(n, "DecodePointer"@) || same(n, "EnterCriticalSection"@)
            || same(n, "LeaveCriticalSection"@) || same(n, "DeleteCriticalSection"@)
            || same(n, "SetHandleCount"@) || same(n, "OutputDebugStringA"@)
            || same(n, "OutputDebugStringW"@) || same(n, "Sleep"@) || same(n, "GetLastError"@)
            || same(n, "SetLastError"@) || same(n, "GetCommandLineA"@) || same(n, "FlsGetValue"@)
            || same(n, "FlsSetValue"@) || same(n, "IsDebuggerPresent"@)
            || same(n, "GetTickCount"@) || same(n, "GetCurrentProcessId"@)
            || same(n, "GetCurrentThreadId"@) || same(n, "GetACP"@) || same(n, "GetOEMCP"@)
            || same(n, "GetCurrentProcess"@) || same(n, "GetProcessHeap"@),
{
    reveal_strlit("EncodePointer");
    reveal_strlit("DecodePointer");
    reveal_strlit("EnterCriticalSection");
    reveal_strlit("LeaveCriticalSection");
    reveal_strlit("DeleteCriticalSection");
    reveal_strlit("SetHandleCount");
    reveal_strlit("OutputDebugStringA");
    reveal_strlit("OutputDebugStringW");
    reveal_strlit("Sleep");
    reveal_strlit("GetLastError");
    reveal_strlit("SetLastError");
    reveal_strlit("GetCommandLineA");
    reveal_strlit("FlsGetValue");
    reveal_strlit("FlsSetValue");
    reveal_strlit("IsDebuggerPresent");
    reveal_strlit("GetTickCount");
    reveal_strlit("GetCurrentProcessId");
    reveal_strlit("GetCurrentThreadId");
    reveal_strlit("GetACP");
    reveal_strlit("GetOEMCP");
    reveal_strlit("GetCurrentProcess");
    reveal_strlit("GetProcessHeap");
    lemma_shape(n, "EncodePointer"@);
    lemma_shape(n, "DecodePointer"@);
    lemma_shape(n, "EnterCriticalSection"@);
    lemma_shape(n, "LeaveCriticalSection"@);
    lemma_shape(n, "DeleteCriticalSection"@);
    lemma_shape(n, "SetHandleCount"@);
    lemma_shape(n, "OutputDebugStringA"@);
    lemma_shape(n, "OutputDebugStringW"@);
    lemma_shape(n, "Sleep"@);
    lemma_shape(n, "GetLastError"@);
    lemma_shape(n, "SetLastError"@);
    lemma_shape(n, "GetCommandLineA"@);
    lemma_shape(n, "FlsGetValue"@);
    lemma_shape(n, "FlsSetValue"@);
    lemma_shape(n, "IsDebuggerPresent"@);
    lemma_shape(n, "GetTickCount"@);
    lemma_shape(n, "GetCurrentProcessId"@);
    lemma_shape(n, "GetCurrentThreadId"@);
    lemma_shape(n, "GetACP"@);
    lemma_shape(n, "GetOEMCP"@);
    lemma_shape(n, "GetCurrentProcess"@);
    lemma_shape(n, "GetProcessHeap"@);
    assert("EncodePointer"@[0] == 'E' && "DecodePointer"@[0] == 'D');
    assert("EnterCriticalSection"@[0] == 'E' && "LeaveCriticalSection"@[0] == 'L');
    assert("OutputDebugStringA"@[17] == 'A' && "OutputDebugStringW"@[17] == 'W');
    assert("GetLastError"@[0] == 'G' && "SetLastError"@[0] == 'S');
    assert("FlsGetValue"@[3] == 'G' && "FlsSetValue"@[3] == 'S');
    assert("GetLastError"@[3] == 'L' && "GetTickCount"@[3] == 'T');
    assert("SetLastError"@[0] == 'S' && "GetTickCount"@[0] == 'G');
    assert("OutputDebugStringA"@[0] == 'O' && "GetCurrentThreadId"@[0] == 'G');
    assert("OutputDebugStringW"@[0] == 'O' && "GetCurrentThreadId"@[0] == 'G');
    assert("IsDebuggerPresent"@[0] == 'I' && "GetCurrentProcess"@[0] == 'G');
    assert("SetHandleCount"@[0] == 'S' && "GetProcessHeap"@[0] == 'G');
}

/// Two functions that return the addresses of variables, and are not spellings of one
/// name, return addresses at least eight bytes apart, in the page of the C runtime.
pub proof fn variables_are_apart(
    library: Seq<char>,
    m: Seq<char>,
    n: Seq<char>,
    x: u64,
    y: u64,
    fls: u64,
)
    requires
        guest_stub(library, m, true, fls) == Some(GuestStubKind::ReturnImm64(x)),
        guest_stub(library, n, true, fls) == Some(GuestStubKind::ReturnImm64(y)),
    ensures
        !same(m, n) ==> x + 8 <= y || y + 8 <= x,
        same(m, n) ==> x == y,
        0x6800_0000 <= x && x + 8 <= 0x6800_1000,
        x % 8 == 0,
{
    runtime_functions_are_answered(library, m, fls);
    runtime_functions_are_answered(library, n, fls);
}

/// The command line that `GetCommandLineA` loads is the variable that `__p__acmdln` gives
/// the address of, and the last error is loaded from where it is stored.
pub proof fn functions_share_variables(
    library: Seq<char>,
    runtime: Seq<char>,
    get: Seq<char>,
    set: Seq<char>,
    x: u64,
    y: u64,
    fls: u64,
)
    requires
        same(library, "KERNEL32.dll"@) || same(library, "ntdll.dll"@),
    ensures
        same(get, "GetCommandLineA"@) && same(set, "__p__acmdln"@) && guest_stub(
            library,
            get,
            false,
            fls,
        ) == Some(GuestStubKind::LoadPtrFromVa(x)) && guest_stub(runtime, set, true, fls) == Some(
            GuestStubKind::ReturnImm64(y),
        ) ==> x == y,
        same(get, "GetLastError"@) && same(set, "SetLastError"@) && guest_stub(
            library,
            get,
            false,
            fls,
        ) == Some(GuestStubKind::LoadZx32FromVa(x)) && guest_stub(library, set, false, fls) == Some(
            GuestStubKind::StoreEcxToVa(y),
        ) ==> x == y,
{
    system_functions_are_answered(library, get, fls);
    system_functions_are_answered(library, set, fls);
    runtime_functions_are_answered(runtime, set, fls);
}

/// No function of another library is answered, and spellings of one name are answered
/// alike.
pub proof fn other_libraries_are_not_answered(
    library: Seq<char>,
    m: Seq<char>,
    n: Seq<char>,
    ucrt: bool,
    fls: u64,
)
    ensures
        !ucrt && !same(library, "KERNEL32.dll"@) && !same(library, "ntdll.dll"@) ==> guest_stub(
            library,
            m,
            ucrt,
            fls,
        ) is None,
        same(m, n) ==> guest_stub(library, m, ucrt, fls) == guest_stub(library, n, ucrt, fls),
{
}

/// The code of stubs that hold an address or a number holds just that, and every stub
/// ends in `ret`.
pub proof fn stubs_hold_their_values(v: u64, w: u32, kind: GuestStubKind)
    ensures
        stub_code(kind).last() == 0xc3,
        le_value(stub_code(GuestStubKind::ReturnImm32(w)).subrange(1, 5)) == w,
        stub_code(GuestStubKind::ReturnImm32(w)).len() == 6,
        stub_code(GuestStubKind::ReturnImm32(w))[0] == 0xb8,
        ({
            let holds = |c: Seq<u8>|
                c[0] == 0x48 && c[1] == 0xb8 && le_value(c.subrange(2, 10)) == v;
            &&& holds(stub_code(GuestStubKind::ReturnImm64(v)))
            &&& holds(stub_code(GuestStubKind::LoadZx32FromVa(v)))
            &&& holds(stub_code(GuestStubKind::LoadPtrFromVa(v)))
            &&& holds(stub_code(GuestStubKind::StoreEcxToVa(v)))
            &&& holds(jump_code(v))
        }),
        stub_code(GuestStubKind::ReturnImm64(v)).skip(10) == seq![0xc3u8],
        stub_code(GuestStubKind::LoadZx32FromVa(v)).skip(10) == seq![0x8bu8, 0x00, 0xc3],
        stub_code(GuestStubKind::LoadPtrFromVa(v)).skip(10) == seq![0x48u8, 0x8b, 0x00, 0xc3],
        stub_code(GuestStubKind::StoreEcxToVa(v)).skip(10) == seq![0x89u8, 0x08, 0xc3],
        jump_code(v).skip(10) == seq![0xffu8, 0xe0],
        stub_code(GuestStubKind::IdentityRcxToRax) == seq![0x48u8, 0x89, 0xc8, 0xc3],
        stub_code(GuestStubKind::ReturnZero) == seq![0x31u8, 0xc0, 0xc3],
        stub_code(GuestStubKind::VoidRet) == seq![0xc3u8],
        stub_code(GuestStubKind::AcrtIobFunc) == seq![
            0xb8u8, 0x00, 0x00, 0x00, 0x68, 0xc1, 0xe1, 0x08, 0x01, 0xc8, 0xc3,
        ],
{
    lemma_le_bytes_len(v as int, 8);
    lemma_le_bytes_len(w as int, 4);
    bytes_round_trip(v as int, 8);
    bytes_round_trip(w as int, 4);
    crate::endian::lemma_pow256();
    assert(stub_code(GuestStubKind::ReturnImm32(w)).subrange(1, 5) =~= le_bytes(w as int, 4));
    assert(stub_code(GuestStubKind::ReturnImm64(v)).subrange(2, 10) =~= le_bytes(v as int, 8));
    assert(stub_code(GuestStubKind::LoadZx32FromVa(v)).subrange(2, 10) =~= le_bytes(v as int, 8));
    assert(stub_code(GuestStubKind::LoadPtrFromVa(v)).subrange(2, 10) =~= le_bytes(v as int, 8));
    assert(stub_code(GuestStubKind::StoreEcxToVa(v)).subrange(2, 10) =~= le_bytes(v as int, 8));
    assert(jump_code(v).subrange(2, 10) =~= le_bytes(v as int, 8));
    assert(stub_code(GuestStubKind::ReturnImm64(v)).skip(10) =~= seq![0xc3u8]);
    assert(stub_code(GuestStubKind::LoadZx32FromVa(v)).skip(10) =~= seq![0x8bu8, 0x00, 0xc3]);
    assert(stub_code(GuestStubKind::LoadPtrFromVa(v)).skip(10) =~= seq![0x48u8, 0x8b, 0x00, 0xc3]);
    assert(stub_code(GuestStubKind::StoreEcxToVa(v)).skip(10) =~= seq![0x89u8, 0x08, 0xc3]);
    assert(jump_code(v).skip(10) =~= seq![0xffu8, 0xe0]);
    assert(stub_code(GuestStubKind::AcrtIobFunc) =~= seq![
        0xb8u8, 0x00, 0x00, 0x00, 0x68, 0xc1, 0xe1, 0x08, 0x01, 0xc8, 0xc3,
    ]);
}

} // verus!
