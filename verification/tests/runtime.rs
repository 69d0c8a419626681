//! API stubs and dispatch, threads, and scenarios.

use wie::bitmap::get_bit;
use wie::cpu::CpuEngine;
use wie::iced_cpu::IcedCpu;
use wie::regs::{RegFile, RAX, RCX, RDX, RSP};
use wie::runtime::fake_api::{
    collect_stub_entries, export_names, make_entry, resolve_com, resolve_fake_api,
    resolve_import_fake_va, ApiFacts, FakeVa, RuntimeFakeApiEntry, SoftApiTable, WinApi,
    WinApiTraits,
};
use wie::runtime::names::{com_method_name, ComInterface};
use wie::runtime::plant::{plant_guest_stubs, StubLayout};
use wie::runtime::report::{
    entry_trace_lines, format_entry_trace_event, format_optional_hex, micro_report, micro_verdict,
};
use wie::runtime::scenario::{
    check_callback_run, check_callback_start, check_open_start, check_opened, check_resume_start,
    check_rom_not_empty, check_rom_size, header_prefix_len, input_sequence, input_summary,
    input_target, open_rom_summary, pack_mouse_lparam, paint_summary, posted_text,
    rom_filesystem_summary, OpenRomSearch, OpenRomSmokeSummary,
};
use wie::runtime::stubs::{classify_guest_stub, encode_jump, GuestStubKind};
use wie::runtime::threads::{
    finish_tid, join_workers, worker_name, KernelObject, Switch, ThreadContexts, Wake,
};
use wie::runtime::trace::{
    describe_termination, entry_summary, micro_summary, termination_text, EntryTraceEvent,
    EntryTraceTermination, RuntimeRunSummary,
};
use wie::runtime::windows::{
    command_window_candidates, find_open_file, level_editor_targets, mentions_text,
    saw_level_editor_window, GuestWindow, OpenFile,
};
use wie::runtime::worker::{
    hook_end, worker_next, Dispatched, GuestStop, HostParkReason, Worker, WorkerAction,
    WorkerEvent, INFINITE, WAIT_FAILED, WAIT_TIMEOUT,
};

const PLAIN: ApiFacts = ApiFacts { api: None, ucrt: false };

const CODE: u64 = 0x7000_0000;
const STACK: u64 = 0x3_0000;

/// Runs a stub from the interpreter until it returns.
fn run_stub(code: &[u8], rcx: u64, rdx: u64, table: &[u64]) -> IcedCpu {
    let mut c = IcedCpu::open_x86_64();
    c.mem_map(CODE, 0x1000, 7).unwrap();
    c.mem_map(STACK, 0x1000, 7).unwrap();
    c.mem_map(0x2_0000, 0x1000, 7).unwrap();
    for (i, v) in table.iter().enumerate() {
        c.mem_write(0x2_0000 + 8 * i as u64, &v.to_le_bytes()).unwrap();
    }
    c.mem_write(CODE, code).unwrap();
    c.mem_write(STACK + 0x800, &0x1234_5678u64.to_le_bytes()).unwrap();
    c.regs_mut().set_rip(CODE);
    c.regs_mut().set_gpr(RSP, STACK + 0x800);
    c.regs_mut().set_gpr(RAX, 0xdead_beef_dead_beef);
    c.regs_mut().set_gpr(RCX, rcx);
    c.regs_mut().set_gpr(RDX, rdx);
    for _ in 0..16 {
        if c.regs().rip() == 0x1234_5678 {
            return c;
        }
        c.step_once().unwrap();
    }
    panic!("the stub did not return");
}

fn result(kind: GuestStubKind, rcx: u64) -> u64 {
    run_stub(&kind.encode(), rcx, 0, &[0x1_0000_0005, 7]).regs().gpr(RAX)
}

#[test]
fn stubs_do_what_they_stand_for() {
    assert_eq!(result(GuestStubKind::VoidRet, 9), 0xdead_beef_dead_beef);
    assert_eq!(result(GuestStubKind::IdentityRcxToRax, 9), 9);
    assert_eq!(result(GuestStubKind::ReturnZero, 9), 0);
    assert_eq!(result(GuestStubKind::ReturnImm32(0x8000_0001), 9), 0x8000_0001);
    assert_eq!(result(GuestStubKind::ReturnImm64(u64::MAX), 9), u64::MAX);
    assert_eq!(result(GuestStubKind::LoadZx32FromVa(0x2_0000), 9), 5);
    assert_eq!(result(GuestStubKind::AcrtIobFunc, 2), 0x6800_0200);
    let get = GuestStubKind::FlsGetValue { table_va: 0x2_0000, max_slots: 2 };
    assert_eq!(result(get, 1), 7);
    assert_eq!(result(get, 2), 0);
    assert_eq!(result(get, u64::MAX), 0);
    let set = GuestStubKind::FlsSetValue { table_va: 0x2_0000, max_slots: 2 };
    let mut c = run_stub(&set.encode(), 1, 0xabc, &[1, 2]);
    assert_eq!(c.regs().gpr(RAX), 1);
    let mut slot = [0u8; 8];
    c.mem_read(0x2_0008, &mut slot).unwrap();
    assert_eq!(u64::from_le_bytes(slot), 0xabc);
    let mut c = run_stub(&set.encode(), 2, 0xabc, &[1, 2, 3]);
    assert_eq!(c.regs().gpr(RAX), 0);
    c.mem_read(0x2_0010, &mut slot).unwrap();
    assert_eq!(u64::from_le_bytes(slot), 3);
    let load = GuestStubKind::LoadPtrFromVa(0x2_0008);
    let c = run_stub(&load.encode(), 0, 0, &[1, 0x1122_3344_5566_7788]);
    assert_eq!(c.regs().gpr(RAX), 0x1122_3344_5566_7788);
    let store = GuestStubKind::StoreEcxToVa(0x2_0000);
    let mut c = run_stub(&store.encode(), 0xffff_0000_0001_0002, 0, &[u64::MAX]);
    c.mem_read(0x2_0000, &mut slot).unwrap();
    assert_eq!(u64::from_le_bytes(slot), 0xffff_ffff_0001_0002);
}

#[test]
fn stub_bytes() {
    assert_eq!(GuestStubKind::ReturnImm32(1).encode(), [0xb8, 1, 0, 0, 0, 0xc3]);
    let get = GuestStubKind::FlsGetValue { table_va: 0x1122_3344_5566_7788, max_slots: 256 };
    assert_eq!(
        get.encode(),
        [
            0x48, 0x81, 0xf9, 0, 1, 0, 0, 0x73, 15, 0x48, 0xb8, 0x88, 0x77, 0x66, 0x55, 0x44, 0x33,
            0x22, 0x11, 0x48, 0x8b, 0x04, 0xc8, 0xc3, 0x31, 0xc0, 0xc3
        ]
    );
    assert_eq!(
        GuestStubKind::LoadPtrFromVa(0x6800_0328).encode(),
        [0x48, 0xb8, 0x28, 0x03, 0, 0x68, 0, 0, 0, 0, 0x48, 0x8b, 0x00, 0xc3]
    );
    assert!(get.needs_out_of_line_helper());
    assert!(!GuestStubKind::AcrtIobFunc.needs_out_of_line_helper());
    assert_eq!(encode_jump(0x10), [0x48, 0xb8, 0x10, 0, 0, 0, 0, 0, 0, 0, 0xff, 0xe0]);
}

#[test]
fn functions_are_classified() {
    let k = |l: &str, n: &str| classify_guest_stub(l, n, false, 0x9000);
    let u = |n: &str| classify_guest_stub("ucrtbase.dll", n, true, 0);
    assert_eq!(k("kernel32.DLL", "encodepointer"), Some(GuestStubKind::IdentityRcxToRax));
    assert_eq!(k("ntdll.dll", "Sleep"), Some(GuestStubKind::VoidRet));
    assert_eq!(k("KERNEL32.dll", "GetLastError"), Some(GuestStubKind::LoadZx32FromVa(0x68)));
    assert_eq!(k("KERNEL32.dll", "SetLastError"), Some(GuestStubKind::StoreEcxToVa(0x68)));
    assert_eq!(k("KERNEL32.DLL", "getcommandlinea"), Some(GuestStubKind::LoadPtrFromVa(0x6800_0328)));
    assert_eq!(k("USER32.dll", "GetCommandLineA"), None);
    assert_eq!(u("__p__acmdln"), Some(GuestStubKind::ReturnImm64(0x6800_0328)));
    for name in ["EnterCriticalSection", "LeaveCriticalSection", "GetCurrentProcessId", "GETCURRENTTHREADID"] {
        assert!(k("kernel32.dll", name).is_some());
    }
    assert_eq!(
        k("KERNEL32.dll", "FlsGetValue"),
        Some(GuestStubKind::FlsGetValue { table_va: 0x9000, max_slots: 256 })
    );
    assert_eq!(
        k("KERNEL32.dll", "FlsSetValue"),
        Some(GuestStubKind::FlsSetValue { table_va: 0x9000, max_slots: 256 })
    );
    assert_eq!(k("KERNEL32.dll", "GetTickCount"), Some(GuestStubKind::ReturnImm32(12_345)));
    assert_eq!(k("KERNEL32.dll", "GetCurrentProcessId"), Some(GuestStubKind::ReturnImm32(0x1234)));
    assert_eq!(k("KERNEL32.dll", "GetCurrentThreadId"), Some(GuestStubKind::ReturnImm32(0x5678)));
    assert_eq!(k("KERNEL32.dll", "GetACP"), Some(GuestStubKind::ReturnImm32(1252)));
    assert_eq!(k("KERNEL32.dll", "GetOEMCP"), Some(GuestStubKind::ReturnImm32(437)));
    assert_eq!(k("KERNEL32.dll", "IsDebuggerPresent"), Some(GuestStubKind::ReturnZero));
    assert_eq!(k("KERNEL32.dll", "GetCurrentProcess"), Some(GuestStubKind::ReturnImm64(u64::MAX)));
    assert_eq!(k("KERNEL32.dll", "GetProcessHeap"), Some(GuestStubKind::ReturnImm64(0x5000_0000)));
    assert_eq!(k("KERNEL32.dll", "InitializeCriticalSection"), None);
    assert_eq!(k("USER32.dll", "Sleep"), None);
    assert_eq!(u("__acrt_iob_func"), Some(GuestStubKind::AcrtIobFunc));
    assert_eq!(u("SIGNAL"), Some(GuestStubKind::ReturnZero));
    assert_eq!(u("__p___argc"), Some(GuestStubKind::ReturnImm64(0x6800_0310)));
    assert_eq!(u("malloc"), None);
    assert_eq!(u("Sleep"), None);
}

fn entry(va: u64, library: &str, name: &str) -> RuntimeFakeApiEntry {
    make_entry(va, library, name, 0, PLAIN)
}

#[test]
fn planted_stubs_are_passed_over() {
    let mut c = IcedCpu::open_x86_64();
    c.mem_map(CODE, 0x1000, 7).unwrap();
    c.mem_map(0x4_0000, 0x1000, 7).unwrap();
    let l = StubLayout {
        fake_api_base: CODE,
        fake_api_size: 0x44,
        fls_table_va: 0x2_0000,
        helper_code_base: 0x4_0000,
        helper_code_size: 0x30,
    };
    let entries = [
        entry(CODE, "KERNEL32.dll", "IsDebuggerPresent"),
        entry(CODE + 0x10, "KERNEL32.dll", "FlsGetValue"),
        entry(CODE + 0x20, "USER32.dll", "MessageBoxA"),
        entry(CODE - 1, "KERNEL32.dll", "Sleep"),
        entry(CODE + 0x30, "KERNEL32.dll", "FlsSetValue"),
        entry(CODE + 0x40, "KERNEL32.dll", "GetACP"),
    ];
    let map = plant_guest_stubs(&mut c, &entries, l).unwrap();
    assert_eq!(map.len(), 9);
    for i in 0..72 {
        let passed = i < 3 || (0x10..0x1c).contains(&i);
        assert_eq!(get_bit(&map, i), !passed, "{i:#x}");
    }
    let mut b = [0u8; 12];
    c.mem_read(CODE + 0x10, &mut b).unwrap();
    assert_eq!(b[..], encode_jump(0x4_0000)[..]);
    let mut b = [0u8; 27];
    c.mem_read(0x4_0000, &mut b).unwrap();
    let get = GuestStubKind::FlsGetValue { table_va: 0x2_0000, max_slots: 256 };
    assert_eq!(b[..], get.encode()[..]);
    c.mem_read(0x4_0020, &mut b[..1]).unwrap();
    assert_eq!(b[0], 0);
}

#[test]
fn planting_needs_mapped_memory() {
    let l = StubLayout {
        fake_api_base: CODE,
        fake_api_size: 0x100,
        fls_table_va: 0,
        helper_code_base: 0x4_0000,
        helper_code_size: 0x100,
    };
    let text = |c: &mut IcedCpu, name: &str| {
        plant_guest_stubs(c, &[entry(CODE, "KERNEL32.dll", name)], l).unwrap_err().message().to_owned()
    };
    let mut c = IcedCpu::open_x86_64();
    assert_eq!(text(&mut c, "Sleep"), "failed to write guest API stub bytes");
    assert_eq!(text(&mut c, "FlsGetValue"), "failed to write out-of-line guest stub body");
    c.mem_map(0x4_0000, 0x1000, 7).unwrap();
    assert_eq!(text(&mut c, "FlsGetValue"), "failed to write guest stub entry jmp");
}

#[test]
fn entries_carry_their_traits() {
    let traits = WinApiTraits { exit_process: false, guest_stub: false, noisy: false, other: 4 };
    let facts = ApiFacts { api: Some(WinApi { id: 9, traits }), ucrt: false };
    let e = make_entry(1, "USER32.dll", "GetDC", 2, facts);
    assert_eq!((e.winapi_id, e.traits), (Some(9), traits));
    assert_eq!(e.stub_kind, None);
    let e = make_entry(1, "kernel32.dll", "exitprocess", 2, facts);
    assert!(e.traits.exit_process);
    assert_eq!(e.traits.other, 0);
    let e = make_entry(1, "msvcrt.dll", "abort", 2, ApiFacts { api: None, ucrt: true });
    assert!(e.traits.exit_process);
    let e = make_entry(1, "msvcrt.dll", "abort", 2, PLAIN);
    assert_eq!(e.traits, WinApiTraits::default());
    let e = make_entry(1, "KERNEL32.dll", "Sleep", 2, facts);
    assert!(e.traits.guest_stub && e.traits.noisy && e.traits.other == 4);
    assert_eq!(e.stub_kind, Some(GuestStubKind::VoidRet));
}

#[test]
fn interning_is_stable() {
    let mut t = SoftApiTable::new();
    assert_eq!(t.next_index().unwrap(), 0);
    let (va, e) = t.intern("A.dll", "f", 8, PLAIN, 100).unwrap();
    assert_eq!((va, e.fake_target_va, e.iat_slot_va), (100, 100, 8));
    assert_eq!(t.next_index().unwrap(), 1);
    let (va, e) = t.intern("a.DLL", "F", 9, PLAIN, 200).unwrap();
    assert_eq!((va, e.name.as_str(), e.iat_slot_va), (100, "f", 8));
    assert_eq!(t.as_slice().len(), 1);
    let api = WinApi { id: 3, traits: WinApiTraits::default() };
    let facts = ApiFacts { api: Some(api), ucrt: false };
    let (va, e) = resolve_import_fake_va("B.dll", "g", 0, &mut t, facts, 300, 400).unwrap();
    assert_eq!((va, e.winapi_id), (300, Some(3)));
    assert_eq!(t.as_slice().len(), 1);
    let (va, _) = resolve_import_fake_va("B.dll", "g", 0, &mut t, PLAIN, 300, 400).unwrap();
    assert_eq!(va, 400);
    assert_eq!(t.get(1).unwrap().name, "g");
    assert!(t.get(2).is_none());
}

#[test]
fn a_full_soft_table_refuses() {
    let mut t = SoftApiTable::new();
    for i in 0..0x8000usize {
        let library = "x".repeat(i % 256 + 1);
        t.intern(&library, &format!("f{i}"), 0, PLAIN, i as u64).unwrap();
    }
    let text = "soft API table exceeds encoding capacity";
    assert_eq!(t.next_index().unwrap_err().message(), text);
    assert_eq!(t.intern("y", "new", 0, PLAIN, 1).unwrap_err().message(), text);
    assert_eq!(t.intern("X", "F0", 0, PLAIN, 1).unwrap().0, 0);
    assert_eq!(t.as_slice().len(), 0x8000);
}

#[test]
fn stop_addresses_are_resolved() {
    let rows = vec![
        (String::from("a.dll"), String::from("f"), 1u16),
        (String::from("b.dll"), String::from("g"), 1),
        (String::from("c.dll"), String::from("h"), 7),
    ];
    let names = export_names(&rows, 3);
    assert_eq!(names[0], (String::from("unknown.dll"), String::from("unknown")));
    assert_eq!(names[1], (String::from("b.dll"), String::from("g")));
    assert_eq!(names.len(), 3);
    let mut t = SoftApiTable::new();
    t.intern("s.dll", "x", 0, PLAIN, 5).unwrap();
    let api = WinApi { id: 1, traits: WinApiTraits::default() };
    for v in [FakeVa::Export(api), FakeVa::Alias(api)] {
        let r = resolve_fake_api(v, &t, &names).unwrap();
        assert_eq!((r.library.as_str(), r.name.as_str(), r.winapi_id), ("b.dll", "g", Some(1)));
    }
    let r = resolve_fake_api(FakeVa::Unresolved(0), &t, &names).unwrap();
    assert_eq!((r.library.as_str(), r.name.as_str(), r.winapi_id), ("s.dll", "x", None));
    assert!(resolve_fake_api(FakeVa::Unresolved(1), &t, &names).is_none());
    assert!(resolve_fake_api(FakeVa::Special(0), &t, &names).is_none());
    let r = resolve_com(ComInterface::Other(4), 9, &[], "", Some(api));
    assert_eq!((r.library.as_str(), r.name.as_str()), ("D3D9.dll", "Com4::Method9"));
    assert_eq!(r.winapi_id, Some(1));
    let d3d = [String::from("QueryInterface")];
    assert_eq!(com_method_name(ComInterface::Direct3D9, 0, &d3d, ""), "QueryInterface");
    assert_eq!(com_method_name(ComInterface::Direct3D9, 7, &d3d, ""), "IDirect3D9::Slot007");
    assert_eq!(com_method_name(ComInterface::Direct3D9, 42, &d3d, ""), "IDirect3D9::Slot042");
    assert_eq!(com_method_name(ComInterface::Direct3D9, 255, &d3d, ""), "IDirect3D9::Slot255");
    assert_eq!(com_method_name(ComInterface::Direct3DDevice9, 7, &d3d, "Clear"), "Clear");
}

#[test]
fn stub_entries_are_collected_once() {
    let mut t = SoftApiTable::new();
    t.intern("s.dll", "a", 0, PLAIN, 5).unwrap();
    t.intern("s.dll", "b", 0, PLAIN, 6).unwrap();
    let iat = [entry(5, "x", "p"), entry(5, "x", "q")];
    let v = collect_stub_entries(&iat, &t);
    let names: Vec<&str> = v.iter().map(|e| e.name.as_str()).collect();
    assert_eq!(names, ["p", "q", "b"]);
}

#[test]
fn threads_keep_their_registers() {
    let mut t = ThreadContexts::new(1);
    let mut cpu = RegFile::new();
    cpu.set_gpr(RAX, 11);
    assert_eq!(t.activate_thread(&mut cpu, 1), Switch { saved: false, restored: false });
    assert_eq!(t.activate_thread(&mut cpu, 2), Switch { saved: true, restored: false });
    assert_eq!((t.current_tid(), cpu.gpr(RAX)), (2, 11));
    cpu.set_gpr(RAX, 22);
    assert_eq!(t.activate_thread(&mut cpu, 1), Switch { saved: true, restored: true });
    assert_eq!(cpu.gpr(RAX), 11);
    cpu.set_gpr(RAX, 12);
    t.deactivate_thread(&cpu, 1);
    cpu.set_gpr(RAX, 99);
    assert_eq!(t.activate_thread(&mut cpu, 1), Switch { saved: false, restored: true });
    assert_eq!(cpu.gpr(RAX), 12);
    t.activate_thread(&mut cpu, 2);
    assert_eq!(cpu.gpr(RAX), 22);
}

#[test]
fn ending_the_process_wakes_everyone() {
    let objects = [
        KernelObject::Event,
        KernelObject::Thread { tid: 3, finished: false },
        KernelObject::Semaphore,
        KernelObject::Thread { tid: 3, finished: true },
        KernelObject::Thread { tid: 4, finished: true },
    ];
    assert_eq!(
        join_workers(&objects),
        [
            Wake::SetEvent,
            Wake::FinishThread(1),
            Wake::NotifySemaphore,
            Wake::Leave,
            Wake::Leave
        ]
    );
    assert_eq!(finish_tid(&objects, 3), Some(1));
    assert_eq!(finish_tid(&objects, 4), Some(4));
    assert_eq!(finish_tid(&objects, 5), None);
    assert_eq!(worker_name(17), "wie-guest-17");
}

fn next(w: Worker, e: WorkerEvent) -> (Worker, WorkerAction) {
    worker_next(w, e, 0x9000)
}

#[test]
fn a_worker_runs_until_its_thread_returns() {
    let free = WorkerEvent::Locked { dying: false };
    assert_eq!(next(Worker::Idle, free), (Worker::Active, WorkerAction::Activate));
    let at = |rip, rax| WorkerEvent::Registers { rip, rax };
    assert_eq!(
        next(Worker::Active, at(Some(0x10), None)),
        (Worker::Running, WorkerAction::Run { begin: 0x10 })
    );
    assert_eq!(
        next(Worker::Active, at(Some(0), Some(0xffff_ffff_0000_0007))),
        (Worker::Finished, WorkerAction::Finish { code: 7 })
    );
    assert_eq!(
        next(Worker::Active, at(None, None)),
        (Worker::Finished, WorkerAction::Finish { code: 0 })
    );
    assert_eq!(
        next(Worker::Running, WorkerEvent::Stopped(GuestStop::Quantum)),
        (Worker::Idle, WorkerAction::SaveAndYield)
    );
    assert_eq!(
        next(Worker::Running, WorkerEvent::Stopped(GuestStop::Failed)),
        (Worker::Finished, WorkerAction::Finish { code: 1 })
    );
    assert_eq!(
        next(Worker::Running, WorkerEvent::Stopped(GuestStop::Hit(0x9000))),
        (Worker::Idle, WorkerAction::Save)
    );
    assert_eq!(
        next(Worker::Running, WorkerEvent::Stopped(GuestStop::Hit(0x9010))),
        (Worker::Resolving, WorkerAction::Resolve { address: 0x9010 })
    );
    let resolved = |exits| WorkerEvent::Resolved { exits, rcx: Some(0x1_0000_0003) };
    assert_eq!(
        next(Worker::Resolving, resolved(None)),
        (Worker::Finished, WorkerAction::Finish { code: 1 })
    );
    assert_eq!(
        next(Worker::Resolving, resolved(Some(true))),
        (Worker::Finished, WorkerAction::EndProcess { code: 3 })
    );
    assert_eq!(
        next(Worker::Resolving, resolved(Some(false))),
        (Worker::Dispatching, WorkerAction::Dispatch)
    );
    assert_eq!(
        next(Worker::Dispatching, WorkerEvent::Handled(Dispatched::Done)),
        (Worker::Idle, WorkerAction::Save)
    );
    assert_eq!(
        next(Worker::Dispatching, WorkerEvent::Handled(Dispatched::ExitThread { code: 5 })),
        (Worker::Finished, WorkerAction::Finish { code: 5 })
    );
    assert_eq!(
        next(Worker::Dispatching, WorkerEvent::Handled(Dispatched::Failed)),
        (Worker::Finished, WorkerAction::Finish { code: 1 })
    );
}

#[test]
fn a_worker_waits_on_the_host() {
    let free = WorkerEvent::Locked { dying: false };
    let cs = HostParkReason::CriticalSection { cs: 0x40 };
    assert_eq!(
        next(Worker::Dispatching, WorkerEvent::Handled(Dispatched::HostPark(cs))),
        (Worker::Parking(cs), WorkerAction::Save)
    );
    assert_eq!(
        next(Worker::Parking(cs), free),
        (Worker::Idle, WorkerAction::ParkBriefly { cs: 0x40 })
    );
    let object = HostParkReason::WaitObject { handle: 6, timeout_ms: INFINITE };
    let (w, a) = next(Worker::Parking(object), free);
    assert_eq!(a, WorkerAction::FindObject { handle: 6 });
    assert_eq!(
        next(w, WorkerEvent::Found(None)),
        (Worker::Returning { result: WAIT_FAILED }, WorkerAction::Lock)
    );
    let (w, a) = next(w, WorkerEvent::Found(Some(0)));
    assert_eq!(a, WorkerAction::Wait { ms: 50 });
    let (again, a) = next(w, WorkerEvent::Waited(WAIT_TIMEOUT));
    assert_eq!((again, a), (Worker::StillWaiting { many: false }, WorkerAction::Lock));
    assert_eq!(next(again, free), (w, WorkerAction::Wait { ms: 50 }));
    let (w, _) = next(w, WorkerEvent::Waited(0));
    assert_eq!(next(w, free), (Worker::Idle, WorkerAction::ReturnToGuest { result: 0 }));
    let (w, a) = next(Worker::Parking(HostParkReason::WaitMultiple), free);
    assert_eq!(a, WorkerAction::FindObjects);
    let (endless, _) = next(w, WorkerEvent::Found(Some(INFINITE)));
    let (w3, _) = next(endless, WorkerEvent::Waited(3));
    assert_eq!(w3, Worker::Returning { result: 3 });
    let (limited, a) = next(w, WorkerEvent::Found(Some(20)));
    assert_eq!(a, WorkerAction::Wait { ms: 20 });
    let (w, _) = next(limited, WorkerEvent::Waited(WAIT_TIMEOUT));
    assert_eq!(w, Worker::Returning { result: WAIT_TIMEOUT });
    for w in [
        Worker::Idle,
        Worker::Parking(cs),
        Worker::StillWaiting { many: true },
        Worker::Returning { result: 0 },
    ] {
        assert_eq!(
            next(w, WorkerEvent::Locked { dying: true }),
            (Worker::Finished, WorkerAction::Finish { code: 1 })
        );
    }
    assert_eq!(hook_end(0x1000, 0x10), 0x100f);
    assert_eq!(hook_end(u64::MAX, 2), u64::MAX - 1);
    assert_eq!(hook_end(0, 0), 0);
}

fn event(library: &str, name: &str, handled: bool) -> EntryTraceEvent {
    EntryTraceEvent {
        index: 3,
        library: String::from(library),
        name: String::from(name),
        fake_target_va: 0x10,
        handled,
        return_value: None,
        return_address: Some(0x20),
    }
}

fn run(termination: EntryTraceTermination, events: Vec<EntryTraceEvent>) -> RuntimeRunSummary {
    RuntimeRunSummary { events, termination, final_rip: 1, final_rsp: 2 }
}

fn waiting(events: Vec<EntryTraceEvent>) -> RuntimeRunSummary {
    run(EntryTraceTermination::WaitingForMessage, events)
}

#[test]
fn terminations_are_described() {
    let t = |t: &EntryTraceTermination| termination_text(t);
    assert_eq!(t(&EntryTraceTermination::ExitProcess { code: 4 }), "ExitProcess { code: 4 }");
    assert_eq!(
        t(&EntryTraceTermination::UnsupportedApi(String::from("a\"b\n"))),
        "UnsupportedApi(\"a\\\"b\\n\")"
    );
    assert_eq!(t(&EntryTraceTermination::RuntimeStop(String::from("x"))), "RuntimeStop(\"x\")");
    assert_eq!(t(&EntryTraceTermination::ApiLimit), "ApiLimit");
    assert_eq!(t(&EntryTraceTermination::WaitingForMessage), "WaitingForMessage");
    assert_eq!(
        t(&EntryTraceTermination::GuestCallbackRequested { request: String::from("R") }),
        "GuestCallbackRequested { request: R }"
    );
    assert_eq!(
        describe_termination(&EntryTraceTermination::RuntimeStop(String::new()), "q"),
        "RuntimeStop(q)"
    );
}

#[test]
fn lines_about_a_trace() {
    assert_eq!(format_optional_hex(None), "-");
    assert_eq!(format_optional_hex(Some(0x1_4000_0000)), "0x0000000140000000");
    assert_eq!(
        format_entry_trace_event(&event("K.dll", "F", true)),
        "api[3] handled fake=0x0000000000000010 ret=- resume=0x0000000000000020 K.dll!F"
    );
    let s = entry_summary(0x100, 0x200, run(EntryTraceTermination::ApiLimit, vec![event("A", "b", false)]));
    let lines = entry_trace_lines(&s);
    assert_eq!(
        lines[0],
        "entry=0x0000000000000100 initial_rsp=0x0000000000000200 termination=ApiLimit \
         final_rip=0x0000000000000001 final_rsp=0x0000000000000002"
    );
    assert_eq!(
        lines[1],
        "api[3] unsupported fake=0x0000000000000010 ret=- resume=0x0000000000000020 A!b"
    );
    assert_eq!(lines.len(), 2);
}

#[test]
fn report_about_a_small_program() {
    let mut e = event("A", "b", true);
    e.return_value = Some(9);
    let done = run(EntryTraceTermination::ExitProcess { code: 0 }, vec![e, event("A", "c", false)]);
    let s = micro_summary("p.exe", 0x100, 0x200, done, "jit");
    assert_eq!(s.exit_code, Some(0));
    assert_eq!(
        micro_report(&s),
        [
            "run_micro: path=p.exe",
            "cpu_backend: jit",
            "entry=0x0000000000000100 initial_rsp=0x0000000000000200",
            "events=2 termination=ExitProcess { code: 0 }",
            "  [   3] A!b handled=true ret=Some(9)",
            "  [   3] A!c handled=false ret=None",
        ]
    );
    assert_eq!(micro_verdict(&s, 0).unwrap(), "run_micro: ok exit=0");
    assert_eq!(micro_verdict(&s, 2).unwrap_err(), "run_micro: exit=0 expected=2");
    let s = micro_summary("p", 0, 0, run(EntryTraceTermination::ApiLimit, vec![]), "iced");
    assert_eq!(s.exit_code, None);
    assert_eq!(
        micro_verdict(&s, 0).unwrap_err(),
        "run_micro: did not reach ExitProcess (termination=ApiLimit)"
    );
}

#[test]
fn wide_event_numbers_are_not_padded() {
    for (n, want) in [(42, "  [  42] "), (999, "  [ 999] "), (12345, "  [12345] ")] {
        let mut e = event("A", "b", true);
        e.index = n;
        let s = micro_summary("p", 0, 0, run(EntryTraceTermination::ApiLimit, vec![e]), "iced");
        assert!(micro_report(&s)[4].starts_with(want));
    }
}

#[test]
fn resume_and_callback_scenarios_are_checked() {
    assert!(check_resume_start(&waiting(vec![])).is_ok());
    assert_eq!(
        check_resume_start(&run(EntryTraceTermination::ApiLimit, vec![])).unwrap_err().message(),
        "persistent smoke expected WaitingForMessage, got ApiLimit"
    );
    assert_eq!(check_callback_start(&waiting(vec![]), Some(7)).unwrap(), 7);
    assert_eq!(
        check_callback_start(&waiting(vec![]), None).unwrap_err().message(),
        "callback smoke found no window backed by a guest WndProc"
    );
    assert_eq!(
        check_callback_start(&run(EntryTraceTermination::ApiLimit, vec![]), None)
            .unwrap_err()
            .message(),
        "callback smoke expected initial WaitingForMessage, got ApiLimit"
    );
    let mut e = event("user32.dll", "dispatchmessagea", false);
    e.return_value = Some(0);
    assert!(check_callback_run(&waiting(vec![e]), 0).is_ok());
    assert_eq!(
        check_callback_run(&waiting(vec![]), 2).unwrap_err().message(),
        "callback smoke left 2 pending guest callback(s)"
    );
    assert_eq!(
        check_callback_run(&waiting(vec![event("USER32.dll", "DispatchMessageA", true)]), 0)
            .unwrap_err()
            .message(),
        "callback smoke did not observe a completed DispatchMessageA \
         (with LRESULT and resume address) after the guest WndProc"
    );
    assert_eq!(
        check_callback_run(&run(EntryTraceTermination::ApiLimit, vec![]), 0).unwrap_err().message(),
        "callback smoke expected WaitingForMessage after WndProc completed, got ApiLimit"
    );
}

#[test]
fn mounted_files_are_checked() {
    assert_eq!(header_prefix_len(3), 3);
    assert_eq!(header_prefix_len(1 << 40), 16);
    assert!(check_rom_not_empty(1, "r").is_ok());
    assert_eq!(
        check_rom_not_empty(0, "r").unwrap_err().message(),
        "mounted ROM opened with zero size: r"
    );
    assert!(check_rom_size(5, 5, "r").is_ok());
    assert_eq!(
        check_rom_size(5, 6, "r").unwrap_err().message(),
        "mounted ROM size mismatch guest=5 host=6 path=r"
    );
    let s = rom_filesystem_summary("g", "h", 4, 5, vec![1], &waiting(vec![])).unwrap();
    assert_eq!((s.guest_path.as_str(), s.host_path.as_str(), s.handle, s.size), ("g", "h", 4, 5));
    assert!(s.message_loop_yielded);
    assert_eq!(s.header_prefix, [1]);
    assert_eq!(
        rom_filesystem_summary("g", "h", 4, 5, vec![], &run(EntryTraceTermination::ApiLimit, vec![]))
            .unwrap_err()
            .message(),
        "rom fs smoke expected WaitingForMessage after bootstrap, got ApiLimit"
    );
}

fn window(handle: u64, class: &str, title: &str, has_proc: bool) -> GuestWindow {
    GuestWindow { handle, class: String::from(class), title: String::from(title), has_proc }
}

#[test]
fn windows_are_chosen() {
    assert!(mentions_text("xSMWy", "smw"));
    assert!(mentions_text("smw", "SMW"));
    assert!(!mentions_text("sm", "smw"));
    assert!(mentions_text("", ""));
    assert!(mentions_text("abc", ""));
    assert!(!mentions_text("abd", "bc"));
    let windows = [
        window(1, "Button", "x", false),
        window(2, "Tool", "x", true),
        window(3, "Tool", "Level 105", true),
        window(2, "Tool", "x", true),
        window(4, "LevelEditor", "", false),
    ];
    assert_eq!(command_window_candidates(None, &windows), [2, 3]);
    assert_eq!(command_window_candidates(Some(3), &windows), [3, 2]);
    assert_eq!(command_window_candidates(Some(9), &windows), [9, 2, 3]);
    assert_eq!(level_editor_targets(&windows), [3]);
    assert_eq!(level_editor_targets(&windows[..2]), [2]);
    assert_eq!(level_editor_targets(&[window(5, "xlevelx", "", true)]), [5]);
    assert!(saw_level_editor_window(&windows));
    assert!(!saw_level_editor_window(&windows[..2]));
    assert!(!saw_level_editor_window(&[window(5, "xlevelx", "", true)]));
}

#[test]
fn open_files_are_found() {
    let f = |handle, path: &str| OpenFile { handle, path: String::from(path), size: 10 + handle };
    let files = [f(1, "C:\\a\\other.smc"), f(2, "D:\\ROMS\\Game.SMC"), f(3, "C:/x/game.smc")];
    assert_eq!(find_open_file(&files, "C:\\roms\\game.smc"), Some((2, 12)));
    assert_eq!(find_open_file(&files, "x/game.smc"), Some((2, 12)));
    assert_eq!(find_open_file(&files, "OTHER.smc"), Some((1, 11)));
    assert_eq!(find_open_file(&files, "a\\OTHER"), Some((1, 11)));
    assert_eq!(find_open_file(&files, "none"), None);
}

fn opened() -> OpenRomSmokeSummary {
    let dialog = waiting(vec![event("COMDLG32.dll", "GetOpenFileNameW", true)]);
    let files = [OpenFile { handle: 8, path: String::from("c:\\r.smc"), size: 99 }];
    open_rom_summary(0x100, "C:\\R.SMC", "/h", (3, 0x238d), waiting(vec![]), dialog, &files, &[])
}

#[test]
fn a_rom_is_opened_by_trying_commands() {
    let windows = [window(2, "", "", true), window(3, "", "", true)];
    let mut s = OpenRomSearch::new("open-rom smoke", Some(3), &windows).unwrap();
    let idle = waiting(vec![event("KERNEL32.dll", "CreateFileA", false)]);
    let mut tried = vec![s.current()];
    while s.observe(&idle) {
        tried.push(s.current());
    }
    assert_eq!(
        tried,
        [
            (3, 0x238c),
            (3, 0x238d),
            (3, 0x238e),
            (3, 0x2391),
            (2, 0x238c),
            (2, 0x238d),
            (2, 0x238e),
            (2, 0x2391)
        ]
    );
    let mut s = OpenRomSearch::new("x", None, &windows).unwrap();
    assert!(!s.observe(&waiting(vec![event("kernel32.dll", "createfilew", true)])));
    assert!(!s.observe(&run(EntryTraceTermination::ApiLimit, vec![])));
    assert_eq!(s.current(), (2, 0x238c));
    assert_eq!(
        OpenRomSearch::new("open-rom smoke", None, &[]).unwrap_err().message(),
        "open-rom smoke found no guest window for WM_COMMAND"
    );
    let o = opened();
    assert_eq!((o.window_handle, o.menu_command_id), (3, 0x238d));
    assert!(o.saw_get_open_file_name && !o.saw_create_file && o.returned_to_message_loop);
    assert_eq!((o.rom_handle_open, o.rom_handle, o.rom_size), (true, Some(8), Some(99)));
    assert!(!o.saw_level_editor_window);
}

#[test]
fn probes_follow_an_opened_rom() {
    assert!(check_opened("p", &waiting(vec![event("KERNEL32.dll", "CreateFileA", true)])).is_ok());
    assert_eq!(
        check_opened("post-open paint", &waiting(vec![])).unwrap_err().message(),
        "post-open paint saw no open progress before next phase"
    );
    assert_eq!(
        check_opened("post-open paint", &run(EntryTraceTermination::ApiLimit, vec![]))
            .unwrap_err()
            .message(),
        "post-open paint requires open to return to message loop first; got ApiLimit"
    );
    assert_eq!(
        check_open_start("open-rom smoke", &run(EntryTraceTermination::ApiLimit, vec![]))
            .unwrap_err()
            .message(),
        "open-rom smoke expected initial WaitingForMessage, got ApiLimit"
    );
    let windows = || vec![window(6, "smw", "", true)];
    let painted = waiting(vec![event("user32.dll", "BeginPaint", true)]);
    let p = paint_summary(opened(), windows(), painted);
    assert_eq!(p.paint_targets, [6]);
    assert!(p.saw_begin_paint && !p.saw_end_paint && p.returned_to_message_loop);
    assert_eq!(input_target(&windows()).unwrap(), 6);
    assert_eq!(
        input_target(&[]).unwrap_err().message(),
        "post-open input probe found no level-editor target window"
    );
    assert_eq!(pack_mouse_lparam(128, 96), 0x60_0080);
    let seq = input_sequence();
    assert_eq!(seq.len(), 11);
    assert_eq!((seq[0].message, seq[0].wparam, seq[0].lparam), (0x200, 0, 0x60_0080));
    assert_eq!((seq[8].message, seq[8].wparam, seq[8].label), (0x102, 0x67, "WM_CHAR 'g'"));
    assert_eq!(
        posted_text(6, &seq[4]),
        "hwnd=0x6 WM_KEYUP VK_RIGHT wparam=0x27 lparam=0xc0000001"
    );
    let done = run(EntryTraceTermination::ApiLimit, vec![event("USER32.dll", "SendMessageW", true)]);
    let i = input_summary(opened(), windows(), 6, done);
    assert!(i.saw_dispatch && !i.saw_begin_paint && !i.returned_to_message_loop);
    assert_eq!(i.posted_sequence.len(), 11);
    assert_eq!(i.posted_sequence[10], "hwnd=0x6 WM_PAINT wparam=0x0 lparam=0x0");
}
