//! What the host threads of guest threads keep to over several steps.

use vstd::prelude::*;

use crate::runtime::worker::{
    expects, worker_step, Dispatched, GuestStop, HostParkReason, Worker, WorkerAction, WorkerEvent,
};

verus! {

/// The worker after an event.
pub open spec fn next(w: Worker, e: WorkerEvent, trampoline: u64) -> Worker {
    worker_step(w, e, trampoline).0
}

/// What the worker does on an event.
pub open spec fn does(w: Worker, e: WorkerEvent, trampoline: u64) -> WorkerAction {
    worker_step(w, e, trampoline).1
}

/// The locks, of a process that goes on.
pub open spec fn locked() -> WorkerEvent {
    WorkerEvent::Locked { dying: false }
}

/// A wait for one object with a limit waits for that object and for that long, and
/// whatever the host's wait returned is returned to the guest.
pub proof fn limited_waits_for_one_return(
    handle: u64,
    timeout_ms: u32,
    found: u32,
    result: u32,
    trampoline: u64,
)
    requires
        timeout_ms != 0xffff_ffff,
    ensures
        ({
            let w0 = Worker::Parking(HostParkReason::WaitObject { handle, timeout_ms });
            let w1 = next(w0, locked(), trampoline);
            let w2 = next(w1, WorkerEvent::Found(Some(found)), trampoline);
            let w3 = next(w2, WorkerEvent::Waited(result), trampoline);
            let w4 = next(w3, locked(), trampoline);
            &&& does(w0, locked(), trampoline) == (WorkerAction::FindObject { handle })
            &&& does(w1, WorkerEvent::Found(Some(found)), trampoline) == (WorkerAction::Wait {
                ms: timeout_ms,
            })
            &&& does(w2, WorkerEvent::Waited(result), trampoline) == WorkerAction::Lock
            &&& does(w3, locked(), trampoline) == (WorkerAction::ReturnToGuest { result })
            &&& w4 == Worker::Idle
        }),
{
}

/// A wait for several objects with a limit waits for that long, and whatever the host's
/// wait returned is returned to the guest.
pub proof fn limited_waits_for_several_return(timeout_ms: u32, result: u32, trampoline: u64)
    requires
        timeout_ms != 0xffff_ffff,
    ensures
        ({
            let w0 = Worker::Parking(HostParkReason::WaitMultiple);
            let w1 = next(w0, locked(), trampoline);
            let w2 = next(w1, WorkerEvent::Found(Some(timeout_ms)), trampoline);
            let w3 = next(w2, WorkerEvent::Waited(result), trampoline);
            let w4 = next(w3, locked(), trampoline);
            &&& does(w0, locked(), trampoline) == WorkerAction::FindObjects
            &&& does(w1, WorkerEvent::Found(Some(timeout_ms)), trampoline) == (WorkerAction::Wait {
                ms: timeout_ms,
            })
            &&& does(w2, WorkerEvent::Waited(result), trampoline) == WorkerAction::Lock
            &&& does(w3, locked(), trampoline) == (WorkerAction::ReturnToGuest { result })
            &&& w4 == Worker::Idle
        }),
{
}

/// A wait without limit for one object that is not the object's yet waits again, with
/// the process looked at between; once it is the object's, the guest is told so.
pub proof fn endless_waits_for_one_go_on(
    handle: u64,
    found: u32,
    result: u32,
    trampoline: u64,
)
    ensures
        ({
            let w0 = Worker::Parking(
                HostParkReason::WaitObject { handle, timeout_ms: 0xffff_ffff },
            );
            let w1 = next(w0, locked(), trampoline);
            let w2 = next(w1, WorkerEvent::Found(Some(found)), trampoline);
            let w3 = next(w2, WorkerEvent::Waited(result), trampoline);
            let slice = does(w1, WorkerEvent::Found(Some(found)), trampoline);
            &&& slice == (WorkerAction::Wait { ms: 50 })
            &&& does(w2, WorkerEvent::Waited(result), trampoline) == WorkerAction::Lock
            &&& result == 0 ==> worker_step(w3, locked(), trampoline) == (
                Worker::Idle,
                WorkerAction::ReturnToGuest { result: 0 },
            )
            &&& result != 0 ==> worker_step(w3, locked(), trampoline) == (w2, slice)
            &&& does(w3, WorkerEvent::Locked { dying: true }, trampoline) == (
            WorkerAction::Finish { code: 1 })
        }),
{
}

/// A wait without limit for several objects waits again when a slice runs out of time,
/// and returns to the guest whatever else a slice returns.
pub proof fn endless_waits_for_several_go_on(result: u32, trampoline: u64)
    ensures
        ({
            let w0 = Worker::Parking(HostParkReason::WaitMultiple);
            let w1 = next(w0, locked(), trampoline);
            let w2 = next(w1, WorkerEvent::Found(Some(0xffff_ffff)), trampoline);
            let w3 = next(w2, WorkerEvent::Waited(result), trampoline);
            let slice = does(w1, WorkerEvent::Found(Some(0xffff_ffff)), trampoline);
            &&& slice == (WorkerAction::Wait { ms: 50 })
            &&& does(w2, WorkerEvent::Waited(result), trampoline) == WorkerAction::Lock
            &&& result == 0x102 ==> worker_step(w3, locked(), trampoline) == (w2, slice)
            &&& result != 0x102 ==> worker_step(w3, locked(), trampoline) == (
                Worker::Idle,
                WorkerAction::ReturnToGuest { result },
            )
            &&& does(w3, WorkerEvent::Locked { dying: true }, trampoline) == (
            WorkerAction::Finish { code: 1 })
        }),
{
}

/// A worker that waits with a limit, for one object or for several, next returns exactly
/// the result of that wait to the guest, unless the process ends.
pub proof fn limited_waits_end(many: bool, e: WorkerEvent, f: WorkerEvent, trampoline: u64)
    requires
        expects(Worker::Waiting { many, endless: false }, e),
        expects(next(Worker::Waiting { many, endless: false }, e, trampoline), f),
    ensures
        ({
            let w = next(Worker::Waiting { many, endless: false }, e, trampoline);
            &&& e is Waited
            &&& f is Locked
            &&& worker_step(w, f, trampoline) == if f->dying {
                (Worker::Finished, WorkerAction::Finish { code: 1 })
            } else {
                (Worker::Idle, WorkerAction::ReturnToGuest { result: e->Waited_0 })
            }
        }),
{
}

/// No step leads from a wait with a limit, or from anything but a wait without one, to
/// between two slices; and a wait without limit starts only from there or where no
/// limit was asked for.
pub proof fn slices_are_of_endless_waits(w: Worker, e: WorkerEvent, trampoline: u64)
    requires
        expects(w, e),
    ensures
        next(w, e, trampoline) matches Worker::StillWaiting { many } ==> w == (Worker::Waiting {
            many,
            endless: true,
        }),
        next(w, e, trampoline) matches Worker::Waiting { many, endless: true } ==> w == (
        Worker::StillWaiting { many }) || (!many && w == (Worker::FindingObject {
            timeout_ms: 0xffff_ffff,
        })) || (many && w == Worker::FindingObjects && e == WorkerEvent::Found(Some(0xffff_ffff))),
        next(w, e, trampoline) matches Worker::FindingObject { timeout_ms } ==> exists|handle: u64|
            w == Worker::Parking(HostParkReason::WaitObject { handle, timeout_ms }),
{
    if next(w, e, trampoline) is FindingObject {
        let handle = w->Parking_0->handle;
        assert(w == Worker::Parking(
            HostParkReason::WaitObject {
                handle,
                timeout_ms: next(w, e, trampoline)->FindingObject_timeout_ms,
            },
        ));
    }
}

/// A guest that waits for what cannot be found is told that its wait failed.
pub proof fn unknown_objects_fail(w: Worker, trampoline: u64)
    requires
        expects(w, WorkerEvent::Found(None)),
    ensures
        ({
            let v = next(w, WorkerEvent::Found(None), trampoline);
            &&& does(w, WorkerEvent::Found(None), trampoline) == WorkerAction::Lock
            &&& worker_step(v, locked(), trampoline) == (
                Worker::Idle,
                WorkerAction::ReturnToGuest { result: 0xffff_ffff },
            )
        }),
{
}

/// A quantum: the guest runs from where its thread stands; at an API address that does
/// not end the process its handler is called, and the thread is saved.
pub proof fn quanta_dispatch(
    rip: u64,
    rax: Option<u64>,
    address: u64,
    rcx: Option<u64>,
    trampoline: u64,
)
    requires
        rip != 0,
        address != trampoline,
    ensures
        ({
            let registers = WorkerEvent::Registers { rip: Some(rip), rax };
            let hit = WorkerEvent::Stopped(GuestStop::Hit(address));
            let known = WorkerEvent::Resolved { exits: Some(false), rcx };
            let w1 = next(Worker::Idle, locked(), trampoline);
            let w2 = next(w1, registers, trampoline);
            let w3 = next(w2, hit, trampoline);
            let w4 = next(w3, known, trampoline);
            &&& does(Worker::Idle, locked(), trampoline) == WorkerAction::Activate
            &&& does(w1, registers, trampoline) == (WorkerAction::Run { begin: rip })
            &&& does(w2, hit, trampoline) == (WorkerAction::Resolve { address })
            &&& does(w3, known, trampoline) == WorkerAction::Dispatch
            &&& worker_step(w4, WorkerEvent::Handled(Dispatched::Done), trampoline) == (
                Worker::Idle,
                WorkerAction::Save,
            )
            &&& worker_step(w2, WorkerEvent::Stopped(GuestStop::Hit(trampoline)), trampoline) == (
                Worker::Idle,
                WorkerAction::Save,
            )
            &&& worker_step(w2, WorkerEvent::Stopped(GuestStop::Quantum), trampoline) == (
                Worker::Idle,
                WorkerAction::SaveAndYield,
            )
        }),
{
}

/// A handler that parks its thread has it saved; the worker then waits for what the
/// handler named, with the locks taken again.
pub proof fn parked_threads_wait_for_their_reason(cs: u64, reason: HostParkReason, trampoline: u64)
    ensures
        ({
            let parked = WorkerEvent::Handled(Dispatched::HostPark(reason));
            let w = next(Worker::Dispatching, parked, trampoline);
            &&& does(Worker::Dispatching, parked, trampoline) == WorkerAction::Save
            &&& expects(w, locked())
            &&& reason == (HostParkReason::CriticalSection { cs }) ==> worker_step(
                w,
                locked(),
                trampoline,
            ) == (Worker::Idle, WorkerAction::ParkBriefly { cs })
            &&& reason is WaitObject ==> does(w, locked(), trampoline) == (
            WorkerAction::FindObject { handle: reason->handle })
            &&& reason is WaitMultiple ==> does(w, locked(), trampoline)
                == WorkerAction::FindObjects
        }),
{
}

/// How threads end: one that returned from its entry point, with the low half of its
/// return value; one that asked to, with the code it gave; one that ended its process,
/// with the low half of its argument; any other that cannot go on, and all of a process
/// that ends, with 1.
pub proof fn threads_end_with_their_codes(
    w: Worker,
    e: WorkerEvent,
    rax: u64,
    rcx: u64,
    code: u32,
    trampoline: u64,
)
    requires
        expects(w, e),
    ensures
        e == (WorkerEvent::Registers { rip: Some(0), rax: Some(rax) }) || e == (
        WorkerEvent::Registers { rip: None, rax: Some(rax) }) ==> worker_step(w, e, trampoline) == (
            Worker::Finished,
            WorkerAction::Finish { code: rax as u32 },
        ),
        e == (WorkerEvent::Registers { rip: Some(0), rax: None }) || e == (
        WorkerEvent::Registers { rip: None, rax: None }) ==> worker_step(w, e, trampoline) == (
            Worker::Finished,
            WorkerAction::Finish { code: 0 },
        ),
        e == WorkerEvent::Handled(Dispatched::ExitThread { code }) ==> worker_step(
            w,
            e,
            trampoline,
        ) == (Worker::Finished, WorkerAction::Finish { code }),
        e == (WorkerEvent::Resolved { exits: Some(true), rcx: Some(rcx) }) ==> worker_step(
            w,
            e,
            trampoline,
        ) == (Worker::Finished, WorkerAction::EndProcess { code: rcx as u32 }),
        e == (WorkerEvent::Resolved { exits: Some(true), rcx: None }) ==> worker_step(
            w,
            e,
            trampoline,
        ) == (Worker::Finished, WorkerAction::EndProcess { code: 0 }),
        e == (WorkerEvent::Locked { dying: true }) || e == WorkerEvent::Stopped(GuestStop::Failed)
            || e == WorkerEvent::Handled(Dispatched::Failed) || (e is Resolved
            && e->exits is None) ==> worker_step(w, e, trampoline) == (
            Worker::Finished,
            WorkerAction::Finish { code: 1 },
        ),
        next(w, e, trampoline) is Finished ==> e is Registers || e is Handled || e is Resolved || e
            is Stopped || e == (WorkerEvent::Locked { dying: true }),
{
    assert((rax % 0x1_0000_0000) as u32 == rax as u32 && (rcx % 0x1_0000_0000) as u32
        == rcx as u32) by (bit_vector);
}

} // verus!
