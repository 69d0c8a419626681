//! What the host thread of a guest thread does next, given what happened.

use vstd::prelude::*;

verus! {

/// A wait that succeeded.
pub const WAIT_OBJECT_0: u32 = 0;

/// A wait that ran out of time.
pub const WAIT_TIMEOUT: u32 = 0x102;

/// A wait that could not be made.
pub const WAIT_FAILED: u32 = 0xffff_ffff;

/// No limit to a wait.
pub const INFINITE: u32 = 0xffff_ffff;

/// Milliseconds after which a wait without limit looks whether the process ends.
pub const WAIT_SLICE_MS: u32 = 50;

/// Why a worker waits on the host.
#[derive(Debug, Clone, Copy, PartialEq, Eq, Structural)]
pub enum HostParkReason {
    /// For a critical section.
    CriticalSection {
        /// Its address.
        cs: u64,
    },
    /// For an object.
    WaitObject {
        /// Its handle.
        handle: u64,
        /// For how long.
        timeout_ms: u32,
    },
    /// For several objects, which the thread has listed.
    WaitMultiple,
}

/// Where a worker is. Those from `Active` to `Dispatching` have the machine and its
/// locks.
#[derive(Debug, Clone, Copy, PartialEq, Eq, Structural)]
pub enum Worker {
    /// Before a quantum, without locks.
    Idle,
    /// Its thread was made the running one.
    Active,
    /// Its thread runs.
    Running,
    /// Its thread stopped at an API address.
    Resolving,
    /// An API handler runs.
    Dispatching,
    /// About to wait, without locks.
    Parking(HostParkReason),
    /// Looking for the object to wait for.
    FindingObject {
        /// For how long to wait.
        timeout_ms: u32,
    },
    /// Looking for the objects to wait for.
    FindingObjects,
    /// Waiting.
    Waiting {
        /// For several objects.
        many: bool,
        /// Without a limit.
        endless: bool,
    },
    /// Between two slices of a wait without limit.
    StillWaiting {
        /// For several objects.
        many: bool,
    },
    /// About to return the result of a wait to the guest.
    Returning {
        /// The result.
        result: u32,
    },
    /// At its end.
    Finished,
}

/// What stopped the guest.
#[derive(Debug, Clone, Copy, PartialEq, Eq, Structural)]
pub enum GuestStop {
    /// An API address.
    Hit(u64),
    /// The end of its quantum.
    Quantum,
    /// A failure.
    Failed,
}

/// How a handler ended.
#[derive(Debug, Clone, Copy, PartialEq, Eq, Structural)]
pub enum Dispatched {
    /// It returned to the guest.
    Done,
    /// The thread ends.
    ExitThread {
        /// With this code.
        code: u32,
    },
    /// The thread must wait on the host.
    HostPark(HostParkReason),
    /// It failed.
    Failed,
}

/// What happened to a worker.
#[derive(Debug, Clone, Copy, PartialEq, Eq, Structural)]
pub enum WorkerEvent {
    /// It has the locks.
    Locked {
        /// The process is ending.
        dying: bool,
    },
    /// It read the registers of its thread, where it could.
    Registers {
        /// Instruction pointer.
        rip: Option<u64>,
        /// Return value.
        rax: Option<u64>,
    },
    /// The guest stopped.
    Stopped(GuestStop),
    /// The API at the address is known, or not.
    Resolved {
        /// Whether the API ends the process, if it is known.
        exits: Option<bool>,
        /// First argument, where it could be read.
        rcx: Option<u64>,
    },
    /// The handler ended.
    Handled(Dispatched),
    /// The objects to wait for were found, with the time to wait, or not.
    Found(Option<u32>),
    /// A wait ended.
    Waited(u32),
}

/// What a worker does.
#[derive(Debug, Clone, Copy, PartialEq, Eq, Structural)]
pub enum WorkerAction {
    /// Make its thread the running one and read its registers.
    Activate,
    /// Run the guest.
    Run {
        /// From here.
        begin: u64,
    },
    /// Find out what an address stands for.
    Resolve {
        /// The address.
        address: u64,
    },
    /// Call the handler.
    Dispatch,
    /// Save its thread and let go of the locks.
    Save,
    /// The same, and let other host threads go first.
    SaveAndYield,
    /// Wait briefly for a critical section.
    ParkBriefly {
        /// Its address.
        cs: u64,
    },
    /// Look for an object.
    FindObject {
        /// Its handle.
        handle: u64,
    },
    /// Look for the objects that the thread has listed.
    FindObjects,
    /// Wait.
    Wait {
        /// For at most this long.
        ms: u32,
    },
    /// Take the locks.
    Lock,
    /// Make the thread the running one, return a value from its API call, and save it.
    ReturnToGuest {
        /// The value.
        result: u32,
    },
    /// Finish the thread.
    Finish {
        /// With this code.
        code: u32,
    },
    /// Mark the process as ending and finish the thread.
    EndProcess {
        /// With this code.
        code: u32,
    },
}

/// Whether a worker waits for such an event.
pub open spec fn expects(w: Worker, e: WorkerEvent) -> bool {
    match w {
        Worker::Idle | Worker::Parking(_) | Worker::StillWaiting { .. } | Worker::Returning {
            ..
        } => e is Locked,
        Worker::Active => e is Registers,
        Worker::Running => e is Stopped,
        Worker::Resolving => e is Resolved,
        Worker::Dispatching => e is Handled,
        Worker::FindingObject { .. } | Worker::FindingObjects => e is Found,
        Worker::Waiting { .. } => e is Waited,
        Worker::Finished => false,
    }
}

/// A register that could be read, or zero.
pub open spec fn or_zero(v: Option<u64>) -> u64 {
    match v {
        Some(x) => x,
        None => 0,
    }
}

/// What a worker does that has the locks.
pub open spec fn after_lock(w: Worker) -> (Worker, WorkerAction) {
    match w {
        Worker::Parking(HostParkReason::CriticalSection { cs }) => (
            Worker::Idle,
            WorkerAction::ParkBriefly { cs },
        ),
        Worker::Parking(HostParkReason::WaitObject { handle, timeout_ms }) => (
            Worker::FindingObject { timeout_ms },
            WorkerAction::FindObject { handle },
        ),
        Worker::Parking(HostParkReason::WaitMultiple) => (
            Worker::FindingObjects,
            WorkerAction::FindObjects,
        ),
        Worker::StillWaiting { many } => (
            Worker::Waiting { many, endless: true },
            WorkerAction::Wait { ms: WAIT_SLICE_MS },
        ),
        Worker::Returning { result } => (Worker::Idle, WorkerAction::ReturnToGuest { result }),
        _ => (Worker::Active, WorkerAction::Activate),
    }
}

/// A wait that starts. One without limit is made in slices.
pub open spec fn start_wait(many: bool, timeout_ms: u32) -> (Worker, WorkerAction) {
    (
        Worker::Waiting { many, endless: timeout_ms == INFINITE },
        WorkerAction::Wait {
            ms: if timeout_ms == INFINITE {
                WAIT_SLICE_MS
            } else {
                timeout_ms
            },
        },
    )
}

/// Whether the result of a slice ends a wait without limit: for one object if it is
/// the object's, for several if it is not that time ran out.
pub open spec fn ends_wait(many: bool, result: u32) -> bool {
    if many {
        result != WAIT_TIMEOUT
    } else {
        result == WAIT_OBJECT_0
    }
}

/// A worker at its end.
pub open spec fn finished(code: u32) -> (Worker, WorkerAction) {
    (Worker::Finished, WorkerAction::Finish { code })
}

/// What a worker does next. `trampoline` is the address at which callbacks return.
pub open spec fn worker_step(w: Worker, e: WorkerEvent, trampoline: u64) -> (Worker, WorkerAction) {
    match e {
        WorkerEvent::Locked { dying } => if dying {
            finished(1)
        } else {
            after_lock(w)
        },
        WorkerEvent::Registers { rip, rax } => if or_zero(rip) == 0 {
            finished((or_zero(rax) % 0x1_0000_0000) as u32)
        } else {
            (Worker::Running, WorkerAction::Run { begin: or_zero(rip) })
        },
        WorkerEvent::Stopped(GuestStop::Quantum) => (Worker::Idle, WorkerAction::SaveAndYield),
        WorkerEvent::Stopped(GuestStop::Failed) => finished(1),
        WorkerEvent::Stopped(GuestStop::Hit(address)) => if address == trampoline {
            (Worker::Idle, WorkerAction::Save)
        } else {
            (Worker::Resolving, WorkerAction::Resolve { address })
        },
        WorkerEvent::Resolved { exits, rcx } => match exits {
            None => finished(1),
            Some(true) => (
                Worker::Finished,
                WorkerAction::EndProcess { code: (or_zero(rcx) % 0x1_0000_0000) as u32 },
            ),
            Some(false) => (Worker::Dispatching, WorkerAction::Dispatch),
        },
        WorkerEvent::Handled(Dispatched::Done) => (Worker::Idle, WorkerAction::Save),
        WorkerEvent::Handled(Dispatched::ExitThread { code }) => finished(code),
        WorkerEvent::Handled(Dispatched::HostPark(reason)) => (
            Worker::Parking(reason),
            WorkerAction::Save,
        ),
        WorkerEvent::Handled(Dispatched::Failed) => finished(1),
        WorkerEvent::Found(None) => (
            Worker::Returning { result: WAIT_FAILED },
            WorkerAction::Lock,
        ),
        WorkerEvent::Found(Some(timeout_ms)) => match w {
            Worker::FindingObject { timeout_ms } => start_wait(false, timeout_ms),
            _ => start_wait(true, timeout_ms),
        },
        WorkerEvent::Waited(result) => match w {
            Worker::Waiting { many, endless: true } => if ends_wait(many, result) {
                (Worker::Returning { result }, WorkerAction::Lock)
            } else {
                (Worker::StillWaiting { many }, WorkerAction::Lock)
            },
            _ => (Worker::Returning { result }, WorkerAction::Lock),
        },
    }
}

/// A register that could be read, or zero.
fn value_or_zero(v: Option<u64>) -> (r: u64)
    ensures
        r == or_zero(v),
{
    match v {
        Some(x) => x,
        None => 0,
    }
}

/// The low half of a register.
fn low_half(v: u64) -> (r: u32)
    ensures
        r == v % 0x1_0000_0000,
{
    (v % 0x1_0000_0000) as u32
}

/// Starts a wait.
fn begin_wait(many: bool, timeout_ms: u32) -> (r: (Worker, WorkerAction))
    ensures
        r == start_wait(many, timeout_ms),
{
    let endless: bool = timeout_ms == INFINITE;
    let ms: u32 = if endless {
        WAIT_SLICE_MS
    } else {
        timeout_ms
    };
    (Worker::Waiting { many, endless }, WorkerAction::Wait { ms })
}

/// What a worker does that has the locks.
fn lock_taken(w: Worker) -> (r: (Worker, WorkerAction))
    ensures
        r == after_lock(w),
{
    match w {
        Worker::Parking(reason) => match reason {
            HostParkReason::CriticalSection { cs } => (
                Worker::Idle,
                WorkerAction::ParkBriefly { cs },
            ),
            HostParkReason::WaitObject { handle, timeout_ms } => (
                Worker::FindingObject { timeout_ms },
                WorkerAction::FindObject { handle },
            ),
            HostParkReason::WaitMultiple => (Worker::FindingObjects, WorkerAction::FindObjects),
        },
        Worker::StillWaiting { many } => (
            Worker::Waiting { many, endless: true },
            WorkerAction::Wait { ms: WAIT_SLICE_MS },
        ),
        Worker::Returning { result } => (Worker::Idle, WorkerAction::ReturnToGuest { result }),
        _ => (Worker::Active, WorkerAction::Activate),
    }
}

/// What a worker does that waited.
fn wait_ended(w: Worker, result: u32) -> (r: (Worker, WorkerAction))
    ensures
        r == worker_step(w, WorkerEvent::Waited(result), 0),
{
    match w {
        Worker::Waiting { many, endless: true } => {
            let ended: bool = if many {
                result != WAIT_TIMEOUT
            } else {
                result == WAIT_OBJECT_0
            };
            if ended {
                (Worker::Returning { result }, WorkerAction::Lock)
            } else {
                (Worker::StillWaiting { many }, WorkerAction::Lock)
            }
        },
        _ => (Worker::Returning { result }, WorkerAction::Lock),
    }
}

/// What a worker does next.
pub fn worker_next(w: Worker, e: WorkerEvent, trampoline: u64) -> (r: (Worker, WorkerAction))
    requires
        expects(w, e),
    ensures
        r == worker_step(w, e, trampoline),
{
    match e {
        WorkerEvent::Locked { dying } => if dying {
            (Worker::Finished, WorkerAction::Finish { code: 1 })
        } else {
            lock_taken(w)
        },
        WorkerEvent::Registers { rip, rax } => {
            let begin: u64 = value_or_zero(rip);
            if begin == 0 {
                let code: u32 = low_half(value_or_zero(rax));
                (Worker::Finished, WorkerAction::Finish { code })
            } else {
                (Worker::Running, WorkerAction::Run { begin })
            }
        },
        WorkerEvent::Stopped(stop) => match stop {
            GuestStop::Quantum => (Worker::Idle, WorkerAction::SaveAndYield),
            GuestStop::Failed => (Worker::Finished, WorkerAction::Finish { code: 1 }),
            GuestStop::Hit(address) => if address == trampoline {
                (Worker::Idle, WorkerAction::Save)
            } else {
                (Worker::Resolving, WorkerAction::Resolve { address })
            },
        },
        WorkerEvent::Resolved { exits, rcx } => match exits {
            None => (Worker::Finished, WorkerAction::Finish { code: 1 }),
            Some(ends) => if ends {
                let code: u32 = low_half(value_or_zero(rcx));
                (Worker::Finished, WorkerAction::EndProcess { code })
            } else {
                (Worker::Dispatching, WorkerAction::Dispatch)
            },
        },
        WorkerEvent::Handled(outcome) => match outcome {
            Dispatched::Done => (Worker::Idle, WorkerAction::Save),
            Dispatched::ExitThread { code } => (Worker::Finished, WorkerAction::Finish { code }),
            Dispatched::HostPark(reason) => (Worker::Parking(reason), WorkerAction::Save),
            Dispatched::Failed => (Worker::Finished, WorkerAction::Finish { code: 1 }),
        },
        WorkerEvent::Found(found) => match found {
            None => (Worker::Returning { result: WAIT_FAILED }, WorkerAction::Lock),
            Some(timeout_ms) => match w {
                Worker::FindingObject { timeout_ms } => begin_wait(false, timeout_ms),
                _ => begin_wait(true, timeout_ms),
            },
        },
        WorkerEvent::Waited(result) => wait_ended(w, result),
    }
}

/// Whether a worker has the machine and its locks.
pub open spec fn holds_machine(w: Worker) -> bool {
    w is Active || w is Running || w is Resolving || w is Dispatching
}

/// A worker that sees the process end finishes, wherever it is.
pub proof fn dying_workers_finish(w: Worker, trampoline: u64)
    requires
        expects(w, WorkerEvent::Locked { dying: true }),
    ensures
        worker_step(w, WorkerEvent::Locked { dying: true }, trampoline) == finished(1),
{
}

/// A worker that lets go of the machine without finishing saves its thread.
pub proof fn threads_are_saved_before_letting_go(w: Worker, e: WorkerEvent, trampoline: u64)
    requires
        expects(w, e),
        holds_machine(w),
    ensures
        ({
            let (next, action) = worker_step(w, e, trampoline);
            holds_machine(next) || next is Finished || action is Save || action is SaveAndYield
        }),
{
}

/// A worker gets hold of the machine only by making its thread the running one.
pub proof fn threads_are_made_running(w: Worker, e: WorkerEvent, trampoline: u64)
    requires
        expects(w, e),
        !holds_machine(w),
    ensures
        holds_machine(worker_step(w, e, trampoline).0) ==> worker_step(w, e, trampoline).1
            is Activate,
{
}

/// A wait without limit is made in slices, between which the worker looks whether
/// the process ends.
pub proof fn endless_waits_are_sliced(w: Worker, e: WorkerEvent, trampoline: u64)
    requires
        expects(w, e),
    ensures
        worker_step(w, e, trampoline) matches (
            Worker::Waiting { many, endless: true },
            a,
        ) ==> a == (WorkerAction::Wait { ms: WAIT_SLICE_MS }),
        w matches Worker::Waiting { many, endless: true } ==> ({
            let (next, action) = worker_step(w, e, trampoline);
            action is Lock && (next is Returning || next is StillWaiting)
        }),
{
}

/// The last address at which the host takes over.
pub fn hook_end(fake_api_base: u64, fake_api_size: usize) -> (r: u64)
    ensures
        r == ({
            let end = if fake_api_base + fake_api_size > u64::MAX {
                u64::MAX as int
            } else {
                fake_api_base + fake_api_size
            };
            if end == 0 {
                0
            } else {
                end - 1
            }
        }),
{
    fake_api_base.saturating_add(fake_api_size as u64).saturating_sub(1)
}

} // verus!
