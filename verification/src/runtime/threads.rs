//! Guest threads on one machine: whose registers it holds, and where the others'
//! registers are.

use vstd::prelude::*;
use vstd::string::StringExecFns;

use std::collections::HashMap;

use crate::regs::RegFile;
use crate::text::{dec, with_dec};

verus! {

/// Bytes of host stack of a worker.
pub const HOST_WORKER_STACK: usize = 0x80_0000;

/// The registers of the threads that do not run, and the number of the one that
/// does.
#[derive(Debug)]
pub struct ThreadContexts {
    saved: HashMap<u64, RegFile>,
    current: u32,
}

/// What making a thread the running one did.
#[derive(Debug, Clone, Copy, PartialEq, Eq, Structural)]
pub struct Switch {
    /// The registers of the thread that ran before were saved.
    pub saved: bool,
    /// The registers of the thread were restored.
    pub restored: bool,
}

/// The registers of all threads but the running one, its number, and the registers
/// of the machine.
pub struct Threads {
    /// Saved registers by thread.
    pub saved: Map<u64, RegFile>,
    /// The running thread.
    pub current: u32,
    /// The registers of the machine.
    pub cpu: RegFile,
}

/// Making a thread the running one: the registers of another thread that ran before
/// are saved, and those of the thread restored, if it has any.
pub open spec fn activated(t: Threads, tid: u32) -> Threads {
    let saved = if t.current != tid {
        t.saved.insert(t.current as u64, t.cpu)
    } else {
        t.saved
    };
    Threads {
        saved,
        current: tid,
        cpu: if saved.contains_key(tid as u64) {
            saved[tid as u64]
        } else {
            t.cpu
        },
    }
}

/// Saving the registers of the machine as those of a thread.
pub open spec fn deactivated(t: Threads, tid: u32) -> Threads {
    Threads { saved: t.saved.insert(tid as u64, t.cpu), ..t }
}

impl ThreadContexts {
    /// The saved registers by thread.
    pub closed spec fn saved(self) -> Map<u64, RegFile> {
        self.saved@
    }

    /// The running thread.
    pub closed spec fn current(self) -> u32 {
        self.current
    }

    /// The threads and the registers of the machine.
    pub open spec fn with(self, cpu: RegFile) -> Threads {
        Threads { saved: self.saved(), current: self.current(), cpu }
    }

    /// Only the thread `primary`, which runs.
    pub fn new(primary: u32) -> (t: Self)
        ensures
            t.saved() == Map::<u64, RegFile>::empty(),
            t.current() == primary,
    {
        broadcast use vstd::std_specs::hash::group_hash_axioms;

        ThreadContexts { saved: HashMap::new(), current: primary }
    }

    /// The running thread.
    pub fn current_tid(&self) -> (tid: u32)
        ensures
            tid == self.current(),
    {
        self.current
    }

    /// Makes a thread the running one. The registers of the thread that ran before are
    /// saved first, so that no thread loses them to another.
    pub fn activate_thread(&mut self, cpu: &mut RegFile, tid: u32) -> (s: Switch)
        ensures
            final(self).with(*final(cpu)) == activated(old(self).with(*old(cpu)), tid),
            s.saved == (old(self).current() != tid),
            s.restored == final(self).saved().contains_key(tid as u64),
    {
        broadcast use vstd::std_specs::hash::group_hash_axioms;

        let prev: u32 = self.current;
        let saved: bool = prev != tid;
        if saved {
            self.saved.insert(prev as u64, *cpu);
        }
        self.current = tid;
        match self.saved.get(&(tid as u64)) {
            Some(ctx) => {
                *cpu = *ctx;
                Switch { saved, restored: true }
            },
            None => Switch { saved, restored: false },
        }
    }

    /// Saves the registers of the machine as those of a thread.
    pub fn deactivate_thread(&mut self, cpu: &RegFile, tid: u32)
        ensures
            final(self).with(*cpu) == deactivated(old(self).with(*cpu), tid),
    {
        broadcast use vstd::std_specs::hash::group_hash_axioms;

        self.saved.insert(tid as u64, *cpu);
    }
}

/// A thread gets its registers back unchanged, whatever another thread did to the
/// machine meanwhile.
pub proof fn switching_back_restores(t: Threads, other: u32, cpu: RegFile)
    requires
        other != t.current,
    ensures
        activated(Threads { cpu, ..activated(t, other) }, t.current).cpu == t.cpu,
        activated(Threads { cpu, ..activated(t, other) }, t.current).saved[other as u64] == cpu,
{
}

/// Switching between two threads leaves the registers of all others.
pub proof fn switching_leaves_other_threads(t: Threads, tid: u32, other: u64)
    requires
        other != t.current,
    ensures
        activated(t, tid).saved.contains_key(other) == t.saved.contains_key(other),
        t.saved.contains_key(other) ==> activated(t, tid).saved[other] == t.saved[other],
{
}

/// What is saved is what is restored.
pub proof fn saved_registers_are_restored(t: Threads, cpu: RegFile)
    ensures
        activated(Threads { cpu, ..deactivated(t, t.current) }, t.current).cpu == t.cpu,
{
}

/// What the runtime knows of an object that threads wait for.
#[derive(Debug, Clone, Copy, PartialEq, Eq, Structural)]
pub enum KernelObject {
    /// An event.
    Event,
    /// A semaphore.
    Semaphore,
    /// A thread.
    Thread {
        /// Number of the thread.
        tid: u32,
        /// Whether it has finished.
        finished: bool,
    },
}

/// What ending the process does to an object.
#[derive(Debug, Clone, Copy, PartialEq, Eq, Structural)]
pub enum Wake {
    /// The event is set.
    SetEvent,
    /// Those who wait for the semaphore are woken.
    NotifySemaphore,
    /// The thread is finished with this code.
    FinishThread(u32),
    /// Nothing.
    Leave,
}

/// What ending the process does to an object: whoever waits for it is woken, and a
/// thread that has not finished finishes with code 1.
pub open spec fn wake(o: KernelObject) -> Wake {
    match o {
        KernelObject::Event => Wake::SetEvent,
        KernelObject::Semaphore => Wake::NotifySemaphore,
        KernelObject::Thread { tid, finished } => if finished {
            Wake::Leave
        } else {
            Wake::FinishThread(1)
        },
    }
}

/// What ending the process does to each object, in their order.
pub fn join_workers(objects: &[KernelObject]) -> (r: Vec<Wake>)
    ensures
        r@ == objects@.map_values(|o: KernelObject| wake(o)),
{
    let mut out: Vec<Wake> = Vec::new();
    let mut i: usize = 0;
    while i < objects.len()
        invariant
            i <= objects@.len(),
            out@.len() == i,
            forall|k: int| 0 <= k < i ==> #[trigger] out@[k] == wake(objects@[k]),
        decreases objects@.len() - i,
    {
        let w = match objects[i] {
            KernelObject::Event => Wake::SetEvent,
            KernelObject::Semaphore => Wake::NotifySemaphore,
            KernelObject::Thread { tid: _, finished } => if finished {
                Wake::Leave
            } else {
                Wake::FinishThread(1)
            },
        };
        out.push(w);
        i = i + 1;
    }
    assert(out@ =~= objects@.map_values(|o: KernelObject| wake(o)));
    out
}

/// An object is the thread with a number.
pub open spec fn is_thread(o: KernelObject, tid: u32) -> bool {
    o matches KernelObject::Thread { tid: t, .. } && t == tid
}

/// The object that stands for a thread: the first one that does.
pub fn finish_tid(objects: &[KernelObject], tid: u32) -> (r: Option<usize>)
    ensures
        match r {
            Some(k) => k < objects@.len() && is_thread(objects@[k as int], tid) && forall|j: int|
                0 <= j < k ==> !is_thread(#[trigger] objects@[j], tid),
            None => forall|j: int| 0 <= j < objects@.len() ==> !is_thread(#[trigger] objects@[j], tid),
        },
{
    let mut i: usize = 0;
    while i < objects.len()
        invariant
            i <= objects@.len(),
            forall|j: int| 0 <= j < i ==> !is_thread(#[trigger] objects@[j], tid),
        decreases objects@.len() - i,
    {
        if let KernelObject::Thread { tid: t, finished: _ } = objects[i] {
            if t == tid {
                return Some(i);
            }
        }
        i = i + 1;
    }
    None
}

/// The name of the host thread of a guest thread.
pub fn worker_name(tid: u32) -> (s: String)
    ensures
        s@ == "wie-guest-"@ + dec(tid as nat),
{
    with_dec("wie-guest-", tid as u64)
}

/// Making a thread the running one: it runs; if another ran before, that one's registers
/// are saved; the thread's own are restored if it has any, and else the machine's stay.
pub proof fn activated_threads_run(t: Threads, tid: u32)
    ensures
        activated(t, tid).current == tid,
        t.current != tid ==> activated(t, tid).saved.contains_key(t.current as u64) && activated(
            t,
            tid,
        ).saved[t.current as u64] == t.cpu,
        t.saved.contains_key(tid as u64) ==> activated(t, tid).cpu == t.saved[tid as u64],
        !t.saved.contains_key(tid as u64) ==> activated(t, tid).cpu == t.cpu,
        deactivated(t, tid).saved.contains_key(tid as u64),
        deactivated(t, tid).saved[tid as u64] == t.cpu,
        deactivated(t, tid).current == t.current,
        deactivated(t, tid).cpu == t.cpu,
{
}

} // verus!
