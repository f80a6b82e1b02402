//! Kernel services.

pub mod interrupt;
pub mod memory;
pub mod process;
pub mod scheduler;
pub mod user;

use vstd::prelude::*;
use memory::BumpAllocator;
use process::{ProcessTable, Process};
use scheduler::{Scheduler, SchedulePolicy};
use user::{UserManager, UserManagerModel};

verus! {

/// The kernel's own state: heap, process table, scheduler and accounts.
pub struct KernelState {
    pub heap: BumpAllocator,
    pub processes: ProcessTable,
    pub scheduler: Scheduler,
    pub users: UserManager,
}

impl KernelState {
    /// Kernel state before `init`.
    pub fn new() -> (r: Self)
        ensures
            r.wf(),
    {
        KernelState {
            heap: BumpAllocator::new(0, 0),
            processes: ProcessTable::new(),
            scheduler: Scheduler::new(SchedulePolicy::RoundRobin),
            users: UserManager::empty(),
        }
    }

    /// Every part is well formed.
    pub open spec fn wf(&self) -> bool {
        &&& self.heap.wf()
        &&& self.processes@.wf()
        &&& self.scheduler.wf()
        &&& self.users@.wf()
    }
}

/// Initialise the kernel heap, process table, scheduler and accounts.
pub fn init(k: &mut KernelState)
    ensures
        final(k).wf(),
        final(k).heap.start() == memory::HEAP_START,
        final(k).heap.current() == memory::HEAP_START,
        final(k).heap.end() == memory::HEAP_START + memory::HEAP_SIZE,
        final(k).processes@.slots == Seq::new(process::MAX_PROCESSES as nat, |i: int| None::<Process>),
        final(k).processes@.next_pid == 1,
        final(k).scheduler@.current is None,
        final(k).scheduler@.queue == Seq::<u64>::empty(),
        final(k).scheduler@.ticks == 0,
        final(k).users@ == user::default_table(),
{
    memory::init(&mut k.heap);
    process::init(&mut k.processes);
    scheduler::init(&mut k.scheduler);
    user::init(&mut k.users);
}

} // verus!
