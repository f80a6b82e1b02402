//! Process table: fixed-size process control blocks, runnable-queue handoff
//! and a burst helper that opens up to 100 lightweight "tab" processes.

use vstd::prelude::*;
use vstd::string::StringSliceAdditionalSpecFns;
use crate::kernel::scheduler::{self, Scheduler, SchedulerModel, SchedulerError};
use crate::util::{first_match, is_first_match, lemma_first_match_is, lemma_first_match_none, lemma_first_match_exists};

verus! {

pub const MAX_PROCESSES: usize = 256;
pub const PROCESS_NAME_MAX: usize = 32;
pub const TAB_BURST_PER_SECOND: usize = 100;

/// Base of the per-process stacks; process `pid` gets the 4 KiB page `pid`.
pub const STACK_BASE: u64 = 0x8000_0000;

/// Process states.
#[derive(Debug, Clone, Copy, PartialEq, Eq, Structural)]
pub enum ProcessState {
    Created,
    Ready,
    Running,
    Waiting,
    Terminated,
}

/// Process creation errors.
#[derive(Debug, Clone, Copy, PartialEq, Eq, Structural)]
pub enum ProcessError {
    InvalidEntry,
    InvalidCount,
    ProcessTableFull,
    SchedulerFull,
}

/// ARM64 register context saved on a context switch.
#[derive(Clone, Copy)]
pub struct RegisterContext {
    /// X0-X30.
    pub x: [u64; 31],
    /// Stack pointer (SP_EL0).
    pub sp: u64,
    /// Program counter.
    pub pc: u64,
    /// Processor state.
    pub pstate: u64,
}

impl RegisterContext {
    /// A context that starts at `entry` on stack `stack` at EL0t with
    /// interrupts masked.
    pub fn new(entry: u64, stack: u64) -> (r: Self)
        ensures
            r.x@ == Seq::new(31, |i: int| 0u64),
            r.sp == stack,
            r.pc == entry,
            r.pstate == 0,
    {
        let r = RegisterContext { x: [0; 31], sp: stack, pc: entry, pstate: 0x0000_0000 };
        assert(r.x@ =~= Seq::new(31, |i: int| 0u64));
        r
    }
}

/// Process control block.
#[derive(Clone, Copy)]
pub struct Process {
    pub pid: u64,
    pub parent_pid: Option<u64>,
    pub state: ProcessState,
    pub registers: RegisterContext,
    pub priority: u8,
    pub time_slice: u64,
    pub time_consumed: u64,
    pub created_at_ticks: u64,
    pub name: [u8; PROCESS_NAME_MAX],
    pub name_len: usize,
}

/// Stack top of process `pid`.
pub open spec fn stack_of(pid: u64) -> int {
    STACK_BASE + (pid << 12u64)
}

/// A new process gets the 4 KiB stack of its own pid: its stack pointer
/// starts at `0x8000_0000 + pid * 4096`.
pub proof fn law_new_process_stack(
    p: Process,
    pid: u64,
    entry: u64,
    priority: u8,
    name: Seq<u8>,
    parent: Option<u64>,
    ticks: u64,
)
    requires
        is_new_process(p, pid, entry, priority, name, parent, ticks),
        pid < 0x10_0000_0000_0000,
    ensures
        p.registers.sp == 0x8000_0000 + pid * 4096,
{
    assert(pid << 12u64 == pid * 4096) by (bit_vector)
        requires
            pid < 0x10_0000_0000_0000,
    ;
}

/// Distinct processes get stacks that do not overlap: the stack tops of two
/// new processes with different pids are at least 4 KiB apart.
pub proof fn law_stacks_apart(
    p1: Process,
    p2: Process,
    e1: u64,
    e2: u64,
    pr1: u8,
    pr2: u8,
    n1: Seq<u8>,
    n2: Seq<u8>,
    par1: Option<u64>,
    par2: Option<u64>,
    t1: u64,
    t2: u64,
)
    requires
        is_new_process(p1, p1.pid, e1, pr1, n1, par1, t1),
        is_new_process(p2, p2.pid, e2, pr2, n2, par2, t2),
        p1.pid != p2.pid,
        p1.pid < 0x10_0000_0000_0000,
        p2.pid < 0x10_0000_0000_0000,
    ensures
        p1.registers.sp + 4096 <= p2.registers.sp || p2.registers.sp + 4096 <= p1.registers.sp,
{
    law_new_process_stack(p1, p1.pid, e1, pr1, n1, par1, t1);
    law_new_process_stack(p2, p2.pid, e2, pr2, n2, par2, t2);
    if p1.pid < p2.pid {
        assert(p1.pid * 4096 + 4096 <= p2.pid * 4096) by (nonlinear_arith)
            requires
                p1.pid < p2.pid,
        ;
    } else {
        assert(p2.pid * 4096 + 4096 <= p1.pid * 4096) by (nonlinear_arith)
            requires
                p2.pid < p1.pid,
        ;
    }
}

/// `name` cut to `PROCESS_NAME_MAX` bytes.
pub open spec fn short_name(name: Seq<u8>) -> Seq<u8> {
    if name.len() <= PROCESS_NAME_MAX {
        name
    } else {
        name.take(PROCESS_NAME_MAX as int)
    }
}

/// `p` is what `Process::new` builds for these arguments, while the
/// scheduler runs `parent` at tick `ticks`.
pub open spec fn is_new_process(
    p: Process,
    pid: u64,
    entry: u64,
    priority: u8,
    name: Seq<u8>,
    parent: Option<u64>,
    ticks: u64,
) -> bool {
    &&& p.pid == pid
    &&& p.parent_pid == parent
    &&& p.registers.x@ == Seq::new(31, |i: int| 0u64)
    &&& p.registers.sp == stack_of(pid)
    &&& p.registers.pc == entry
    &&& p.registers.pstate == 0
    &&& p.priority == priority
    &&& p.time_slice == 10
    &&& p.time_consumed == 0
    &&& p.created_at_ticks == ticks
    &&& p.name@ == short_name(name) + Seq::new((PROCESS_NAME_MAX - short_name(name).len()) as nat, |i: int| 0u8)
    &&& p.name_len == short_name(name).len()
}

impl Process {
    /// A new process `pid` entering at `entry`, child of the process that
    /// `scheduler` runs, in state `Created`.
    pub fn new(pid: u64, entry: u64, priority: u8, name: &str, scheduler: &Scheduler) -> (r: Self)
        requires
            stack_of(pid) <= u64::MAX,
        ensures
            r.state == ProcessState::Created,
            is_new_process(r, pid, entry, priority, name.spec_bytes(), scheduler@.current, scheduler@.ticks),
    {
        let stack = STACK_BASE + (pid << 12u64);
        let bytes = name.as_bytes();
        let name_len = if bytes.len() < PROCESS_NAME_MAX {
            bytes.len()
        } else {
            PROCESS_NAME_MAX
        };
        Process {
            pid,
            parent_pid: scheduler::current_process(scheduler),
            state: ProcessState::Created,
            registers: RegisterContext::new(entry, stack),
            priority,
            time_slice: 10,
            time_consumed: 0,
            created_at_ticks: scheduler::ticks(scheduler),
            name: copy_name(name),
            name_len,
        }
    }

    /// The bytes of the process name.
    pub fn name_bytes(&self) -> (r: &[u8])
        requires
            self.name_len <= PROCESS_NAME_MAX,
        ensures
            r@ == self.name@.take(self.name_len as int),
    {
        vstd::slice::slice_subrange(self.name.as_slice(), 0, self.name_len)
    }
}

fn copy_name(name: &str) -> (r: [u8; PROCESS_NAME_MAX])
    ensures
        r@ == short_name(name.spec_bytes()) + Seq::new(
            (PROCESS_NAME_MAX - short_name(name.spec_bytes()).len()) as nat,
            |i: int| 0u8,
        ),
{
    let mut buffer = [0u8; PROCESS_NAME_MAX];
    let bytes = name.as_bytes();
    let len = if bytes.len() < PROCESS_NAME_MAX {
        bytes.len()
    } else {
        PROCESS_NAME_MAX
    };
    let mut i: usize = 0;
    while i < len
        invariant
            bytes@ == name.spec_bytes(),
            len <= bytes@.len(),
            len <= PROCESS_NAME_MAX,
            i <= len,
            forall|j: int| 0 <= j < i ==> buffer@[j] == bytes@[j],
            forall|j: int| i <= j < PROCESS_NAME_MAX ==> buffer@[j] == 0,
        decreases len - i,
    {
        buffer[i] = bytes[i];
        i += 1;
    }
    assert(buffer@ =~= short_name(name.spec_bytes()) + Seq::new(
        (PROCESS_NAME_MAX - short_name(name.spec_bytes()).len()) as nat,
        |i: int| 0u8,
    ));
    buffer
}

/// Result of a burst of process creations.
#[derive(Debug, Clone, Copy)]
pub struct SpawnReport {
    pub requested: usize,
    pub spawned: usize,
    pub first_pid: Option<u64>,
    pub last_pid: Option<u64>,
    pub failed: Option<ProcessError>,
}

/// Occupancy of the process table.
pub struct ProcessStats {
    pub total_slots: usize,
    pub used_slots: usize,
    pub ready: usize,
    pub running: usize,
    pub waiting: usize,
    pub terminated: usize,
}

/// The process table and the next process id.
pub struct ProcessTable {
    processes: [Option<Process>; MAX_PROCESSES],
    next_pid: u64,
}

/// The state of a process table.
pub struct ProcessTableModel {
    pub slots: Seq<Option<Process>>,
    pub next_pid: u64,
}

impl View for ProcessTable {
    type V = ProcessTableModel;

    closed spec fn view(&self) -> ProcessTableModel {
        ProcessTableModel { slots: self.processes@, next_pid: self.next_pid }
    }
}

/// Slot holds process `pid`.
pub open spec fn slot_pid(pid: u64) -> spec_fn(Option<Process>) -> bool {
    |s: Option<Process>| s is Some && s->0.pid == pid
}

/// Slot is free.
pub open spec fn slot_empty() -> spec_fn(Option<Process>) -> bool {
    |s: Option<Process>| s is None
}

impl ProcessTableModel {
    /// `MAX_PROCESSES` slots; every stored pid is below `next_pid`, stored
    /// once, and names fit their buffer.
    pub open spec fn wf(self) -> bool {
        &&& self.slots.len() == MAX_PROCESSES
        &&& forall|i: int|
            0 <= i < MAX_PROCESSES && (#[trigger] self.slots[i]) is Some ==> self.slots[i]->0.pid < self.next_pid
                && self.slots[i]->0.name_len <= PROCESS_NAME_MAX
        &&& forall|i: int, j: int|
            0 <= i < j < MAX_PROCESSES && (#[trigger] self.slots[i]) is Some && (#[trigger] self.slots[j]) is Some
                ==> self.slots[i]->0.pid != self.slots[j]->0.pid
    }

    /// The process `pid`, if any.
    pub open spec fn get(self, pid: u64) -> Option<Process> {
        match first_match(self.slots, slot_pid(pid)) {
            Some(i) => self.slots[i],
            None => None,
        }
    }

    /// The same table with slot `i` set to `v`.
    pub open spec fn with_slot(self, i: int, v: Option<Process>) -> ProcessTableModel {
        ProcessTableModel { slots: self.slots.update(i, v), ..self }
    }

    /// The table with process `pid` (if any) in state `st`.
    pub open spec fn with_state(self, pid: u64, st: ProcessState) -> ProcessTableModel {
        match first_match(self.slots, slot_pid(pid)) {
            Some(i) => self.with_slot(i, Some(Process { state: st, ..self.slots[i]->0 })),
            None => self,
        }
    }
}

impl ProcessTable {
    /// An empty table whose first process gets pid 1.
    pub fn new() -> (r: Self)
        ensures
            r@.wf(),
            r@.slots == Seq::new(MAX_PROCESSES as nat, |i: int| None::<Process>),
            r@.next_pid == 1,
    {
        let r = ProcessTable { processes: [None; MAX_PROCESSES], next_pid: 1 };
        assert(r@.slots =~= Seq::new(MAX_PROCESSES as nat, |i: int| None::<Process>));
        r
    }

    fn find_pid(&self, pid: u64) -> (r: Option<usize>)
        ensures
            match r {
                Some(i) => first_match(self@.slots, slot_pid(pid)) == Some(i as int),
                None => first_match(self@.slots, slot_pid(pid)) is None,
            },
    {
        let ghost p = slot_pid(pid);
        let mut i: usize = 0;
        while i < MAX_PROCESSES
            invariant
                p == slot_pid(pid),
                self@.slots == self.processes@,
                i <= MAX_PROCESSES,
                forall|j: int| 0 <= j < i ==> !p(#[trigger] self@.slots[j]),
            decreases MAX_PROCESSES - i,
        {
            if let Some(process) = &self.processes[i] {
                if process.pid == pid {
                    proof {
                        assert(is_first_match(self@.slots, p, i as int));
                        lemma_first_match_is(self@.slots, p, i as int);
                    }
                    return Some(i);
                }
            }
            i += 1;
        }
        proof {
            lemma_first_match_none(self@.slots, p);
        }
        None
    }

    fn find_free(&self) -> (r: Option<usize>)
        ensures
            match r {
                Some(i) => first_match(self@.slots, slot_empty()) == Some(i as int),
                None => first_match(self@.slots, slot_empty()) is None,
            },
    {
        let ghost p = slot_empty();
        let mut i: usize = 0;
        while i < MAX_PROCESSES
            invariant
                p == slot_empty(),
                self@.slots == self.processes@,
                i <= MAX_PROCESSES,
                forall|j: int| 0 <= j < i ==> !p(#[trigger] self@.slots[j]),
            decreases MAX_PROCESSES - i,
        {
            if self.processes[i].is_none() {
                proof {
                    assert(is_first_match(self@.slots, p, i as int));
                    lemma_first_match_is(self@.slots, p, i as int);
                }
                return Some(i);
            }
            i += 1;
        }
        proof {
            lemma_first_match_none(self@.slots, p);
        }
        None
    }
}

/// What `spawn_process` does.
pub open spec fn spawn_outcome(
    ot: ProcessTableModel,
    os: SchedulerModel,
    nt: ProcessTableModel,
    ns: SchedulerModel,
    entry: u64,
    priority: u8,
    name: Seq<u8>,
    r: Result<u64, ProcessError>,
) -> bool {
    if entry == 0 {
        r == Err::<u64, ProcessError>(ProcessError::InvalidEntry) && nt == ot && ns == os
    } else {
        let pid = ot.next_pid;
        &&& nt.next_pid == pid + 1
        &&& match first_match(ot.slots, slot_empty()) {
            None => r == Err::<u64, ProcessError>(ProcessError::ProcessTableFull) && nt.slots == ot.slots && ns
                == os,
            Some(i) => if os.queue.len() >= MAX_PROCESSES || os.queue.contains(pid) {
                r == Err::<u64, ProcessError>(ProcessError::SchedulerFull) && nt.slots == ot.slots && ns == os
            } else {
                &&& r == Ok::<u64, ProcessError>(pid)
                &&& ns == SchedulerModel { queue: os.queue.push(pid), ..os }
                &&& nt.slots.len() == MAX_PROCESSES
                &&& forall|j: int| 0 <= j < MAX_PROCESSES && j != i ==> #[trigger] nt.slots[j] == ot.slots[j]
                &&& nt.slots[i] is Some
                &&& nt.slots[i]->0.state == ProcessState::Ready
                &&& is_new_process(nt.slots[i]->0, pid, entry, priority, name, os.current, os.ticks)
            },
        }
    }
}

/// A spawned process is new and is found, ready, under the pid it was
/// given; the pid was not in use before.
pub proof fn law_spawn_then_get(
    ot: ProcessTableModel,
    os: SchedulerModel,
    nt: ProcessTableModel,
    ns: SchedulerModel,
    entry: u64,
    priority: u8,
    name: Seq<u8>,
    pid: u64,
)
    requires
        ot.wf(),
        spawn_outcome(ot, os, nt, ns, entry, priority, name, Ok(pid)),
    ensures
        ot.get(pid) is None,
        nt.get(pid) matches Some(p) && p.pid == pid && p.state == ProcessState::Ready,
        ns.queue == os.queue.push(pid),
{
    let k = first_match(ot.slots, slot_empty())->0;
    assert(is_first_match(ot.slots, slot_empty(), k));
    assert forall|j: int| 0 <= j < MAX_PROCESSES implies !slot_pid(pid)(#[trigger] ot.slots[j]) by {
        if ot.slots[j] is Some {
            assert(ot.slots[j]->0.pid < ot.next_pid);
        }
    }
    lemma_first_match_none(ot.slots, slot_pid(pid));
    assert forall|j: int| 0 <= j < k implies !slot_pid(pid)(#[trigger] nt.slots[j]) by {
        assert(nt.slots[j] == ot.slots[j]);
        if ot.slots[j] is Some {
            assert(ot.slots[j]->0.pid < ot.next_pid);
        }
    }
    assert(is_first_match(nt.slots, slot_pid(pid), k));
    lemma_first_match_is(nt.slots, slot_pid(pid), k);
}

/// Reset the table: no processes, next pid 1.
pub fn init(table: &mut ProcessTable)
    ensures
        final(table)@.wf(),
        final(table)@.slots == Seq::new(MAX_PROCESSES as nat, |i: int| None::<Process>),
        final(table)@.next_pid == 1,
{
    table.next_pid = 1;
    table.processes = [None; MAX_PROCESSES];
    assert(table@.slots =~= Seq::new(MAX_PROCESSES as nat, |i: int| None::<Process>));
}

fn allocate_pid(table: &mut ProcessTable) -> (r: u64)
    requires
        old(table)@.next_pid < u64::MAX,
    ensures
        r == old(table)@.next_pid,
        final(table)@ == (ProcessTableModel { next_pid: (r + 1) as u64, ..old(table)@ }),
{
    let pid = table.next_pid;
    table.next_pid += 1;
    pid
}

/// Create a runnable process named `process` and queue it.
pub fn create_process(table: &mut ProcessTable, scheduler: &mut Scheduler, entry: u64, priority: u8) -> (r: Option<
    u64,
>)
    requires
        old(table)@.wf(),
        old(scheduler).wf(),
        entry != 0 ==> old(table)@.next_pid < u64::MAX && stack_of(old(table)@.next_pid) <= u64::MAX,
    ensures
        final(table)@.wf(),
        final(scheduler).wf(),
        exists|res: Result<u64, ProcessError>|
            #[trigger] spawn_outcome(
                old(table)@,
                old(scheduler)@,
                final(table)@,
                final(scheduler)@,
                entry,
                priority,
                process_name(),
                res,
            ) && r == match res {
                Ok(pid) => Some(pid),
                Err(_) => None::<u64>,
            },
{
    let name = "process";
    proof {
        reveal_strlit("process");
        vstd::string::is_ascii_spec_bytes(name);
        assert(name.spec_bytes() =~= process_name());
    }
    let res = spawn_process(table, scheduler, entry, priority, name);
    match res {
        Ok(pid) => Some(pid),
        Err(_) => None,
    }
}

/// Bytes of `process`, the name `create_process` gives.
pub open spec fn process_name() -> Seq<u8> {
    seq![0x70u8, 0x72, 0x6f, 0x63, 0x65, 0x73, 0x73]
}

/// Bytes of `tab`, the name of burst-spawned processes.
pub open spec fn tab_name() -> Seq<u8> {
    seq![0x74u8, 0x61, 0x62]
}

/// Create a runnable process named `name` and queue it.
pub fn spawn_process(table: &mut ProcessTable, scheduler: &mut Scheduler, entry: u64, priority: u8, name: &str) -> (r:
    Result<u64, ProcessError>)
    requires
        old(table)@.wf(),
        old(scheduler).wf(),
        entry != 0 ==> old(table)@.next_pid < u64::MAX && stack_of(old(table)@.next_pid) <= u64::MAX,
    ensures
        final(table)@.wf(),
        final(scheduler).wf(),
        spawn_outcome(
            old(table)@,
            old(scheduler)@,
            final(table)@,
            final(scheduler)@,
            entry,
            priority,
            name.spec_bytes(),
            r,
        ),
{
    if entry == 0 {
        return Err(ProcessError::InvalidEntry);
    }
    let pid = allocate_pid(table);
    let mut process = Process::new(pid, entry, priority, name, scheduler);
    process.state = ProcessState::Ready;
    let slot = match table.find_free() {
        Some(i) => i,
        None => {
            return Err(ProcessError::ProcessTableFull);
        },
    };
    let ghost before = table@;
    table.processes[slot] = Some(process);
    proof {
        assert(table@.slots == before.slots.update(slot as int, Some(process)));
        assert(is_first_match(before.slots, slot_empty(), slot as int));
        assert forall|i: int, j: int|
            0 <= i < j < MAX_PROCESSES && (#[trigger] table@.slots[i]) is Some && (#[trigger] table@.slots[j]) is Some
            implies table@.slots[i]->0.pid != table@.slots[j]->0.pid by {
            if i == slot {
                assert(table@.slots[j] == before.slots[j]);
            } else if j == slot {
                assert(table@.slots[i] == before.slots[i]);
            } else {
                assert(table@.slots[i] == before.slots[i] && table@.slots[j] == before.slots[j]);
            }
        }
        assert forall|i: int| 0 <= i < MAX_PROCESSES && (#[trigger] table@.slots[i]) is Some implies table@.slots[i]->0.pid
            < table@.next_pid && table@.slots[i]->0.name_len <= PROCESS_NAME_MAX by {
            if i != slot {
                assert(table@.slots[i] == before.slots[i]);
            }
        }
    }
    if scheduler::add_ready_process(scheduler, pid).is_err() {
        let ghost mid = table@;
        remove_process(table, pid);
        proof {
            assert(is_first_match(mid.slots, slot_pid(pid), slot as int)) by {
                assert forall|j: int| 0 <= j < slot implies !slot_pid(pid)(#[trigger] mid.slots[j]) by {
                    assert(mid.slots[j] == before.slots[j]);
                }
            }
            lemma_first_match_is(mid.slots, slot_pid(pid), slot as int);
            assert(table@.slots =~= old(table)@.slots);
        }
        return Err(ProcessError::SchedulerFull);
    }
    Ok(pid)
}

/// The process `pid`.
pub fn get_process(table: &ProcessTable, pid: u64) -> (r: Option<Process>)
    ensures
        r == table@.get(pid),
{
    match table.find_pid(pid) {
        Some(i) => table.processes[i],
        None => None,
    }
}

/// Set the state of process `pid`; false when there is no such process.
pub fn set_process_state(table: &mut ProcessTable, pid: u64, state: ProcessState) -> (r: bool)
    requires
        old(table)@.wf(),
    ensures
        final(table)@.wf(),
        final(table)@ == old(table)@.with_state(pid, state),
        match first_match(old(table)@.slots, slot_pid(pid)) {
            Some(i) => r && final(table)@ == old(table)@.with_slot(
                i,
                Some(Process { state, ..old(table)@.slots[i]->0 }),
            ),
            None => !r && final(table)@ == old(table)@,
        },
{
    match table.find_pid(pid) {
        Some(i) => {
            let ghost before = table@;
            let mut process = table.processes[i].unwrap();
            process.state = state;
            table.processes[i] = Some(process);
            proof {
                assert(table@.slots =~= before.slots.update(i as int, Some(process)));
                assert forall|a: int, b: int|
                    0 <= a < b < MAX_PROCESSES && (#[trigger] table@.slots[a]) is Some && (#[trigger] table@.slots[b]) is Some
                    implies table@.slots[a]->0.pid != table@.slots[b]->0.pid by {
                    assert(before.slots[a] is Some && before.slots[b] is Some);
                }
            }
            true
        },
        None => false,
    }
}

/// Mark process `pid` terminated; false when there is no such process.
pub fn terminate_process(table: &mut ProcessTable, pid: u64) -> (r: bool)
    requires
        old(table)@.wf(),
    ensures
        final(table)@.wf(),
        match first_match(old(table)@.slots, slot_pid(pid)) {
            Some(i) => r && final(table)@ == old(table)@.with_slot(
                i,
                Some(Process { state: ProcessState::Terminated, ..old(table)@.slots[i]->0 }),
            ),
            None => !r && final(table)@ == old(table)@,
        },
{
    set_process_state(table, pid, ProcessState::Terminated)
}

/// Free the slot of process `pid`; false when there is no such process.
pub fn remove_process(table: &mut ProcessTable, pid: u64) -> (r: bool)
    requires
        old(table)@.wf(),
    ensures
        final(table)@.wf(),
        match first_match(old(table)@.slots, slot_pid(pid)) {
            Some(i) => r && final(table)@ == old(table)@.with_slot(i, None),
            None => !r && final(table)@ == old(table)@,
        },
{
    match table.find_pid(pid) {
        Some(i) => {
            let ghost before = table@;
            table.processes[i] = None;
            proof {
                assert(table@.slots =~= before.slots.update(i as int, None));
                assert forall|a: int, b: int|
                    0 <= a < b < MAX_PROCESSES && (#[trigger] table@.slots[a]) is Some && (#[trigger] table@.slots[b]) is Some
                    implies table@.slots[a]->0.pid != table@.slots[b]->0.pid by {
                    assert(before.slots[a] is Some && before.slots[b] is Some);
                }
            }
            true
        },
        None => false,
    }
}

/// The pids `p0, p0 + 1, ..., p0 + n - 1`.
pub open spec fn pid_run(p0: u64, n: nat) -> Seq<u64> {
    Seq::new(n, |k: int| (p0 + k) as u64)
}

/// Process `pid` is a tab: ready, and what `Process::new` builds for entry
/// `entry`, priority 5 and name `tab` while the scheduler `s` runs.
pub open spec fn is_tab(t: ProcessTableModel, pid: u64, entry: u64, s: SchedulerModel) -> bool {
    &&& t.get(pid) is Some
    &&& t.get(pid)->0.state == ProcessState::Ready
    &&& is_new_process(t.get(pid)->0, pid, entry, 5, tab_name(), s.current, s.ticks)
}

/// Tab `pid` took the lowest slot that was free when it was spawned: its
/// slot was free before the burst, and every lower slot holds a process
/// from before the burst or a tab spawned earlier.
pub open spec fn took_lowest_free(ot: ProcessTableModel, nt: ProcessTableModel, pid: u64) -> bool {
    let j = first_match(nt.slots, slot_pid(pid))->0;
    &&& ot.slots[j] is None
    &&& forall|i: int|
        0 <= i < j ==> (#[trigger] nt.slots[i]) is Some && (ot.slots[i] is None ==> nt.slots[i]->0.pid < pid)
}

/// How many tabs a burst asked for `requested` tries: at most
/// `TAB_BURST_PER_SECOND`.
pub open spec fn tab_cap(requested: usize) -> int {
    if requested < TAB_BURST_PER_SECOND {
        requested as int
    } else {
        TAB_BURST_PER_SECOND as int
    }
}

/// The pid and stack arithmetic of a burst stays in 64 bits: every pid it
/// may hand out is below `u64::MAX` and has a stack address.
pub open spec fn tabs_fit(t: ProcessTableModel, entry: u64, requested: usize) -> bool {
    entry != 0 && requested > 0 ==> {
        &&& t.next_pid + tab_cap(requested) <= u64::MAX
        &&& forall|k: int| 0 <= k < tab_cap(requested) ==> stack_of(#[trigger] ((t.next_pid + k) as u64)) <= u64::MAX
    }
}

/// What a burst of up to `TAB_BURST_PER_SECOND` tab creations did: it
/// spawned tabs with consecutive pids until it had `tab_cap(requested)` of
/// them or a spawn failed; a failure is the one `spawn_process` gives on
/// the state the earlier tabs left: a zero entry, a table with no free
/// slot, or a ready queue that is full or already holds the next pid.
pub open spec fn tabs_outcome(
    ot: ProcessTableModel,
    os: SchedulerModel,
    nt: ProcessTableModel,
    ns: SchedulerModel,
    entry: u64,
    requested: usize,
    r: SpawnReport,
) -> bool {
    let cap = tab_cap(requested);
    let p0 = ot.next_pid;
    let n = r.spawned;
    let q = os.queue + pid_run(p0, n as nat);
    &&& r.requested == requested
    &&& if requested == 0 {
        &&& n == 0
        &&& r.first_pid is None
        &&& r.last_pid is None
        &&& r.failed == Some(ProcessError::InvalidCount)
        &&& nt == ot
        &&& ns == os
    } else {
        &&& n <= cap
        &&& (r.failed is None <==> n == cap)
        &&& (n == 0 ==> r.first_pid is None && r.last_pid is None)
        &&& (n > 0 ==> r.first_pid == Some(p0) && r.last_pid == Some((p0 + n - 1) as u64))
        &&& ns == SchedulerModel { queue: q, ..os }
        &&& forall|k: int| 0 <= k < n ==> is_tab(nt, #[trigger] ((p0 + k) as u64), entry, os)
        &&& forall|k: int| 0 <= k < n ==> took_lowest_free(ot, nt, #[trigger] ((p0 + k) as u64))
        &&& nt.slots.len() == MAX_PROCESSES
        &&& forall|j: int| 0 <= j < MAX_PROCESSES && (#[trigger] ot.slots[j]) is Some ==> nt.slots[j] == ot.slots[j]
        &&& forall|j: int|
            0 <= j < MAX_PROCESSES && (#[trigger] nt.slots[j]) is Some && ot.slots[j] is None ==> p0
                <= nt.slots[j]->0.pid < p0 + n
        &&& match r.failed {
            None => nt.next_pid == p0 + n,
            Some(ProcessError::InvalidEntry) => entry == 0 && n == 0 && nt == ot,
            Some(ProcessError::ProcessTableFull) => {
                &&& entry != 0
                &&& nt.next_pid == p0 + n + 1
                &&& first_match(nt.slots, slot_empty()) is None
            },
            Some(ProcessError::SchedulerFull) => {
                &&& entry != 0
                &&& nt.next_pid == p0 + n + 1
                &&& first_match(nt.slots, slot_empty()) is Some
                &&& (q.len() >= MAX_PROCESSES || q.contains((p0 + n) as u64))
            },
            Some(ProcessError::InvalidCount) => false,
        }
    }
}

/// Open `TAB_BURST_PER_SECOND` tabs at once.
pub fn open_100_tabs(table: &mut ProcessTable, scheduler: &mut Scheduler, entry: u64) -> (r: SpawnReport)
    requires
        old(table)@.wf(),
        old(scheduler).wf(),
        tabs_fit(old(table)@, entry, TAB_BURST_PER_SECOND),
    ensures
        final(table)@.wf(),
        final(scheduler).wf(),
        tabs_outcome(old(table)@, old(scheduler)@, final(table)@, final(scheduler)@, entry, TAB_BURST_PER_SECOND, r),
{
    spawn_process_tabs(table, scheduler, entry, TAB_BURST_PER_SECOND)
}

/// Spawn `requested_tabs` tab processes, at most `TAB_BURST_PER_SECOND`,
/// stopping at the first failure.
pub fn spawn_process_tabs(table: &mut ProcessTable, scheduler: &mut Scheduler, entry: u64, requested_tabs: usize) -> (r:
    SpawnReport)
    requires
        old(table)@.wf(),
        old(scheduler).wf(),
        tabs_fit(old(table)@, entry, requested_tabs),
    ensures
        final(table)@.wf(),
        final(scheduler).wf(),
        tabs_outcome(old(table)@, old(scheduler)@, final(table)@, final(scheduler)@, entry, requested_tabs, r),
{
    if requested_tabs == 0 {
        return SpawnReport {
            requested: requested_tabs,
            spawned: 0,
            first_pid: None,
            last_pid: None,
            failed: Some(ProcessError::InvalidCount),
        };
    }
    let capped = if requested_tabs < TAB_BURST_PER_SECOND {
        requested_tabs
    } else {
        TAB_BURST_PER_SECOND
    };
    let mut report = SpawnReport {
        requested: requested_tabs,
        spawned: 0,
        first_pid: None,
        last_pid: None,
        failed: None,
    };
    let name = "tab";
    proof {
        reveal_strlit("tab");
        vstd::string::is_ascii_spec_bytes(name);
        assert(name.spec_bytes() =~= tab_name());
    }
    let ghost ot = table@;
    let ghost os = scheduler@;
    let ghost p0 = ot.next_pid;
    let mut i: usize = 0;
    assert(os.queue + pid_run(p0, 0) =~= os.queue);
    while i < capped
        invariant
            ot == old(table)@,
            os == old(scheduler)@,
            p0 == ot.next_pid,
            ot.wf(),
            tabs_fit(ot, entry, requested_tabs),
            capped == tab_cap(requested_tabs),
            name.spec_bytes() == tab_name(),
            entry == 0 ==> i == 0,
            i == 0 ==> table@ == ot && scheduler@ == os,
            requested_tabs > 0,
            capped == if requested_tabs < TAB_BURST_PER_SECOND {
                requested_tabs
            } else {
                TAB_BURST_PER_SECOND
            },
            i <= capped,
            report.requested == requested_tabs,
            report.spawned == i,
            report.failed is None,
            i == 0 ==> report.first_pid is None && report.last_pid is None,
            i > 0 ==> report.first_pid == Some(p0) && report.last_pid == Some((p0 + i - 1) as u64),
            table@.wf(),
            scheduler.wf(),
            table@.next_pid == p0 + i,
            scheduler@ == (SchedulerModel { queue: os.queue + pid_run(p0, i as nat), ..os }),
            forall|k: int| 0 <= k < i ==> is_tab(table@, #[trigger] ((p0 + k) as u64), entry, os),
            forall|k: int| 0 <= k < i ==> took_lowest_free(ot, table@, #[trigger] ((p0 + k) as u64)),
            forall|j: int| 0 <= j < MAX_PROCESSES && (#[trigger] ot.slots[j]) is Some ==> table@.slots[j] == ot.slots[j],
            forall|j: int|
                0 <= j < MAX_PROCESSES && (#[trigger] table@.slots[j]) is Some && ot.slots[j] is None ==> p0
                    <= table@.slots[j]->0.pid < p0 + i,
        decreases capped - i,
    {
        let ghost t0 = table@;
        let ghost s0 = scheduler@;
        assert(entry != 0 ==> stack_of(((ot.next_pid + i) as u64)) <= u64::MAX);
        match spawn_process(table, scheduler, entry, 5, name) {
            Ok(pid) => {
                proof {
                    let slot = first_match(t0.slots, slot_empty())->0;
                    assert(is_first_match(t0.slots, slot_empty(), slot));
                    assert(pid == p0 + i);
                    assert forall|k: int| 0 <= k < i + 1 implies is_tab(table@, #[trigger] ((p0 + k) as u64), entry, os)
                        && took_lowest_free(ot, table@, (p0 + k) as u64) by {
                        if k == i {
                            assert(is_first_match(table@.slots, slot_pid(pid), slot)) by {
                                assert forall|j: int| 0 <= j < slot implies !slot_pid(pid)(#[trigger] table@.slots[j]) by {
                                    assert(table@.slots[j] == t0.slots[j]);
                                    if t0.slots[j] is Some {
                                        assert(t0.slots[j]->0.pid < t0.next_pid);
                                    }
                                }
                            }
                            lemma_first_match_is(table@.slots, slot_pid(pid), slot);
                            assert(short_name(tab_name()) == tab_name());
                            assert(table@.get(pid)->0.name@.take(3) =~= tab_name());
                            assert(ot.slots[slot] is None) by {
                                if ot.slots[slot] is Some {
                                    assert(t0.slots[slot] == ot.slots[slot]);
                                }
                            }
                            assert forall|j: int| 0 <= j < slot implies (#[trigger] table@.slots[j]) is Some && (
                            ot.slots[j] is None ==> table@.slots[j]->0.pid < pid) by {
                                assert(table@.slots[j] == t0.slots[j]);
                                assert(!slot_empty()(t0.slots[j]));
                            }
                        } else {
                            let q = (p0 + k) as u64;
                            assert(is_tab(t0, q, entry, os));
                            assert(took_lowest_free(ot, t0, q));
                            let m = first_match(t0.slots, slot_pid(q))->0;
                            assert(is_first_match(t0.slots, slot_pid(q), m));
                            assert(m != slot);
                            assert(m < slot) by {
                                if slot < m {
                                    assert(t0.slots[slot] is Some);
                                }
                            }
                            assert(is_first_match(table@.slots, slot_pid(q), m)) by {
                                assert forall|j: int| 0 <= j < m implies !slot_pid(q)(#[trigger] table@.slots[j]) by {
                                    if j == slot {
                                        assert(table@.slots[j]->0.pid == pid);
                                    } else {
                                        assert(table@.slots[j] == t0.slots[j]);
                                    }
                                }
                                assert(table@.slots[m] == t0.slots[m]);
                            }
                            lemma_first_match_is(table@.slots, slot_pid(q), m);
                            assert forall|j: int| 0 <= j < m implies (#[trigger] table@.slots[j]) is Some && (
                            ot.slots[j] is None ==> table@.slots[j]->0.pid < q) by {
                                assert(table@.slots[j] == t0.slots[j]);
                            }
                        }
                    }
                    assert forall|j: int| 0 <= j < MAX_PROCESSES && (#[trigger] ot.slots[j]) is Some implies table@.slots[j]
                        == ot.slots[j] by {
                        assert(t0.slots[j] == ot.slots[j]);
                        if j == slot {
                            assert(t0.slots[j] is None);
                        }
                    }
                    assert forall|j: int|
                        0 <= j < MAX_PROCESSES && (#[trigger] table@.slots[j]) is Some && ot.slots[j] is None implies p0
                            <= table@.slots[j]->0.pid < p0 + i + 1 by {
                        if j != slot {
                            assert(table@.slots[j] == t0.slots[j]);
                        }
                    }
                    assert(os.queue + pid_run(p0, (i + 1) as nat) =~= (os.queue + pid_run(p0, i as nat)).push(pid));
                }
                if report.first_pid.is_none() {
                    report.first_pid = Some(pid);
                }
                report.last_pid = Some(pid);
                report.spawned += 1;
            },
            Err(err) => {
                report.failed = Some(err);
                proof {
                    if err == ProcessError::ProcessTableFull {
                        assert(table@.slots == t0.slots);
                    }
                    if err == ProcessError::InvalidEntry {
                        assert(table@ == ot);
                        assert(os.queue + pid_run(p0, 0) =~= os.queue);
                    }
                }
                return report;
            },
        }
        i += 1;
    }
    report
}

/// The ready processes, in slot order.
pub open spec fn ready_processes(s: Seq<Option<Process>>) -> Seq<Process>
    decreases s.len(),
{
    if s.len() == 0 {
        Seq::empty()
    } else {
        let rest = ready_processes(s.drop_last());
        if s.last() is Some && s.last()->0.state == ProcessState::Ready {
            rest.push(s.last()->0)
        } else {
            rest
        }
    }
}

proof fn lemma_ready_len(s: Seq<Option<Process>>)
    ensures
        ready_processes(s).len() <= s.len(),
    decreases s.len(),
{
    if s.len() > 0 {
        lemma_ready_len(s.drop_last());
    }
}

/// All ready processes, packed at the front in slot order.
pub fn get_ready_processes(table: &ProcessTable) -> (r: [Option<Process>; MAX_PROCESSES])
    requires
        table@.wf(),
    ensures
        r@ == Seq::new(
            MAX_PROCESSES as nat,
            |i: int|
                if i < ready_processes(table@.slots).len() {
                    Some(ready_processes(table@.slots)[i])
                } else {
                    None
                },
        ),
{
    let mut ready: [Option<Process>; MAX_PROCESSES] = [None; MAX_PROCESSES];
    let mut index: usize = 0;
    let mut i: usize = 0;
    let ghost s = table@.slots;
    while i < MAX_PROCESSES
        invariant
            s == table@.slots,
            s == table.processes@,
            i <= MAX_PROCESSES,
            index == ready_processes(s.take(i as int)).len(),
            index <= i,
            forall|k: int| 0 <= k < index ==> ready@[k] == Some(#[trigger] ready_processes(s.take(i as int))[k]),
            forall|k: int| index <= k < MAX_PROCESSES ==> ready@[k] is None,
        decreases MAX_PROCESSES - i,
    {
        proof {
            assert(s.take(i + 1).drop_last() =~= s.take(i as int));
        }
        if let Some(process) = &table.processes[i] {
            if process.state == ProcessState::Ready && index < MAX_PROCESSES {
                ready[index] = Some(*process);
                index += 1;
            }
        }
        i += 1;
    }
    proof {
        assert(s.take(MAX_PROCESSES as int) =~= s);
    }
    assert(ready@ =~= Seq::new(
        MAX_PROCESSES as nat,
        |i: int|
            if i < ready_processes(s).len() {
                Some(ready_processes(s)[i])
            } else {
                None
            },
    ));
    ready
}

/// Number of slots of `s` that satisfy `p`.
pub open spec fn count_slots(s: Seq<Option<Process>>, p: spec_fn(Option<Process>) -> bool) -> nat
    decreases s.len(),
{
    if s.len() == 0 {
        0
    } else {
        count_slots(s.drop_last(), p) + if p(s.last()) {
            1nat
        } else {
            0nat
        }
    }
}

/// Slot holds a process in state `st`.
pub open spec fn in_state(st: ProcessState) -> spec_fn(Option<Process>) -> bool {
    |s: Option<Process>| s is Some && s->0.state == st
}

/// Slot is occupied.
pub open spec fn occupied() -> spec_fn(Option<Process>) -> bool {
    |s: Option<Process>| s is Some
}

proof fn lemma_count_slots_bound(s: Seq<Option<Process>>, p: spec_fn(Option<Process>) -> bool)
    ensures
        count_slots(s, p) <= s.len(),
    decreases s.len(),
{
    if s.len() > 0 {
        lemma_count_slots_bound(s.drop_last(), p);
    }
}

/// Occupancy of the table by state.
pub fn get_stats(table: &ProcessTable) -> (r: ProcessStats)
    ensures
        r.total_slots == MAX_PROCESSES,
        r.used_slots == count_slots(table@.slots, occupied()),
        r.ready == count_slots(table@.slots, in_state(ProcessState::Ready)),
        r.running == count_slots(table@.slots, in_state(ProcessState::Running)),
        r.waiting == count_slots(table@.slots, in_state(ProcessState::Waiting)),
        r.terminated == count_slots(table@.slots, in_state(ProcessState::Terminated)),
{
    let mut stats = ProcessStats {
        total_slots: MAX_PROCESSES,
        used_slots: 0,
        ready: 0,
        running: 0,
        waiting: 0,
        terminated: 0,
    };
    let ghost s = table@.slots;
    let mut i: usize = 0;
    while i < MAX_PROCESSES
        invariant
            s == table@.slots,
            s == table.processes@,
            i <= MAX_PROCESSES,
            stats.total_slots == MAX_PROCESSES,
            stats.used_slots == count_slots(s.take(i as int), occupied()),
            stats.ready == count_slots(s.take(i as int), in_state(ProcessState::Ready)),
            stats.running == count_slots(s.take(i as int), in_state(ProcessState::Running)),
            stats.waiting == count_slots(s.take(i as int), in_state(ProcessState::Waiting)),
            stats.terminated == count_slots(s.take(i as int), in_state(ProcessState::Terminated)),
        decreases MAX_PROCESSES - i,
    {
        proof {
            assert(s.take(i + 1).drop_last() =~= s.take(i as int));
            lemma_count_slots_bound(s.take(i as int), occupied());
            lemma_count_slots_bound(s.take(i as int), in_state(ProcessState::Ready));
            lemma_count_slots_bound(s.take(i as int), in_state(ProcessState::Running));
            lemma_count_slots_bound(s.take(i as int), in_state(ProcessState::Waiting));
            lemma_count_slots_bound(s.take(i as int), in_state(ProcessState::Terminated));
        }
        if let Some(process) = &table.processes[i] {
            stats.used_slots += 1;
            match process.state {
                ProcessState::Created => {},
                ProcessState::Ready => stats.ready += 1,
                ProcessState::Running => stats.running += 1,
                ProcessState::Waiting => stats.waiting += 1,
                ProcessState::Terminated => stats.terminated += 1,
            }
        }
        i += 1;
    }
    proof {
        assert(s.take(MAX_PROCESSES as int) =~= s);
    }
    stats
}

} // verus!
