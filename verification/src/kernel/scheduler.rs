//! Task scheduler: a fixed-size circular ready queue of process ids.

use vstd::prelude::*;
use crate::kernel::process::{self, MAX_PROCESSES, ProcessTable, ProcessTableModel, ProcessState};

verus! {

/// Scheduling policy.
#[derive(Debug, Clone, Copy, PartialEq, Eq, Structural)]
pub enum SchedulePolicy {
    RoundRobin,
    PriorityBased,
    Fifo,
}

#[derive(Debug, Clone, Copy, PartialEq, Eq, Structural)]
pub enum SchedulerError {
    QueueFull,
}

/// Scheduler state.
pub struct Scheduler {
    current_process: Option<u64>,
    ready_queue: [Option<u64>; MAX_PROCESSES],
    queue_head: usize,
    queue_tail: usize,
    queue_len: usize,
    time_ticks: u64,
    policy: SchedulePolicy,
}

/// The state of a scheduler: running process, ready queue front to back,
/// tick count and policy.
pub struct SchedulerModel {
    pub current: Option<u64>,
    pub queue: Seq<u64>,
    pub ticks: u64,
    pub policy: SchedulePolicy,
}

/// Slot of the ring that holds the `k`-th queued entry.
pub open spec fn ring_slot(head: int, k: int) -> int {
    (head + k) % (MAX_PROCESSES as int)
}

/// The scheduler with `pid` added at the back of the ready queue.
pub open spec fn queued(m: SchedulerModel, pid: u64) -> SchedulerModel {
    SchedulerModel { queue: m.queue.push(pid), ..m }
}

/// The scheduler with the front of the ready queue taken off.
pub open spec fn unqueued(m: SchedulerModel) -> SchedulerModel {
    SchedulerModel { queue: m.queue.drop_first(), ..m }
}

/// The ready queue is first-in first-out: processes queued one after the
/// other come out after everything queued before them, in the order they
/// went in.
pub proof fn law_ready_queue_fifo(m: SchedulerModel, a: u64, b: u64)
    ensures
        queued(queued(m, a), b).queue == m.queue + seq![a, b],
        m.queue.len() == 0 ==> queued(queued(m, a), b).queue[0] == a,
        m.queue.len() == 0 ==> unqueued(queued(queued(m, a), b)).queue[0] == b,
        m.queue.len() == 0 ==> unqueued(unqueued(queued(queued(m, a), b))).queue.len() == 0,
{
    assert(queued(queued(m, a), b).queue =~= m.queue + seq![a, b]);
}

impl View for Scheduler {
    type V = SchedulerModel;

    closed spec fn view(&self) -> SchedulerModel {
        SchedulerModel {
            current: self.current_process,
            queue: Seq::new(
                self.queue_len as nat,
                |k: int| self.ready_queue@[ring_slot(self.queue_head as int, k)]->0,
            ),
            ticks: self.time_ticks,
            policy: self.policy,
        }
    }
}

impl Scheduler {
    /// The ring holds `queue_len` entries from `queue_head` on; those slots are
    /// occupied, the others free, and no id is queued twice.
    pub closed spec fn wf(&self) -> bool {
        &&& self.queue_head < MAX_PROCESSES
        &&& self.queue_len <= MAX_PROCESSES
        &&& self.queue_tail == ring_slot(self.queue_head as int, self.queue_len as int)
        &&& forall|i: int|
            0 <= i < MAX_PROCESSES ==> ((#[trigger] self.ready_queue@[i]) is Some <==> exists|k: int|
                0 <= k < self.queue_len && i == ring_slot(self.queue_head as int, k))
        &&& self@.queue.no_duplicates()
    }

    /// No process is queued twice, and the queue holds at most
    /// `MAX_PROCESSES` entries.
    pub proof fn law_ready_queue_unique(&self)
        requires
            self.wf(),
        ensures
            self@.queue.no_duplicates(),
            self@.queue.len() <= MAX_PROCESSES,
    {
    }

    proof fn lemma_window(&self, k: int)
        requires
            self.wf(),
            0 <= k < self.queue_len,
        ensures
            self.ready_queue@[ring_slot(self.queue_head as int, k)] is Some,
            0 <= ring_slot(self.queue_head as int, k) < MAX_PROCESSES,
    {
    }

    /// An idle scheduler with an empty queue.
    pub fn new(policy: SchedulePolicy) -> (r: Self)
        ensures
            r.wf(),
            r@.current is None,
            r@.queue == Seq::<u64>::empty(),
            r@.ticks == 0,
            r@.policy == policy,
    {
        let r = Scheduler {
            current_process: None,
            ready_queue: [None; MAX_PROCESSES],
            queue_head: 0,
            queue_tail: 0,
            queue_len: 0,
            time_ticks: 0,
            policy,
        };
        assert(r@.queue =~= Seq::<u64>::empty());
        r
    }

    /// Back to the idle round-robin state.
    pub fn reset(&mut self)
        ensures
            final(self).wf(),
            final(self)@.current is None,
            final(self)@.queue == Seq::<u64>::empty(),
            final(self)@.ticks == 0,
            final(self)@.policy == SchedulePolicy::RoundRobin,
    {
        self.current_process = None;
        self.ready_queue = [None; MAX_PROCESSES];
        self.queue_head = 0;
        self.queue_tail = 0;
        self.queue_len = 0;
        self.time_ticks = 0;
        self.policy = SchedulePolicy::RoundRobin;
        assert(self@.queue =~= Seq::<u64>::empty());
    }

    /// Queue `pid` at the back, unless the queue is full or already holds it.
    pub fn enqueue(&mut self, pid: u64) -> (r: Result<(), SchedulerError>)
        requires
            old(self).wf(),
        ensures
            final(self).wf(),
            old(self)@.queue.len() >= MAX_PROCESSES || old(self)@.queue.contains(pid) ==> r == Err::<
                (),
                SchedulerError,
            >(SchedulerError::QueueFull) && final(self)@ == old(self)@,
            !(old(self)@.queue.len() >= MAX_PROCESSES || old(self)@.queue.contains(pid)) ==> r is Ok
                && final(self)@ == queued(old(self)@, pid),
    {
        if self.queue_len >= MAX_PROCESSES || self.contains(pid) {
            return Err(SchedulerError::QueueFull);
        }
        let ghost old_q = self@.queue;
        let ghost old_rq = self.ready_queue@;
        let tail = self.queue_tail;
        self.ready_queue[tail] = Some(pid);
        self.queue_tail = (self.queue_tail + 1) % MAX_PROCESSES;
        self.queue_len += 1;
        proof {
            let h = self.queue_head as int;
            assert forall|k: int| 0 <= k < old_q.len() implies ring_slot(h, k) != tail as int by {}
            assert(self@.queue =~= old_q.push(pid)) by {
                assert forall|k: int| 0 <= k < old_q.len() implies self.ready_queue@[ring_slot(h, k)] == old_rq[ring_slot(h, k)] by {}
            }
            assert forall|i: int|
                0 <= i < MAX_PROCESSES implies ((#[trigger] self.ready_queue@[i]) is Some <==> exists|k: int|
                0 <= k < self.queue_len && i == ring_slot(h, k)) by {
                if i == tail {
                    assert(i == ring_slot(h, old_q.len() as int));
                } else {
                    assert(self.ready_queue@[i] == old_rq[i]);
                    if old_rq[i] is Some {
                        let k = choose|k: int| 0 <= k < old_q.len() && i == ring_slot(h, k);
                        assert(0 <= k < self.queue_len && i == ring_slot(h, k));
                    }
                    if exists|k: int| 0 <= k < self.queue_len && i == ring_slot(h, k) {
                        let k = choose|k: int| 0 <= k < self.queue_len && i == ring_slot(h, k);
                        assert(k < old_q.len());
                    }
                }
            }
            assert(self@.queue.no_duplicates()) by {
                assert forall|a: int, b: int|
                    0 <= a < self@.queue.len() && 0 <= b < self@.queue.len() && a != b implies self@.queue[a]
                    != self@.queue[b] by {
                    if a == old_q.len() {
                        assert(self@.queue[b] == old_q[b]);
                    } else if b == old_q.len() {
                        assert(self@.queue[a] == old_q[a]);
                    }
                }
            }
        }
        Ok(())
    }

    /// Take the process id at the front of the queue.
    pub fn dequeue(&mut self) -> (r: Option<u64>)
        requires
            old(self).wf(),
        ensures
            final(self).wf(),
            old(self)@.queue.len() == 0 ==> r is None && final(self)@ == old(self)@,
            old(self)@.queue.len() > 0 ==> r == Some(old(self)@.queue[0]) && final(self)@ == unqueued(old(self)@),
    {
        if self.queue_len == 0 {
            return None;
        }
        let ghost old_q = self@.queue;
        let ghost old_rq = self.ready_queue@;
        let ghost h = self.queue_head as int;
        let head = self.queue_head;
        proof {
            self.lemma_window(0);
            assert(ring_slot(h, 0) == head);
        }
        let pid = self.ready_queue[head];
        self.ready_queue[head] = None;
        self.queue_head = (self.queue_head + 1) % MAX_PROCESSES;
        self.queue_len -= 1;
        proof {
            let h2 = self.queue_head as int;
            assert forall|k: int| 0 <= k < self.queue_len implies ring_slot(h2, k) == ring_slot(h, k + 1) by {}
            assert forall|k: int| 0 <= k < old_q.len() && k != 0 implies ring_slot(h, k) != head as int by {}
            assert(self@.queue =~= old_q.drop_first()) by {
                assert forall|k: int| 0 <= k < self.queue_len implies self.ready_queue@[ring_slot(h2, k)] == old_rq[ring_slot(h, k + 1)] by {}
            }
            assert(self.queue_tail == ring_slot(h2, self.queue_len as int));
            assert forall|i: int|
                0 <= i < MAX_PROCESSES implies ((#[trigger] self.ready_queue@[i]) is Some <==> exists|k: int|
                0 <= k < self.queue_len && i == ring_slot(h2, k)) by {
                if i == head {
                    if exists|k: int| 0 <= k < self.queue_len && i == ring_slot(h2, k) {
                        let k = choose|k: int| 0 <= k < self.queue_len && i == ring_slot(h2, k);
                        assert(ring_slot(h, k + 1) == head);
                    }
                } else {
                    assert(self.ready_queue@[i] == old_rq[i]);
                    if old_rq[i] is Some {
                        let k = choose|k: int| 0 <= k < old_q.len() && i == ring_slot(h, k);
                        assert(k != 0);
                        assert(i == ring_slot(h2, k - 1));
                    }
                    if exists|k: int| 0 <= k < self.queue_len && i == ring_slot(h2, k) {
                        let k = choose|k: int| 0 <= k < self.queue_len && i == ring_slot(h2, k);
                        assert(i == ring_slot(h, k + 1));
                    }
                }
            }
            assert(self@.queue.no_duplicates()) by {
                assert forall|a: int, b: int|
                    0 <= a < self@.queue.len() && 0 <= b < self@.queue.len() && a != b implies self@.queue[a]
                    != self@.queue[b] by {
                    assert(self@.queue[a] == old_q[a + 1] && self@.queue[b] == old_q[b + 1]);
                }
            }
        }
        pid
    }

    /// Whether the ready queue is empty.
    pub fn is_empty(&self) -> (r: bool)
        requires
            self.wf(),
        ensures
            r == (self@.queue.len() == 0),
    {
        self.queue_len == 0
    }

    /// Number of queued processes.
    pub fn len(&self) -> (r: usize)
        requires
            self.wf(),
        ensures
            r == self@.queue.len(),
    {
        self.queue_len
    }

    /// Take the next process to run. Every policy serves the queue in order.
    pub fn select_next(&mut self) -> (r: Option<u64>)
        requires
            old(self).wf(),
        ensures
            final(self).wf(),
            old(self)@.queue.len() == 0 ==> r is None && final(self)@ == old(self)@,
            old(self)@.queue.len() > 0 ==> r == Some(old(self)@.queue[0]) && final(self)@ == unqueued(old(self)@),
    {
        match self.policy {
            SchedulePolicy::RoundRobin | SchedulePolicy::Fifo => self.dequeue(),
            SchedulePolicy::PriorityBased => self.dequeue(),
        }
    }

    /// Count one timer tick.
    pub fn tick(&mut self)
        requires
            old(self).wf(),
            old(self)@.ticks < u64::MAX,
        ensures
            final(self).wf(),
            final(self)@ == (SchedulerModel { ticks: (old(self)@.ticks + 1) as u64, ..old(self)@ }),
    {
        self.time_ticks += 1;
        assert(self@.queue =~= old(self)@.queue);
    }

    fn contains(&self, pid: u64) -> (r: bool)
        requires
            self.wf(),
        ensures
            r == self@.queue.contains(pid),
    {
        let ghost q = self@.queue;
        let ghost h = self.queue_head as int;
        proof {
            assert forall|j: int| 0 <= j < self.queue_len implies (#[trigger] self.ready_queue@[ring_slot(h, j)]) is Some by {
                self.lemma_window(j);
            }
        }
        let len = self.queue_len;
        let head = self.queue_head;
        let mut k: usize = 0;
        while k < len
            invariant
                h == head,
                head == self.queue_head,
                head < MAX_PROCESSES,
                len <= MAX_PROCESSES,
                len == q.len(),
                q == self@.queue,
                forall|j: int| 0 <= j < len ==> (#[trigger] self.ready_queue@[ring_slot(h, j)]) is Some,
                k <= len,
                forall|j: int| 0 <= j < k ==> q[j] != pid,
            decreases len - k,
        {
            let index = (head + k) % MAX_PROCESSES;
            assert(index == ring_slot(h, k as int));
            assert(q[k as int] == self.ready_queue@[index as int]->0);
            if self.ready_queue[index] == Some(pid) {
                return true;
            }
            k += 1;
        }
        false
    }

    /// Set the running process.
    fn set_current(&mut self, current: Option<u64>)
        requires
            old(self).wf(),
        ensures
            final(self).wf(),
            final(self)@ == (SchedulerModel { current, ..old(self)@ }),
    {
        self.current_process = current;
        assert(self@.queue =~= old(self)@.queue);
    }
}

/// Reset the scheduler.
pub fn init(scheduler: &mut Scheduler)
    ensures
        final(scheduler).wf(),
        final(scheduler)@.current is None,
        final(scheduler)@.queue == Seq::<u64>::empty(),
        final(scheduler)@.ticks == 0,
        final(scheduler)@.policy == SchedulePolicy::RoundRobin,
{
    scheduler.reset();
}

/// Queue `pid` as ready to run.
pub fn add_ready_process(scheduler: &mut Scheduler, pid: u64) -> (r: Result<(), SchedulerError>)
    requires
        old(scheduler).wf(),
    ensures
        final(scheduler).wf(),
        old(scheduler)@.queue.len() >= MAX_PROCESSES || old(scheduler)@.queue.contains(pid) ==> r == Err::<
            (),
            SchedulerError,
        >(SchedulerError::QueueFull) && final(scheduler)@ == old(scheduler)@,
        !(old(scheduler)@.queue.len() >= MAX_PROCESSES || old(scheduler)@.queue.contains(pid)) ==> r is Ok
            && final(scheduler)@ == (SchedulerModel { queue: old(scheduler)@.queue.push(pid), ..old(scheduler)@ }),
{
    scheduler.enqueue(pid)
}

/// The running process.
pub fn current_process(scheduler: &Scheduler) -> (r: Option<u64>)
    ensures
        r == scheduler@.current,
{
    scheduler.current_process
}

/// Ticks counted so far.
pub fn ticks(scheduler: &Scheduler) -> (r: u64)
    ensures
        r == scheduler@.ticks,
{
    scheduler.time_ticks
}

/// The queue after offering `pid` to it: `pid` joins the back unless the
/// queue is full or already holds it.
pub open spec fn offered(q: Seq<u64>, pid: u64) -> Seq<u64> {
    if q.len() >= MAX_PROCESSES || q.contains(pid) {
        q
    } else {
        q.push(pid)
    }
}

/// The running process exists and has not terminated.
pub open spec fn current_alive(t: ProcessTableModel, s: SchedulerModel) -> bool {
    match s.current {
        Some(pid) => t.get(pid) is Some && t.get(pid)->0.state != ProcessState::Terminated,
        None => false,
    }
}

/// Start the front of `q`, if any, leaving process table `t` and queue `q`.
pub open spec fn dispatch(
    t: ProcessTableModel,
    q: Seq<u64>,
    s: SchedulerModel,
    nt: ProcessTableModel,
    ns: SchedulerModel,
    idle_current: Option<u64>,
) -> bool {
    if q.len() == 0 {
        nt == t && ns == SchedulerModel { current: idle_current, queue: q, ..s }
    } else {
        &&& nt == t.with_state(q[0], ProcessState::Running)
        &&& ns == SchedulerModel { current: Some(q[0]), queue: q.drop_first(), ..s }
    }
}

/// What `switch_context` does: count a tick; a live process whose time
/// slice (10 ticks) has not run out keeps the CPU; otherwise a live process
/// goes back to the queue as ready and the front of the queue runs.
pub open spec fn switch_outcome(
    ot: ProcessTableModel,
    os: SchedulerModel,
    nt: ProcessTableModel,
    ns: SchedulerModel,
) -> bool {
    let s1 = SchedulerModel { ticks: (os.ticks + 1) as u64, ..os };
    let alive = current_alive(ot, os);
    if alive && s1.ticks % 10 != 0 {
        nt == ot && ns == s1
    } else if alive {
        let pid = os.current->0;
        dispatch(ot.with_state(pid, ProcessState::Ready), offered(os.queue, pid), s1, nt, ns, None)
    } else {
        dispatch(ot, os.queue, s1, nt, ns, None)
    }
}

/// Round robin: a live process keeps the CPU until its ten-tick slice runs
/// out; then it goes to the back of the ready queue and the process at the
/// front runs.
pub proof fn law_round_robin(ot: ProcessTableModel, os: SchedulerModel, nt: ProcessTableModel, ns: SchedulerModel)
    requires
        os.ticks < u64::MAX,
        switch_outcome(ot, os, nt, ns),
        current_alive(ot, os),
    ensures
        (os.ticks + 1) % 10 != 0 ==> ns.current == os.current && ns.queue == os.queue && nt == ot,
        (os.ticks + 1) % 10 == 0 && 0 < os.queue.len() < MAX_PROCESSES && !os.queue.contains(os.current->0) ==> {
            &&& ns.current == Some(os.queue[0])
            &&& ns.queue == os.queue.drop_first().push(os.current->0)
        },
        ns.ticks == os.ticks + 1,
{
}

/// A process that has terminated, or is gone from the table, gives up the
/// CPU at the next switch whatever is left of its time slice: it is not put
/// back in the queue, and the front of the queue runs (or nothing, when the
/// queue is empty).
pub proof fn law_terminated_gives_up_cpu(
    ot: ProcessTableModel,
    os: SchedulerModel,
    nt: ProcessTableModel,
    ns: SchedulerModel,
    pid: u64,
)
    requires
        os.ticks < u64::MAX,
        switch_outcome(ot, os, nt, ns),
        os.current == Some(pid),
        ot.get(pid) is None || ot.get(pid)->0.state == ProcessState::Terminated,
    ensures
        os.queue.len() == 0 ==> ns.current is None && ns.queue == os.queue && nt == ot,
        os.queue.len() > 0 ==> ns.current == Some(os.queue[0]) && ns.queue == os.queue.drop_first(),
        os.queue.len() > 0 ==> nt.get(os.queue[0]) == ot.with_state(os.queue[0], ProcessState::Running).get(
            os.queue[0],
        ),
        !os.queue.contains(pid) ==> ns.current != Some(pid) && !ns.queue.contains(pid),
        ns.ticks == os.ticks + 1,
{
    if os.queue.len() > 0 && !os.queue.contains(pid) {
        assert(os.queue[0] != pid);
        assert forall|k: int| 0 <= k < ns.queue.len() implies ns.queue[k] != pid by {
            assert(ns.queue[k] == os.queue[k + 1]);
        }
    }
}

/// Switch to the next process.
pub fn switch_context(scheduler: &mut Scheduler, table: &mut ProcessTable)
    requires
        old(scheduler).wf(),
        old(table)@.wf(),
        old(scheduler)@.ticks < u64::MAX,
    ensures
        final(scheduler).wf(),
        final(table)@.wf(),
        switch_outcome(old(table)@, old(scheduler)@, final(table)@, final(scheduler)@),
{
    scheduler.tick();
    let current_expired = scheduler.time_ticks % 10 == 0;
    let current_alive = match scheduler.current_process {
        Some(pid) => match process::get_process(table, pid) {
            Some(p) => p.state != ProcessState::Terminated,
            None => false,
        },
        None => false,
    };
    if current_alive && !current_expired {
        return;
    }
    if current_alive {
        if let Some(pid) = scheduler.current_process {
            let _ = process::set_process_state(table, pid, ProcessState::Ready);
            let _ = scheduler.enqueue(pid);
        }
    }
    if let Some(next_pid) = scheduler.select_next() {
        scheduler.set_current(Some(next_pid));
        let _ = process::set_process_state(table, next_pid, ProcessState::Running);
    } else {
        scheduler.set_current(None);
    }
}

/// What `yield_process` does: the running process goes back to the queue as
/// ready and the front of the queue runs.
pub open spec fn yield_outcome(
    ot: ProcessTableModel,
    os: SchedulerModel,
    nt: ProcessTableModel,
    ns: SchedulerModel,
) -> bool {
    match os.current {
        Some(pid) => dispatch(
            ot.with_state(pid, ProcessState::Ready),
            offered(os.queue, pid),
            SchedulerModel { current: None, ..os },
            nt,
            ns,
            None,
        ),
        None => dispatch(ot, os.queue, os, nt, ns, None),
    }
}

/// Give up the CPU.
pub fn yield_process(scheduler: &mut Scheduler, table: &mut ProcessTable)
    requires
        old(scheduler).wf(),
        old(table)@.wf(),
    ensures
        final(scheduler).wf(),
        final(table)@.wf(),
        yield_outcome(old(table)@, old(scheduler)@, final(table)@, final(scheduler)@),
{
    if let Some(pid) = scheduler.current_process {
        scheduler.set_current(None);
        let _ = process::set_process_state(table, pid, ProcessState::Ready);
        let _ = scheduler.enqueue(pid);
    }
    if let Some(next_pid) = scheduler.select_next() {
        scheduler.set_current(Some(next_pid));
        let _ = process::set_process_state(table, next_pid, ProcessState::Running);
    }
}

/// Put the running process to sleep; nothing runs afterwards.
pub fn block_process(scheduler: &mut Scheduler, table: &mut ProcessTable)
    requires
        old(scheduler).wf(),
        old(table)@.wf(),
    ensures
        final(scheduler).wf(),
        final(table)@.wf(),
        final(scheduler)@ == (SchedulerModel { current: None, ..old(scheduler)@ }),
        final(table)@ == match old(scheduler)@.current {
            Some(pid) => old(table)@.with_state(pid, ProcessState::Waiting),
            None => old(table)@,
        },
{
    if let Some(pid) = scheduler.current_process {
        let _ = process::set_process_state(table, pid, ProcessState::Waiting);
    }
    scheduler.set_current(None);
}

/// Make process `pid` ready and queue it.
pub fn wake_process(scheduler: &mut Scheduler, table: &mut ProcessTable, pid: u64) -> (r: Result<(), SchedulerError>)
    requires
        old(scheduler).wf(),
        old(table)@.wf(),
    ensures
        final(scheduler).wf(),
        final(table)@.wf(),
        final(table)@ == old(table)@.with_state(pid, ProcessState::Ready),
        final(scheduler)@ == (SchedulerModel { queue: offered(old(scheduler)@.queue, pid), ..old(scheduler)@ }),
        r is Ok <==> !(old(scheduler)@.queue.len() >= MAX_PROCESSES || old(scheduler)@.queue.contains(pid)),
        r is Err ==> r == Err::<(), SchedulerError>(SchedulerError::QueueFull),
{
    let _ = process::set_process_state(table, pid, ProcessState::Ready);
    scheduler.enqueue(pid)
}

/// Scheduler statistics.
pub struct SchedulerStats {
    pub total_ticks: u64,
    pub processes_ready: usize,
    pub current_process: Option<u64>,
}

/// Ticks, queue length and running process.
pub fn get_stats(scheduler: &Scheduler) -> (r: SchedulerStats)
    requires
        scheduler.wf(),
    ensures
        r.total_ticks == scheduler@.ticks,
        r.processes_ready == scheduler@.queue.len(),
        r.current_process == scheduler@.current,
{
    SchedulerStats {
        total_ticks: scheduler.time_ticks,
        processes_ready: scheduler.len(),
        current_process: scheduler.current_process,
    }
}

} // verus!
