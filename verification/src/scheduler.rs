//! The round-robin scheduler: the thread table, the ready queue, the
//! sleeping-thread structure and the identity of the running thread,
//! together with the decision function that picks the next thread.
//!
//! The scheduler is pure bookkeeping over plain values: the monotonic clock
//! is passed in as a nanosecond count, and the raw register switch that a
//! positive decision calls for happens outside the crate. The caller is
//! expected to serialise every call (in a kernel: under one lock with
//! interrupts masked).
use vstd::prelude::*;

use std::collections::VecDeque;

use crate::stack::INITIAL_FRAME_WORDS;
use crate::stack::Stack;
use crate::thread::AddressSpaceHandle;
use crate::thread::BlockReason;
use crate::thread::Thread;
use crate::thread::ThreadId;
use crate::thread::ThreadState;
use crate::thread::ThreadView;
use crate::thread::view_matches;

verus! {

/// An absolute point in monotonic time, in nanoseconds since boot, at which
/// a sleeping thread becomes eligible to run again.
#[derive(Debug, Clone, Copy, PartialEq, Eq, PartialOrd, Ord, Structural)]
pub struct Deadline(pub u64);

impl Deadline {
    /// A deadline at the given monotonic timestamp.
    pub fn absolute(deadline: u64) -> (d: Self)
        ensures
            d.0 == deadline,
    {
        Deadline(deadline)
    }

    /// A deadline the given number of nanoseconds after `now`, the current
    /// reading of the monotonic clock.
    pub fn relative(now: u64, deadline: u64) -> (d: Self)
        requires
            now + deadline <= u64::MAX,
        ensures
            d.0 == now + deadline,
    {
        Deadline(now + deadline)
    }
}

/// One sleeping thread and the deadline at which it wakes.
#[derive(Debug, Clone, Copy, PartialEq, Eq, Structural)]
pub struct SleepEntry {
    pub deadline: Deadline,
    pub thread: ThreadId,
}

/// Strict ordering of sleep entries: by deadline, then by thread identity.
/// The sleeping structure is kept sorted by it, so the earliest deadline is
/// always at the front.
pub open spec fn entry_lt(a: SleepEntry, b: SleepEntry) -> bool {
    a.deadline.0 < b.deadline.0 || (a.deadline.0 == b.deadline.0 && a.thread.0 < b.thread.0)
}

/// Total accumulated processor time over a thread table, in nanoseconds.
pub open spec fn sum_times(threads: Seq<Thread>) -> int
    decreases threads.len(),
{
    if threads.len() == 0 {
        0
    } else {
        threads[0].time + sum_times(threads.drop_first())
    }
}

/// The scheduler: owns every thread's control block and decides which
/// thread runs next.
pub struct Scheduler {
    /// Whether the scheduler is permitted to switch threads at all; off
    /// during early boot.
    pub active: bool,
    /// The thread table. The thread with identity `i` sits at index `i`;
    /// identities are handed out densely and never reused.
    pub threads: Vec<Thread>,
    /// The fallback thread, chosen only when nothing else is runnable; set
    /// at most once and never placed in the ready queue.
    pub idle_thread_id: Option<ThreadId>,
    /// The thread whose context the processor is executing (or about to
    /// resume).
    pub current_thread_id: ThreadId,
    /// First-in-first-out queue of threads that are ready to run.
    pub paused_threads: VecDeque<ThreadId>,
    /// Sleeping threads, sorted by `entry_lt` so the earliest deadline is
    /// examined first.
    pub sleeping_threads: Vec<SleepEntry>,
    /// Reading of the monotonic clock at the last accounting step.
    pub last_accounting_update: u64,
}

/// The scheduler's state as plain mathematical values: what the contracts
/// speak about.
#[verifier::ext_equal]
pub ghost struct SchedulerModel {
    pub active: bool,
    pub threads: Seq<Thread>,
    pub idle_thread_id: Option<ThreadId>,
    pub current_thread_id: ThreadId,
    pub queue: Seq<ThreadId>,
    pub sleeping: Seq<SleepEntry>,
    pub last_accounting_update: u64,
}

impl SchedulerModel {
    /// Whether a thread is the registered idle thread.
    pub open spec fn is_idle(self, id: ThreadId) -> bool {
        self.idle_thread_id == Some(id)
    }

    /// The identities of the sleeping threads whose deadline has passed at
    /// `now`: because the structure is sorted, exactly its leading entries.
    pub open spec fn woken(self, now: u64) -> Seq<ThreadId> {
        self.sleeping.take(due_count(self.sleeping, now)).map_values(|e: SleepEntry| e.thread)
    }

    /// The ready queue after the wake sweep: the woken threads join at the
    /// back, in ascending deadline order.
    pub open spec fn wake_queue(self, now: u64) -> Seq<ThreadId> {
        self.queue + self.woken(now)
    }

    /// The state of the thread at index `i` after the wake sweep at `now`.
    pub open spec fn state_after_wake(self, now: u64, i: int) -> ThreadState {
        if self.woken(now).contains(self.threads[i].id) {
            ThreadState::ReadyToRun
        } else {
            self.threads[i].state
        }
    }

    /// Which thread a scheduling pass at `now` picks to run next: the front
    /// of the ready queue; failing that, the current thread if it still
    /// wants to run (and is not the idle thread); failing that, the idle
    /// thread, if one is registered.
    pub open spec fn picked(self, now: u64) -> Option<ThreadId> {
        let q = self.wake_queue(now);
        if q.len() > 0 {
            Some(q[0])
        } else if !self.is_idle(self.current_thread_id) && self.state_after_wake(
            now,
            self.current_thread_id.0 as int,
        ) == ThreadState::Running {
            Some(self.current_thread_id)
        } else {
            self.idle_thread_id
        }
    }

    /// What a scheduling pass at `now` returns: the (previous, next) pair
    /// when a switch is warranted, and `None` when the scheduler is
    /// inactive, when nothing is runnable, or when the picked thread is
    /// already the current one.
    pub open spec fn decision(self, now: u64) -> Option<(ThreadId, ThreadId)> {
        if !self.active {
            None
        } else {
            match self.picked(now) {
                Some(n) => if n == self.current_thread_id {
                    None
                } else {
                    Some((self.current_thread_id, n))
                },
                None => None,
            }
        }
    }

    /// The state of the thread at index `i` after a full scheduling pass at
    /// `now`: the picked thread runs; a current thread that was running but
    /// was switched away from becomes ready to run again.
    pub open spec fn state_after_schedule(self, now: u64, i: int) -> ThreadState {
        if !self.active {
            self.threads[i].state
        } else {
            match self.picked(now) {
                Some(n) => if i == n.0 {
                    ThreadState::Running
                } else if i == self.current_thread_id.0 && self.state_after_wake(now, i)
                    == ThreadState::Running {
                    ThreadState::ReadyToRun
                } else {
                    self.state_after_wake(now, i)
                },
                None => self.state_after_wake(now, i),
            }
        }
    }

    /// The ready queue after a full scheduling pass at `now`: the picked
    /// thread leaves the front; a current thread that was running but was
    /// switched away from joins at the back — unless it is the idle thread,
    /// which is never enqueued.
    pub open spec fn queue_after_schedule(self, now: u64) -> Seq<ThreadId> {
        if !self.active {
            self.queue
        } else {
            let q = self.wake_queue(now);
            let cur = self.current_thread_id;
            match self.picked(now) {
                Some(n) => {
                    let q1 = if q.len() > 0 {
                        q.drop_first()
                    } else {
                        q
                    };
                    if n != cur && self.state_after_wake(now, cur.0 as int)
                        == ThreadState::Running && !self.is_idle(cur) {
                        q1.push(cur)
                    } else {
                        q1
                    }
                },
                None => q,
            }
        }
    }

    /// The current thread after a full scheduling pass at `now`.
    pub open spec fn current_after_schedule(self, now: u64) -> ThreadId {
        if !self.active {
            self.current_thread_id
        } else {
            match self.picked(now) {
                Some(n) => n,
                None => self.current_thread_id,
            }
        }
    }

    /// The whole state after a full scheduling pass at `now`: the decision
    /// algorithm of `Scheduler::schedule` as one transition function on
    /// models. An inactive scheduler is left untouched; an active one wakes
    /// the due sleepers, attributes the elapsed time to the thread that was
    /// current, and installs the picked thread.
    pub open spec fn after_schedule(self, now: u64) -> SchedulerModel {
        if !self.active {
            self
        } else {
            SchedulerModel {
                active: true,
                threads: Seq::new(
                    self.threads.len(),
                    |i: int|
                        Thread {
                            state: self.state_after_schedule(now, i),
                            time: if i == self.current_thread_id.0 as int {
                                (self.threads[i].time + (now - self.last_accounting_update)) as u64
                            } else {
                                self.threads[i].time
                            },
                            ..self.threads[i]
                        },
                ),
                idle_thread_id: self.idle_thread_id,
                current_thread_id: self.current_after_schedule(now),
                queue: self.queue_after_schedule(now),
                sleeping: self.sleeping.skip(due_count(self.sleeping, now)),
                last_accounting_update: now,
            }
        }
    }
}

impl Scheduler {
    /// The scheduler's state as plain mathematical values.
    pub open spec fn model(self) -> SchedulerModel {
        SchedulerModel {
            active: self.active,
            threads: self.threads@,
            idle_thread_id: self.idle_thread_id,
            current_thread_id: self.current_thread_id,
            queue: self.paused_threads@,
            sleeping: self.sleeping_threads@,
            last_accounting_update: self.last_accounting_update,
        }
    }

    /// Whether an identity names a slot of the thread table.
    pub open spec fn valid_id(self, id: ThreadId) -> bool {
        id.0 < self.threads@.len()
    }

    /// The control block of the thread with the given identity.
    pub open spec fn thread_of(self, id: ThreadId) -> Thread {
        self.threads@[id.0 as int]
    }

    /// The lifecycle state of the thread with the given identity.
    pub open spec fn state_of(self, id: ThreadId) -> ThreadState {
        self.thread_of(id).state
    }

    /// Whether a thread is waiting in the ready queue.
    pub open spec fn queued(self, id: ThreadId) -> bool {
        self.paused_threads@.contains(id)
    }

    /// Whether a thread is in the sleeping structure.
    pub open spec fn sleeping(self, id: ThreadId) -> bool {
        exists|i: int|
            0 <= i < self.sleeping_threads@.len() && self.sleeping_threads@[i].thread == id
    }

    /// Whether a thread is the registered idle thread.
    pub open spec fn is_idle(self, id: ThreadId) -> bool {
        self.idle_thread_id == Some(id)
    }

    /// The thread with identity `i` sits at index `i` of the table.
    pub open spec fn ids_indexed(self) -> bool {
        forall|i: int| 0 <= i < self.threads@.len() ==> #[trigger] self.threads@[i].id.0 == i
    }

    /// Only the current thread may hold the `Running` state.
    pub open spec fn running_wf(self) -> bool {
        forall|i: int|
            0 <= i < self.threads@.len() && (#[trigger] self.threads@[i].state)
                == ThreadState::Running ==> i == self.current_thread_id.0
    }

    /// Every queued thread is a real, ready-to-run, non-idle thread, and no
    /// thread is queued twice.
    pub open spec fn queue_wf(self) -> bool {
        let q = self.paused_threads@;
        &&& forall|i: int|
            0 <= i < q.len() ==> self.valid_id(#[trigger] q[i]) && self.state_of(q[i])
                == ThreadState::ReadyToRun && !self.is_idle(q[i])
        &&& forall|i: int, j: int| 0 <= i < j < q.len() ==> #[trigger] q[i] != #[trigger] q[j]
    }

    /// The sleeping structure is sorted strictly by deadline then identity,
    /// holds each thread at most once, and every entry names a real,
    /// blocked, non-idle thread.
    pub open spec fn sleeping_wf(self) -> bool {
        let s = self.sleeping_threads@;
        &&& forall|i: int, j: int| 0 <= i < j < s.len() ==> entry_lt(#[trigger] s[i], #[trigger] s[j])
        &&& forall|i: int, j: int|
            0 <= i < s.len() && 0 <= j < s.len() && i != j ==> (#[trigger] s[i]).thread != (
            #[trigger] s[j]).thread
        &&& forall|i: int|
            0 <= i < s.len() ==> self.valid_id((#[trigger] s[i]).thread) && (self.state_of(
                s[i].thread,
            ) matches ThreadState::Blocked(_)) && !self.is_idle(s[i].thread)
    }

    /// The thread at index `l` is the one whose context is live on the
    /// processor: it alone has no saved stack pointer.
    pub open spec fn is_live_slot(self, l: int) -> bool {
        forall|i: int|
            0 <= i < self.threads@.len() ==> ((#[trigger] self.threads@[i].stack_pointer)
                is None <==> i == l)
    }

    /// Exactly one thread — the one whose context is live on the processor —
    /// has no saved stack pointer.
    pub open spec fn live_wf(self) -> bool {
        exists|l: int| 0 <= l < self.threads@.len() && #[trigger] self.is_live_slot(l)
    }

    /// Accumulated processor time never exceeds the clock: the total over
    /// all threads is at most the timestamp of the last accounting step.
    pub open spec fn accounting_wf(self) -> bool {
        sum_times(self.threads@) <= self.last_accounting_update
    }

    /// The scheduler's invariant. Established by `new` and preserved by
    /// every operation.
    pub open spec fn wf(self) -> bool {
        &&& self.threads@.len() >= 1
        &&& self.valid_id(self.current_thread_id)
        &&& (match self.idle_thread_id {
            Some(id) => self.valid_id(id),
            None => true,
        })
        &&& self.ids_indexed()
        &&& self.running_wf()
        &&& self.queue_wf()
        &&& self.sleeping_wf()
        &&& self.live_wf()
        &&& self.accounting_wf()
    }

    /// Create the scheduler, inactive, with the bootstrap thread — the
    /// control flow already executing — as its only, current thread.
    pub fn new(address_space: AddressSpaceHandle) -> (s: Scheduler)
        ensures
            s.wf(),
            !s.active,
            s.threads@.len() == 1,
            s.threads@[0].state == ThreadState::Running,
            s.threads@[0].id.0 == 0,
            s.threads@[0].address_space == address_space,
            s.threads@[0].time == 0,
            s.threads@[0].stack is None,
            s.threads@[0].stack_pointer is None,
            s.threads@[0].name@ == "kernel"@,
            s.current_thread_id.0 == 0,
            s.idle_thread_id is None,
            s.paused_threads@.len() == 0,
            s.sleeping_threads@.len() == 0,
            s.last_accounting_update == 0,
    {
        let bootstrap = Thread::bootstrap(ThreadId::from_usize(0), address_space);
        let mut threads: Vec<Thread> = Vec::new();
        threads.push(bootstrap);
        let s = Scheduler {
            active: false,
            threads,
            idle_thread_id: None,
            current_thread_id: ThreadId::from_usize(0),
            paused_threads: VecDeque::new(),
            sleeping_threads: Vec::new(),
            last_accounting_update: 0,
        };
        proof {
            assert(s.threads@.drop_first() =~= Seq::<Thread>::empty());
            assert(sum_times(s.threads@.drop_first()) == 0);
            assert(s.is_live_slot(0));
        }
        s
    }

    /// Get the scheduler's active state.
    pub fn active(&self) -> (active: bool)
        ensures
            active == self.active,
    {
        self.active
    }

    /// Set the scheduler's active state and restart time accounting from
    /// `now`, the current reading of the monotonic clock.
    pub fn set_active(&mut self, active: bool, now: u64)
        requires
            old(self).wf(),
            now >= old(self).last_accounting_update,
        ensures
            final(self).wf(),
            final(self).model() == (SchedulerModel {
                active,
                last_accounting_update: now,
                ..old(self).model()
            }),
    {
        self.active = active;
        self.last_accounting_update = now;
        proof {
            lemma_live_wf_same(*old(self), *self);
        }
    }

    /// Get the identity of the thread whose context the processor is
    /// executing.
    pub fn current_thread_id(&self) -> (id: ThreadId)
        ensures
            id == self.current_thread_id,
    {
        self.current_thread_id
    }

    /// Get whether the idle thread is the current thread.
    pub fn is_idle_thread_active(&self) -> (r: bool)
        ensures
            r == self.is_idle(self.current_thread_id),
    {
        match self.idle_thread_id {
            Some(id) => id.as_usize() == self.current_thread_id.as_usize(),
            None => false,
        }
    }

    /// The identities of the sleeping threads whose deadline has passed at
    /// `now`: because the structure is sorted, exactly its leading entries.
    pub open spec fn woken(self, now: u64) -> Seq<ThreadId> {
        self.model().woken(now)
    }

    /// The ready queue after the wake sweep: the woken threads join at the
    /// back, in ascending deadline order.
    pub open spec fn wake_queue(self, now: u64) -> Seq<ThreadId> {
        self.model().wake_queue(now)
    }

    /// The state of the thread at index `i` after the wake sweep at `now`.
    pub open spec fn state_after_wake(self, now: u64, i: int) -> ThreadState {
        self.model().state_after_wake(now, i)
    }

    /// Which thread a scheduling pass at `now` picks to run next: the front
    /// of the ready queue; failing that, the current thread if it still
    /// wants to run (and is not the idle thread); failing that, the idle
    /// thread, if one is registered.
    pub open spec fn picked(self, now: u64) -> Option<ThreadId> {
        self.model().picked(now)
    }

    /// What a scheduling pass at `now` returns: the (previous, next) pair
    /// when a switch is warranted, and `None` when the scheduler is
    /// inactive, when nothing is runnable, or when the picked thread is
    /// already the current one.
    pub open spec fn decision(self, now: u64) -> Option<(ThreadId, ThreadId)> {
        self.model().decision(now)
    }

    /// The state of the thread at index `i` after a full scheduling pass at
    /// `now`: the picked thread runs; a current thread that was running but
    /// was switched away from becomes ready to run again.
    pub open spec fn state_after_schedule(self, now: u64, i: int) -> ThreadState {
        self.model().state_after_schedule(now, i)
    }

    /// The ready queue after a full scheduling pass at `now`: the picked
    /// thread leaves the front; a current thread that was running but was
    /// switched away from joins at the back — unless it is the idle thread,
    /// which is never enqueued.
    pub open spec fn queue_after_schedule(self, now: u64) -> Seq<ThreadId> {
        self.model().queue_after_schedule(now)
    }

    /// The current thread after a full scheduling pass at `now`.
    pub open spec fn current_after_schedule(self, now: u64) -> ThreadId {
        self.model().current_after_schedule(now)
    }

    /// Create a control block and its stack and append it to the thread
    /// table, ready to run but not yet queued.
    fn create_thread(&mut self, name: &str, entry: u64, stack_size: usize, stack_base: u64) -> (id:
        ThreadId)
        requires
            old(self).wf(),
            stack_size >= INITIAL_FRAME_WORDS,
            stack_base + 8 * stack_size <= u64::MAX,
            old(self).threads@.len() < usize::MAX,
        ensures
            final(self).wf(),
            id.0 == old(self).threads@.len(),
            final(self).model() == (SchedulerModel {
                threads: old(self).threads@.push(final(self).threads@[id.0 as int]),
                ..old(self).model()
            }),
            fresh_thread(
                final(self).threads@[id.0 as int],
                id,
                name@,
                entry,
                stack_size as int,
                stack_base,
                old(self).threads@[0].address_space,
            ),
            !final(self).queued(id),
            !final(self).sleeping(id),
            !final(self).is_idle(id),
            id != final(self).current_thread_id,
    {
        let address_space = self.threads[0].address_space;
        let id = ThreadId::from_usize(self.threads.len());
        let stack = Stack::new(stack_size, entry, stack_base);
        let initial_stack_pointer = stack.initial_stack_pointer();
        let mut tcb = Thread::new(id, initial_stack_pointer, address_space, name.to_string(), stack);
        tcb.set_state(ThreadState::ReadyToRun);
        self.threads.push(tcb);
        proof {
            let a = *old(self);
            let b = *self;
            assert(b.threads@ == a.threads@.push(b.threads@[id.0 as int]));
            lemma_sum_times_push(a.threads@, b.threads@[id.0 as int]);
            let l = choose|l: int| 0 <= l < a.threads@.len() && #[trigger] a.is_live_slot(l);
            assert(b.is_live_slot(l));
            assert forall|i: int|
                0 <= i < b.paused_threads@.len() implies b.valid_id(
                #[trigger] b.paused_threads@[i],
            ) && b.state_of(b.paused_threads@[i]) == ThreadState::ReadyToRun && !b.is_idle(
                b.paused_threads@[i],
            ) by {
                assert(a.valid_id(a.paused_threads@[i]));
            }
            assert forall|i: int|
                0 <= i < b.sleeping_threads@.len() implies b.valid_id(
                (#[trigger] b.sleeping_threads@[i]).thread,
            ) && (b.state_of(b.sleeping_threads@[i].thread) matches ThreadState::Blocked(_))
                && !b.is_idle(b.sleeping_threads@[i].thread) by {
                assert(a.valid_id(a.sleeping_threads@[i].thread));
            }
        }
        id
    }

    /// Create a new thread that will enter the function at address `entry`
    /// on a fresh stack of `stack_size` words living at `stack_base`, and
    /// place it at the back of the ready queue.
    pub fn add_paused_thread(
        &mut self,
        name: &str,
        entry: u64,
        stack_size: usize,
        stack_base: u64,
    ) -> (id: ThreadId)
        requires
            old(self).wf(),
            stack_size >= INITIAL_FRAME_WORDS,
            stack_base + 8 * stack_size <= u64::MAX,
            old(self).threads@.len() < usize::MAX,
        ensures
            final(self).wf(),
            id.0 == old(self).threads@.len(),
            final(self).model() == (SchedulerModel {
                threads: old(self).threads@.push(final(self).threads@[id.0 as int]),
                queue: old(self).paused_threads@.push(id),
                ..old(self).model()
            }),
            fresh_thread(
                final(self).threads@[id.0 as int],
                id,
                name@,
                entry,
                stack_size as int,
                stack_base,
                old(self).threads@[0].address_space,
            ),
    {
        let id = self.create_thread(name, entry, stack_size, stack_base);
        let ghost mid = *self;
        self.paused_threads.push_back(id);
        proof {
            lemma_live_wf_same(mid, *self);
            assert forall|i: int, j: int|
                0 <= i < j < self.paused_threads@.len() implies #[trigger] self.paused_threads@[i]
                != #[trigger] self.paused_threads@[j] by {
                if j < self.paused_threads@.len() - 1 {
                    assert(mid.paused_threads@[i] != mid.paused_threads@[j]);
                } else {
                    assert(mid.valid_id(mid.paused_threads@[i]));
                }
            }
        }
        id
    }

    /// Create the idle thread: the fallback chosen only when no other
    /// thread is runnable. It is recorded but never placed in the ready
    /// queue. Callable at most once.
    pub fn set_idle_thread(&mut self, entry: u64, stack_size: usize, stack_base: u64) -> (id:
        ThreadId)
        requires
            old(self).wf(),
            old(self).idle_thread_id is None,
            stack_size >= INITIAL_FRAME_WORDS,
            stack_base + 8 * stack_size <= u64::MAX,
            old(self).threads@.len() < usize::MAX,
        ensures
            final(self).wf(),
            id.0 == old(self).threads@.len(),
            final(self).model() == (SchedulerModel {
                threads: old(self).threads@.push(final(self).threads@[id.0 as int]),
                idle_thread_id: Some(id),
                ..old(self).model()
            }),
            fresh_thread(
                final(self).threads@[id.0 as int],
                id,
                "idle"@,
                entry,
                stack_size as int,
                stack_base,
                old(self).threads@[0].address_space,
            ),
    {
        let id = self.create_thread("idle", entry, stack_size, stack_base);
        let ghost mid = *self;
        self.idle_thread_id = Some(id);
        proof {
            lemma_live_wf_same(mid, *self);
            assert forall|i: int|
                0 <= i < self.paused_threads@.len() implies self.valid_id(
                #[trigger] self.paused_threads@[i],
            ) && self.state_of(self.paused_threads@[i]) == ThreadState::ReadyToRun && !self.is_idle(
                self.paused_threads@[i],
            ) by {
                assert(mid.valid_id(mid.paused_threads@[i]));
                assert(!mid.queued(id));
            }
            assert forall|i: int|
                0 <= i < self.sleeping_threads@.len() implies self.valid_id(
                (#[trigger] self.sleeping_threads@[i]).thread,
            ) && (self.state_of(self.sleeping_threads@[i].thread) matches ThreadState::Blocked(_))
                && !self.is_idle(self.sleeping_threads@[i].thread) by {
                assert(mid.valid_id(mid.sleeping_threads@[i].thread));
                assert(!mid.sleeping(id));
            }
        }
        id
    }

    /// Read-only copies of every thread's bookkeeping, for diagnostics.
    pub fn to_view(&self) -> (views: Vec<ThreadView>)
        ensures
            views@.len() == self.threads@.len(),
            forall|i: int|
                0 <= i < views@.len() ==> view_matches(#[trigger] views@[i], self.threads@[i]),
    {
        let mut views: Vec<ThreadView> = Vec::new();
        let mut i: usize = 0;
        while i < self.threads.len()
            invariant
                i <= self.threads@.len(),
                views@.len() == i,
                forall|j: int|
                    0 <= j < i ==> view_matches(#[trigger] views@[j], self.threads@[j]),
            decreases self.threads@.len() - i,
        {
            views.push(self.threads[i].to_view());
            i = i + 1;
        }
        views
    }

    /// Block the named thread until the given deadline: record the block
    /// and file the thread under its deadline in the sleeping structure.
    /// Only a running thread — which is therefore the current one, and not
    /// the idle thread, since the idle thread must stay runnable as the
    /// fallback — may be put to sleep.
    ///
    /// This is the first half of the two-step sleep protocol: the thread is
    /// still the current one until the caller triggers a scheduling pass,
    /// which will then switch away from it.
    pub fn sleep_thread(&mut self, id: ThreadId, deadline: Deadline)
        requires
            old(self).wf(),
            old(self).valid_id(id),
            old(self).state_of(id) == ThreadState::Running,
            !old(self).is_idle(id),
        ensures
            final(self).wf(),
            final(self).model() == (SchedulerModel {
                threads: old(self).threads@.update(
                    id.0 as int,
                    (Thread {
                        state: ThreadState::Blocked(BlockReason::Other),
                        ..old(self).thread_of(id)
                    }),
                ),
                sleeping: sleep_insert(
                    old(self).sleeping_threads@,
                    (SleepEntry { deadline, thread: id }),
                ),
                ..old(self).model()
            }),
    {
        let entry = SleepEntry { deadline, thread: id };
        self.threads[id.as_usize()].state = ThreadState::Blocked(BlockReason::Other);
        let ghost mid = *self;
        proof {
            lemma_sum_times_update(old(self).threads@, id.0 as int, mid.threads@[id.0 as int]);
            assert forall|i: int|
                0 <= i < old(self).sleeping_threads@.len() implies (#[trigger] old(self).sleeping_threads@[i]).thread != id by {
                assert((old(self).state_of(old(self).sleeping_threads@[i].thread)
                    matches ThreadState::Blocked(_)));
            }
        }
        let mut idx: usize = 0;
        while idx < self.sleeping_threads.len() && !entry_lt_exec(
            entry,
            self.sleeping_threads[idx],
        )
            invariant
                idx <= self.sleeping_threads@.len(),
                *self == mid,
                forall|j: int|
                    0 <= j < idx ==> !entry_lt(entry, #[trigger] mid.sleeping_threads@[j]),
            decreases self.sleeping_threads@.len() - idx,
        {
            idx = idx + 1;
        }
        self.sleeping_threads.insert(idx, entry);
        proof {
            let a = *old(self);
            let b = *self;
            lemma_sleep_insert_wf(a.sleeping_threads@, entry, idx as int);
            lemma_live_wf_same(a, b);
            assert forall|i: int|
                0 <= i < b.sleeping_threads@.len() implies b.valid_id(
                (#[trigger] b.sleeping_threads@[i]).thread,
            ) && (b.state_of(b.sleeping_threads@[i].thread) matches ThreadState::Blocked(_))
                && !b.is_idle(b.sleeping_threads@[i].thread) by {
                a.sleeping_threads@.insert_ensures(idx as int, entry);
                if i != idx {
                    let k: int = if i < idx {
                        i
                    } else {
                        i - 1
                    };
                    assert(a.sleeping_threads@[k] == b.sleeping_threads@[i]);
                    assert(a.valid_id(a.sleeping_threads@[k].thread));
                }
            }
            assert forall|i: int|
                0 <= i < b.paused_threads@.len() implies b.valid_id(
                #[trigger] b.paused_threads@[i],
            ) && b.state_of(b.paused_threads@[i]) == ThreadState::ReadyToRun && !b.is_idle(
                b.paused_threads@[i],
            ) by {
                assert(a.valid_id(a.paused_threads@[i]));
                assert(a.state_of(a.paused_threads@[i]) == ThreadState::ReadyToRun);
            }
        }
    }

    /// Attribute the time elapsed since the last accounting step to the
    /// current thread and restart the accounting clock at `now`.
    fn update_time_used(&mut self, now: u64)
        requires
            old(self).wf(),
            now >= old(self).last_accounting_update,
        ensures
            final(self).wf(),
            final(self).model() == (SchedulerModel {
                threads: old(self).threads@.update(
                    old(self).current_thread_id.0 as int,
                    (Thread {
                        time: (old(self).thread_of(old(self).current_thread_id).time + (now
                            - old(self).last_accounting_update)) as u64,
                        ..old(self).thread_of(old(self).current_thread_id)
                    }),
                ),
                last_accounting_update: now,
                ..old(self).model()
            }),
            sum_times(final(self).threads@) == sum_times(old(self).threads@) + (now - old(self).last_accounting_update),
    {
        let elapsed = now - self.last_accounting_update;
        let cur = self.current_thread_id.as_usize();
        proof {
            lemma_time_bounded_by_sum(self.threads@, cur as int);
            lemma_sum_times_nonneg(self.threads@);
        }
        let time = self.threads[cur].time;
        self.threads[cur].time = time + elapsed;
        self.last_accounting_update = now;
        proof {
            let a = *old(self);
            let b = *self;
            lemma_sum_times_update(a.threads@, cur as int, b.threads@[cur as int]);
            lemma_live_wf_same(a, b);
            assert forall|i: int|
                0 <= i < b.paused_threads@.len() implies b.valid_id(
                #[trigger] b.paused_threads@[i],
            ) && b.state_of(b.paused_threads@[i]) == ThreadState::ReadyToRun && !b.is_idle(
                b.paused_threads@[i],
            ) by {
                assert(a.valid_id(a.paused_threads@[i]));
                assert(a.state_of(a.paused_threads@[i]) == ThreadState::ReadyToRun);
            }
            assert forall|i: int|
                0 <= i < b.sleeping_threads@.len() implies b.valid_id(
                (#[trigger] b.sleeping_threads@[i]).thread,
            ) && (b.state_of(b.sleeping_threads@[i].thread) matches ThreadState::Blocked(_))
                && !b.is_idle(b.sleeping_threads@[i].thread) by {
                assert(a.valid_id(a.sleeping_threads@[i].thread));
                assert((a.state_of(a.sleeping_threads@[i].thread) matches ThreadState::Blocked(
                    _,
                )));
            }
        }
    }

    /// Move every sleeping thread whose deadline has passed at `now` to the
    /// back of the ready queue, in ascending deadline order, and mark it
    /// ready to run. The structure is sorted, so the sweep stops at the
    /// first deadline still in the future.
    fn wake_due_threads(&mut self, now: u64)
        requires
            old(self).wf(),
        ensures
            final(self).wf(),
            final(self).threads@.len() == old(self).threads@.len(),
            forall|i: int|
                0 <= i < old(self).threads@.len() ==> same_identity(
                    #[trigger] final(self).threads@[i],
                    old(self).threads@[i],
                ) && final(self).threads@[i].time == old(self).threads@[i].time,
            forall|i: int|
                0 <= i < old(self).threads@.len() ==> (#[trigger] final(self).threads@[i].state)
                    == old(self).state_after_wake(now, i),
            final(self).paused_threads@ == old(self).wake_queue(now),
            final(self).sleeping_threads@ == old(self).sleeping_threads@.skip(
                due_count(old(self).sleeping_threads@, now),
            ),
            final(self).active == old(self).active,
            final(self).idle_thread_id == old(self).idle_thread_id,
            final(self).current_thread_id == old(self).current_thread_id,
            final(self).last_accounting_update == old(self).last_accounting_update,
            sum_times(final(self).threads@) == sum_times(old(self).threads@),
    {
        let ghost s0 = *old(self);
        let ghost due = due_count(s0.sleeping_threads@, now);
        proof {
            lemma_due_count_char(s0.sleeping_threads@, now);
        }
        let ghost mut k: int = 0;
        while self.sleeping_threads.len() > 0 && self.sleeping_threads[0].deadline.0 <= now
            invariant
                self.wf(),
                0 <= k <= due <= s0.sleeping_threads@.len(),
                due == due_count(s0.sleeping_threads@, now),
                forall|i: int| 0 <= i < due ==> (#[trigger] s0.sleeping_threads@[i]).deadline.0
                    <= now,
                due < s0.sleeping_threads@.len() ==> s0.sleeping_threads@[due].deadline.0 > now,
                self.sleeping_threads@ == s0.sleeping_threads@.skip(k),
                self.paused_threads@ == s0.paused_threads@ + s0.sleeping_threads@.take(
                    k,
                ).map_values(|e: SleepEntry| e.thread),
                self.threads@.len() == s0.threads@.len(),
                forall|i: int|
                    0 <= i < s0.threads@.len() ==> same_identity(
                        #[trigger] self.threads@[i],
                        s0.threads@[i],
                    ) && self.threads@[i].time == s0.threads@[i].time,
                forall|i: int|
                    0 <= i < s0.threads@.len() ==> (#[trigger] self.threads@[i].state) == (
                    if contains_thread(s0.sleeping_threads@.take(k), s0.threads@[i].id) {
                        ThreadState::ReadyToRun
                    } else {
                        s0.threads@[i].state
                    }),
                self.active == s0.active,
                self.idle_thread_id == s0.idle_thread_id,
                self.current_thread_id == s0.current_thread_id,
                self.last_accounting_update == s0.last_accounting_update,
                sum_times(self.threads@) == sum_times(s0.threads@),
            decreases self.sleeping_threads@.len(),
        {
            let ghost pre = *self;
            let entry = self.sleeping_threads.remove(0);
            let tid = entry.thread.as_usize();
            proof {
                assert(pre.sleeping_threads@[0] == s0.sleeping_threads@[k]);
                assert(pre.valid_id(entry.thread));
                assert(pre.threads@[tid as int].id.0 == tid as int);
                assert(pre.threads@[tid as int].id == entry.thread);
            }
            self.threads[tid].state = ThreadState::ReadyToRun;
            self.paused_threads.push_back(entry.thread);
            proof {
                let b = *self;
                lemma_sum_times_update(pre.threads@, tid as int, b.threads@[tid as int]);
                lemma_live_wf_same(pre, b);
                assert(b.sleeping_threads@ =~= s0.sleeping_threads@.skip(k + 1));
                assert(s0.sleeping_threads@.take(k + 1) =~= s0.sleeping_threads@.take(k).push(
                    s0.sleeping_threads@[k],
                ));
                assert(s0.sleeping_threads@.take(k + 1).map_values(|e: SleepEntry| e.thread)
                    =~= s0.sleeping_threads@.take(k).map_values(|e: SleepEntry| e.thread).push(
                    entry.thread,
                ));
                assert(b.paused_threads@ =~= s0.paused_threads@ + s0.sleeping_threads@.take(
                    k + 1,
                ).map_values(|e: SleepEntry| e.thread));
                assert forall|i: int|
                    0 <= i < s0.threads@.len() implies (#[trigger] b.threads@[i].state) == (
                if contains_thread(s0.sleeping_threads@.take(k + 1), s0.threads@[i].id) {
                    ThreadState::ReadyToRun
                } else {
                    s0.threads@[i].state
                }) by {
                    let taken1 = s0.sleeping_threads@.take(k + 1);
                    let taken = s0.sleeping_threads@.take(k);
                    assert(s0.threads@[i].id.0 == i);
                    if i == tid as int {
                        assert(taken1[k].thread == s0.threads@[i].id);
                        assert(contains_thread(taken1, s0.threads@[i].id));
                    } else {
                        assert(s0.threads@[i].id != entry.thread);
                        if contains_thread(taken1, s0.threads@[i].id) {
                            let w = choose|w: int|
                                0 <= w < taken1.len() && (#[trigger] taken1[w]).thread
                                    == s0.threads@[i].id;
                            assert(w < k);
                            assert(taken[w] == taken1[w]);
                            assert(contains_thread(taken, s0.threads@[i].id));
                        }
                        if contains_thread(taken, s0.threads@[i].id) {
                            let w = choose|w: int|
                                0 <= w < taken.len() && (#[trigger] taken[w]).thread
                                    == s0.threads@[i].id;
                            assert(taken1[w] == taken[w]);
                            assert(contains_thread(taken1, s0.threads@[i].id));
                        }
                    }
                }
                // The due count cannot stop at k: the entry at k was due.
                assert(due > k) by {
                    if due <= k {
                        assert(s0.sleeping_threads@[due].deadline.0 > now);
                        assert(forall|i: int, j: int|
                            0 <= i < j < s0.sleeping_threads@.len() ==> entry_lt(
                                #[trigger] s0.sleeping_threads@[i],
                                #[trigger] s0.sleeping_threads@[j],
                            ));
                        if due < k {
                            assert(entry_lt(
                                s0.sleeping_threads@[due],
                                s0.sleeping_threads@[k],
                            ));
                        }
                    }
                }
                // Newly woken thread: distinct from everything already queued.
                assert forall|i: int, j: int|
                    0 <= i < j < b.paused_threads@.len() implies #[trigger] b.paused_threads@[i]
                    != #[trigger] b.paused_threads@[j] by {
                    if j == b.paused_threads@.len() - 1 {
                        assert(b.paused_threads@[j] == entry.thread);
                        assert(pre.paused_threads@[i] == b.paused_threads@[i]);
                        assert((pre.state_of(pre.paused_threads@[i]))
                            == ThreadState::ReadyToRun);
                        assert((pre.state_of(entry.thread) matches ThreadState::Blocked(_)));
                    } else {
                        assert(pre.paused_threads@[i] != pre.paused_threads@[j]);
                    }
                }
                // Remaining sleepers are untouched: they are distinct from
                // the woken thread.
                assert forall|i: int|
                    0 <= i < b.sleeping_threads@.len() implies b.valid_id(
                    (#[trigger] b.sleeping_threads@[i]).thread,
                ) && (b.state_of(b.sleeping_threads@[i].thread) matches ThreadState::Blocked(_))
                    && !b.is_idle(b.sleeping_threads@[i].thread) by {
                    assert(pre.sleeping_threads@[i + 1] == b.sleeping_threads@[i]);
                    assert(pre.valid_id(pre.sleeping_threads@[i + 1].thread));
                    assert(pre.sleeping_threads@[i + 1].thread != entry.thread);
                }
                assert forall|i: int|
                    0 <= i < b.paused_threads@.len() implies b.valid_id(
                    #[trigger] b.paused_threads@[i],
                ) && b.state_of(b.paused_threads@[i]) == ThreadState::ReadyToRun && !b.is_idle(
                    b.paused_threads@[i],
                ) by {
                    if i < b.paused_threads@.len() - 1 {
                        assert(pre.valid_id(pre.paused_threads@[i]));
                        assert(pre.state_of(pre.paused_threads@[i]) == ThreadState::ReadyToRun);
                    }
                }
                k = k + 1;
            }
        }
        proof {
            let b = *self;
            // At exit the consumed prefix is exactly the due prefix.
            assert(k == due) by {
                if k < due {
                    assert(s0.sleeping_threads@[k].deadline.0 <= now);
                    assert(b.sleeping_threads@[0] == s0.sleeping_threads@[k]);
                }
            }
            assert(b.paused_threads@ == s0.wake_queue(now));
            assert forall|i: int|
                0 <= i < s0.threads@.len() implies (#[trigger] b.threads@[i].state)
                == s0.state_after_wake(now, i) by {
                let woken = s0.woken(now);
                let taken = s0.sleeping_threads@.take(due);
                assert(woken == taken.map_values(|e: SleepEntry| e.thread));
                if contains_thread(taken, s0.threads@[i].id) {
                    let w = choose|w: int|
                        0 <= w < taken.len() && (#[trigger] taken[w]).thread == s0.threads@[i].id;
                    assert(woken[w] == s0.threads@[i].id);
                    assert(woken.contains(s0.threads@[i].id));
                } else {
                    if woken.contains(s0.threads@[i].id) {
                        let w = choose|w: int|
                            0 <= w < woken.len() && woken[w] == s0.threads@[i].id;
                        assert(taken[w].thread == s0.threads@[i].id);
                    }
                }
            }
        }
    }

    /// Record the bookkeeping half of a context switch: the outgoing
    /// thread's live stack pointer is saved into its control block, and the
    /// incoming thread's saved stack pointer is taken out — its context is
    /// about to become the live one. Returns the stack pointer to load.
    pub fn record_switch(
        &mut self,
        previous: ThreadId,
        next: ThreadId,
        previous_stack_pointer: u64,
    ) -> (next_stack_pointer: u64)
        requires
            old(self).wf(),
            old(self).valid_id(previous),
            old(self).valid_id(next),
            previous != next,
            old(self).thread_of(previous).stack_pointer is None,
            old(self).thread_of(next).stack_pointer is Some,
        ensures
            final(self).wf(),
            Some(next_stack_pointer) == old(self).thread_of(next).stack_pointer,
            final(self).model() == (SchedulerModel {
                threads: old(self).threads@.update(
                    previous.0 as int,
                    (Thread {
                        stack_pointer: Some(previous_stack_pointer),
                        ..old(self).thread_of(previous)
                    }),
                ).update(
                    next.0 as int,
                    (Thread { stack_pointer: None, ..old(self).thread_of(next) }),
                ),
                ..old(self).model()
            }),
    {
        proof {
            assert(old(self).threads@[previous.0 as int].id.0 == previous.0);
            assert(old(self).threads@[next.0 as int].id.0 == next.0);
        }
        self.threads[previous.as_usize()].stack_pointer = Some(previous_stack_pointer);
        let ghost mid = *self;
        let next_stack_pointer = self.threads[next.as_usize()].stack_pointer.unwrap();
        self.threads[next.as_usize()].stack_pointer = None;
        proof {
            let a = *old(self);
            let b = *self;
            lemma_sum_times_update(a.threads@, previous.0 as int, mid.threads@[previous.0 as int]);
            lemma_sum_times_update(mid.threads@, next.0 as int, b.threads@[next.0 as int]);
            assert(b.is_live_slot(next.0 as int)) by {
                let l = choose|l: int| 0 <= l < a.threads@.len() && #[trigger] a.is_live_slot(l);
                assert(a.threads@[previous.0 as int].stack_pointer is None);
                assert(l == previous.0);
            }
        }
        next_stack_pointer
    }

    /// One scheduling pass at time `now` (the current reading of the
    /// monotonic clock): attribute elapsed time to the current thread, wake
    /// every sleeping thread whose deadline has passed, and pick the next
    /// thread round-robin, falling back to the idle thread.
    ///
    /// Returns `Some((previous, next))` when the caller must perform a
    /// context switch, and `None` when no switch is warranted. The caller is
    /// expected to run this with interrupts masked and, on `Some`, to hand
    /// the pair to the raw switch and its `record_switch` bookkeeping.
    pub fn schedule(&mut self, now: u64) -> (r: Option<(ThreadId, ThreadId)>)
        requires
            old(self).wf(),
            now >= old(self).last_accounting_update,
        ensures
            final(self).wf(),
            r == old(self).decision(now),
            r matches Some(pair) ==> pair.0 != pair.1 && pair.0 == old(self).current_thread_id
                && final(self).valid_id(pair.0) && final(self).valid_id(pair.1),
            r matches Some(pair) ==> (old(self).thread_of(
                old(self).current_thread_id,
            ).stack_pointer is None ==> final(self).thread_of(pair.0).stack_pointer is None
                && final(self).thread_of(pair.1).stack_pointer is Some),
            final(self).model() == old(self).model().after_schedule(now),
            !old(self).active ==> final(self).model() == old(self).model(),
            old(self).active ==> {
                let s0 = *old(self);
                let cur = s0.current_thread_id.0 as int;
                &&& final(self).threads@.len() == s0.threads@.len()
                &&& forall|i: int|
                    0 <= i < s0.threads@.len() ==> same_identity(
                        #[trigger] final(self).threads@[i],
                        s0.threads@[i],
                    )
                &&& forall|i: int|
                    0 <= i < s0.threads@.len() ==> (#[trigger] final(self).threads@[i].state)
                        == s0.state_after_schedule(now, i)
                &&& forall|i: int|
                    0 <= i < s0.threads@.len() && i != cur ==> (#[trigger] final(self).threads@[i].time) == s0.threads@[i].time
                &&& final(self).threads@[cur].time == s0.threads@[cur].time + (now
                    - s0.last_accounting_update)
                &&& final(self).paused_threads@ == s0.queue_after_schedule(now)
                &&& final(self).sleeping_threads@ == s0.sleeping_threads@.skip(
                    due_count(s0.sleeping_threads@, now),
                )
                &&& final(self).current_thread_id == s0.current_after_schedule(now)
                &&& final(self).idle_thread_id == s0.idle_thread_id
                &&& final(self).active
                &&& final(self).last_accounting_update == now
                &&& sum_times(final(self).threads@) == sum_times(s0.threads@) + (now
                    - s0.last_accounting_update)
            },
    {
        let ghost s0 = *old(self);
        if !self.active() {
            return None;
        }
        self.update_time_used(now);
        let ghost s1 = *self;
        self.wake_due_threads(now);
        let ghost s2 = *self;
        proof {
            lemma_time_bounded_by_sum(s0.threads@, s0.current_thread_id.0 as int);
            assert(s1.sleeping_threads@ == s0.sleeping_threads@);
            assert(s1.wake_queue(now) == s0.wake_queue(now));
            assert forall|i: int|
                0 <= i < s0.threads@.len() implies s1.state_after_wake(now, i)
                == s0.state_after_wake(now, i) && s1.threads@[i].id == s0.threads@[i].id by {
                assert(s1.threads@ == s0.threads@.update(
                    s0.current_thread_id.0 as int,
                    s1.threads@[s0.current_thread_id.0 as int],
                ));
            }
            assert(s2.paused_threads@ == s0.wake_queue(now));
            assert forall|i: int|
                0 <= i < s0.threads@.len() implies (#[trigger] s2.threads@[i].state)
                == s0.state_after_wake(now, i) by {
                assert(s2.threads@[i].state == s1.state_after_wake(now, i));
            }
            assert(s2.current_thread_id == s0.current_thread_id);
            assert(s2.idle_thread_id == s0.idle_thread_id);
        }
        // Pick the next thread, round robin.
        let mut next_thread_id = self.next_thread();

        // With an empty queue, the current thread keeps running if it still
        // wants to — unless it is the idle thread, which yields to anyone.
        if next_thread_id.is_none() && !self.is_idle_thread_active() {
            let cur = self.current_thread_id.as_usize();
            if self.threads[cur].state == ThreadState::Running {
                next_thread_id = Some(self.current_thread_id);
            }
        }

        // With nothing else runnable, fall back to the idle thread.
        if next_thread_id.is_none() {
            next_thread_id = self.idle_thread_id;
        }
        proof {
            assert(next_thread_id == s0.picked(now));
            if s0.wake_queue(now).len() > 0 {
                assert(self.paused_threads@ == s0.wake_queue(now).drop_first());
            } else {
                assert(self.paused_threads@ =~= s0.wake_queue(now));
            }
        }

        match next_thread_id {
            Some(next_id) => {
                let ghost s3 = *self;
                let previous_id = self.current_thread_id;
                self.current_thread_id = next_id;
                proof {
                    assert(s3.valid_id(next_id)) by {
                        if s0.wake_queue(now).len() > 0 {
                            assert(s2.paused_threads@[0] == s0.wake_queue(now)[0]);
                            assert(s2.valid_id(s2.paused_threads@[0]));
                        }
                    }
                    assert(s3.threads@[next_id.0 as int].id.0 == next_id.0 as int);
                    assert(s3.threads@[previous_id.0 as int].id.0 == previous_id.0 as int);
                }
                if next_id.as_usize() == previous_id.as_usize() {
                    // The picked thread is already on the processor: no
                    // switch, it simply continues (or resumes, if the wake
                    // sweep had just readied it).
                    self.threads[next_id.as_usize()].state = ThreadState::Running;
                    proof {
                        assert(next_id == previous_id);
                        let b = *self;
                        let ghost a = (Scheduler { current_thread_id: next_id, ..s3 });
                        assert(a.wf()) by {
                            lemma_live_wf_same(s3, a);
                        }
                        lemma_pick_not_queued_or_sleeping(s0, s2, s3, now, next_id);
                        lemma_sum_times_update(
                            a.threads@,
                            next_id.0 as int,
                            b.threads@[next_id.0 as int],
                        );
                        lemma_set_running_wf(a, b, next_id);
                        assert forall|i: int|
                            0 <= i < s0.threads@.len() implies (#[trigger] b.threads@[i].state)
                            == s0.state_after_schedule(now, i) by {
                            if i != next_id.0 as int {
                                assert(b.threads@[i] == s3.threads@[i]);
                            }
                        }
                        assert(b.paused_threads@ =~= s0.queue_after_schedule(now));
                        assert forall|i: int|
                            0 <= i < s3.threads@.len() implies same_identity(
                            #[trigger] b.threads@[i],
                            s3.threads@[i],
                        ) && b.threads@[i].time == s3.threads@[i].time by {
                            if i != next_id.0 as int {
                                assert(b.threads@[i] == s3.threads@[i]);
                            }
                        }
                        lemma_schedule_bookkeeping(s0, s1, s2, s3, b, now);
                        lemma_model_transition(s0, b, now);
                    }
                    None
                } else {
                    // Mark the outgoing thread ready again and requeue it —
                    // if it still wanted to run, and never for the idle
                    // thread.
                    let still_running = self.threads[previous_id.as_usize()].state
                        == ThreadState::Running;
                    if still_running {
                        self.threads[previous_id.as_usize()].state = ThreadState::ReadyToRun;
                        let requeue = match self.idle_thread_id {
                            Some(idle_id) => idle_id.as_usize() != previous_id.as_usize(),
                            None => true,
                        };
                        if requeue {
                            self.paused_threads.push_back(previous_id);
                        }
                    }
                    let ghost before = *self;
                    self.threads[next_id.as_usize()].state = ThreadState::Running;
                    proof {
                        let b = *self;
                        // The state just before the incoming thread is
                        // marked running satisfies the invariant: nothing is
                        // running at all at that moment.
                        assert(before.wf()) by {
                            lemma_live_wf_same(s3, before);
                            if still_running {
                                lemma_sum_times_update(
                                    s3.threads@,
                                    previous_id.0 as int,
                                    before.threads@[previous_id.0 as int],
                                );
                                assert forall|i: int|
                                    0 <= i < before.paused_threads@.len() implies before.valid_id(
                                    #[trigger] before.paused_threads@[i],
                                ) && before.state_of(before.paused_threads@[i])
                                    == ThreadState::ReadyToRun && !before.is_idle(
                                    before.paused_threads@[i],
                                ) by {
                                    if i < s3.paused_threads@.len() {
                                        assert(s3.valid_id(s3.paused_threads@[i]));
                                        assert(s3.state_of(s3.paused_threads@[i])
                                            == ThreadState::ReadyToRun);
                                    } else {
                                        assert(before.paused_threads@[i] == previous_id);
                                    }
                                }
                                assert forall|i: int, j: int|
                                    0 <= i < j < before.paused_threads@.len() implies #[trigger] before.paused_threads@[i] != #[trigger] before.paused_threads@[j] by {
                                    if j < s3.paused_threads@.len() {
                                        assert(s3.paused_threads@[i] != s3.paused_threads@[j]);
                                    } else {
                                        assert(before.paused_threads@[j] == previous_id);
                                        assert(before.paused_threads@[i] == s3.paused_threads@[i]);
                                        assert(s3.state_of(s3.paused_threads@[i])
                                            == ThreadState::ReadyToRun);
                                        assert(s3.state_of(previous_id) == ThreadState::Running);
                                    }
                                }
                                assert forall|i: int|
                                    0 <= i < before.sleeping_threads@.len() implies before.valid_id(
                                    (#[trigger] before.sleeping_threads@[i]).thread,
                                ) && (before.state_of(before.sleeping_threads@[i].thread)
                                    matches ThreadState::Blocked(_)) && !before.is_idle(
                                    before.sleeping_threads@[i].thread,
                                ) by {
                                    assert(s3.valid_id(s3.sleeping_threads@[i].thread));
                                    assert((s3.state_of(s3.sleeping_threads@[i].thread)
                                        matches ThreadState::Blocked(_)));
                                }
                            }
                        }
                        lemma_pick_not_queued_or_sleeping(s0, s2, s3, now, next_id);
                        assert(!before.queued(next_id)) by {
                            if before.paused_threads@.contains(next_id) {
                                let w = choose|w: int|
                                    0 <= w < before.paused_threads@.len()
                                        && before.paused_threads@[w] == next_id;
                                if w < s3.paused_threads@.len() {
                                    assert(s3.paused_threads@.contains(next_id));
                                } else {
                                    assert(next_id == previous_id);
                                }
                            }
                        }
                        if still_running {
                            lemma_sum_times_update(
                                s3.threads@,
                                previous_id.0 as int,
                                before.threads@[previous_id.0 as int],
                            );
                        }
                        lemma_sum_times_update(
                            before.threads@,
                            next_id.0 as int,
                            b.threads@[next_id.0 as int],
                        );
                        lemma_set_running_wf(before, b, next_id);
                        // The bookkeeping matches the specified pass.
                        assert(previous_id == s0.current_thread_id);
                        assert(still_running == (s0.state_after_wake(now, previous_id.0 as int)
                            == ThreadState::Running));
                        assert forall|i: int|
                            0 <= i < s0.threads@.len() implies (#[trigger] b.threads@[i].state)
                            == s0.state_after_schedule(now, i) by {
                            if i != next_id.0 as int && i != previous_id.0 as int {
                                assert(b.threads@[i] == s3.threads@[i]);
                            }
                        }
                        assert(b.paused_threads@ =~= s0.queue_after_schedule(now));
                        assert forall|i: int|
                            0 <= i < s3.threads@.len() implies same_identity(
                            #[trigger] b.threads@[i],
                            s3.threads@[i],
                        ) && b.threads@[i].time == s3.threads@[i].time by {
                            if i != next_id.0 as int && i != previous_id.0 as int {
                                assert(b.threads@[i] == s3.threads@[i]);
                            }
                        }
                        lemma_schedule_bookkeeping(s0, s1, s2, s3, b, now);
                        lemma_model_transition(s0, b, now);
                        assert(s0.decision(now) == Some((previous_id, next_id)));
                        // The incoming thread has a saved stack pointer to
                        // take over, whenever the outgoing one was live.
                        if s0.thread_of(s0.current_thread_id).stack_pointer is None {
                            let l = choose|l: int|
                                0 <= l < s0.threads@.len() && #[trigger] s0.is_live_slot(l);
                            assert(l == s0.current_thread_id.0 as int);
                            assert(s0.threads@[next_id.0 as int].stack_pointer is Some);
                            assert(same_identity(
                                b.threads@[next_id.0 as int],
                                s0.threads@[next_id.0 as int],
                            ));
                            assert(same_identity(
                                b.threads@[previous_id.0 as int],
                                s0.threads@[previous_id.0 as int],
                            ));
                        }
                    }
                    Some((previous_id, next_id))
                }
            },
            None => {
                proof {
                    let b = *self;
                    assert(s0.picked(now) is None);
                    assert(s0.wake_queue(now).len() == 0);
                    assert(b.paused_threads@ =~= s0.queue_after_schedule(now));
                    assert forall|i: int|
                        0 <= i < s0.threads@.len() implies (#[trigger] b.threads@[i].state)
                        == s0.state_after_schedule(now, i) by {
                        assert(b.threads@[i].state == s0.state_after_wake(now, i));
                    }
                    assert forall|i: int|
                        0 <= i < s2.threads@.len() implies same_identity(
                        #[trigger] b.threads@[i],
                        s2.threads@[i],
                    ) && b.threads@[i].time == s2.threads@[i].time by {
                        assert(b.threads@[i] == s2.threads@[i]);
                    }
                    lemma_schedule_bookkeeping(s0, s1, s2, b, b, now);
                    lemma_model_transition(s0, b, now);
                }
                None
            },
        }
    }

    /// Remove and return the thread at the front of the ready queue.
    pub fn next_thread(&mut self) -> (next: Option<ThreadId>)
        requires
            old(self).wf(),
        ensures
            final(self).wf(),
            old(self).paused_threads@.len() == 0 ==> next is None && final(self).model() == old(self).model(),
            old(self).paused_threads@.len() > 0 ==> next == Some(old(self).paused_threads@[0])
                && final(self).model() == (SchedulerModel {
                queue: old(self).paused_threads@.drop_first(),
                ..old(self).model()
            }),
    {
        let next = self.paused_threads.pop_front();
        proof {
            lemma_live_wf_same(*old(self), *self);
            if old(self).paused_threads@.len() > 0 {
                assert(self.paused_threads@ =~= old(self).paused_threads@.drop_first());
            }
        }
        next
    }
}

/// The scheduler's state once the current thread has been blocked until
/// `deadline` and filed into the sleeping structure — the first half of a
/// voluntary sleep.
pub open spec fn blocked_on(s: Scheduler, deadline: Deadline) -> SchedulerModel {
    SchedulerModel {
        threads: s.threads@.update(
            s.current_thread_id.0 as int,
            (Thread {
                state: ThreadState::Blocked(BlockReason::Other),
                ..s.thread_of(s.current_thread_id)
            }),
        ),
        sleeping: sleep_insert(
            s.sleeping_threads@,
            (SleepEntry { deadline, thread: s.current_thread_id }),
        ),
        ..s.model()
    }
}

/// Put the current thread to sleep until `deadline` and immediately run a
/// scheduling pass at `now`, so the blocked thread cannot be left on the
/// processor by a forgetful caller: the two-step sleep protocol in one
/// call. Returns the pass's decision; on `Some` the caller must perform the
/// context switch, exactly as after `schedule`.
pub fn sleep(scheduler: &mut Scheduler, deadline: Deadline, now: u64) -> (r: Option<
    (ThreadId, ThreadId),
>)
    requires
        old(scheduler).wf(),
        old(scheduler).state_of(old(scheduler).current_thread_id) == ThreadState::Running,
        !old(scheduler).is_idle(old(scheduler).current_thread_id),
        now >= old(scheduler).last_accounting_update,
    ensures
        final(scheduler).wf(),
        r == blocked_on(*old(scheduler), deadline).decision(now),
        final(scheduler).model() == blocked_on(*old(scheduler), deadline).after_schedule(now),
        r matches Some(pair) ==> pair.0 != pair.1 && pair.0 == old(scheduler).current_thread_id
            && final(scheduler).valid_id(pair.0) && final(scheduler).valid_id(pair.1),
        r matches Some(pair) ==> (old(scheduler).thread_of(
            old(scheduler).current_thread_id,
        ).stack_pointer is None ==> final(scheduler).thread_of(pair.0).stack_pointer is None
            && final(scheduler).thread_of(pair.1).stack_pointer is Some),
{
    let id = scheduler.current_thread_id();
    scheduler.sleep_thread(id, deadline);
    let ghost mid = *scheduler;
    let r = scheduler.schedule(now);
    proof {
        assert(mid.model() == blocked_on(*old(scheduler), deadline));
        assert(mid.thread_of(mid.current_thread_id).stack_pointer == old(scheduler).thread_of(
            old(scheduler).current_thread_id,
        ).stack_pointer);
    }
    r
}

/// How many leading entries of a (sorted) sleeping structure are due at
/// `now`.
pub open spec fn due_count(s: Seq<SleepEntry>, now: u64) -> int
    decreases s.len(),
{
    if s.len() == 0 {
        0
    } else if s[0].deadline.0 <= now {
        1 + due_count(s.drop_first(), now)
    } else {
        0
    }
}

/// The leading due entries are exactly the first `due_count` ones.
pub proof fn lemma_due_count_char(s: Seq<SleepEntry>, now: u64)
    ensures
        0 <= due_count(s, now) <= s.len(),
        forall|i: int| 0 <= i < due_count(s, now) ==> (#[trigger] s[i]).deadline.0 <= now,
        due_count(s, now) < s.len() ==> s[due_count(s, now)].deadline.0 > now,
    decreases s.len(),
{
    if s.len() > 0 && s[0].deadline.0 <= now {
        lemma_due_count_char(s.drop_first(), now);
        assert forall|i: int| 0 <= i < due_count(s, now) implies (#[trigger] s[i]).deadline.0
            <= now by {
            if i > 0 {
                assert(s.drop_first()[i - 1] == s[i]);
                assert(s.drop_first()[i - 1].deadline.0 <= now);
            }
        }
        if due_count(s, now) < s.len() {
            assert(s.drop_first()[due_count(s, now) - 1] == s[due_count(s, now)]);
        }
    }
}

/// Whether two control blocks agree on everything a scheduling pass leaves
/// alone: identity, saved stack pointer, address space, name and stack.
pub open spec fn same_identity(a: Thread, b: Thread) -> bool {
    &&& a.id == b.id
    &&& a.stack_pointer == b.stack_pointer
    &&& a.address_space == b.address_space
    &&& a.name == b.name
    &&& a.stack == b.stack
}

/// Whether some entry of a sleeping structure names the given thread.
pub open spec fn contains_thread(s: Seq<SleepEntry>, id: ThreadId) -> bool {
    exists|i: int| 0 <= i < s.len() && (#[trigger] s[i]).thread == id
}

/// What a freshly spawned thread's control block holds: ready to run, no
/// time used yet, and a stack laid out for a first entry into `entry`.
pub open spec fn fresh_thread(
    t: Thread,
    id: ThreadId,
    name: Seq<char>,
    entry: u64,
    stack_size: int,
    stack_base: u64,
    address_space: AddressSpaceHandle,
) -> bool {
    &&& t.id == id
    &&& t.state == ThreadState::ReadyToRun
    &&& t.name@ == name
    &&& t.address_space == address_space
    &&& t.time == 0
    &&& t.stack matches Some(stack) && stack.buffer@.len() == stack_size && stack.base == stack_base
        && stack.has_initial_layout(entry)
    &&& t.stack_pointer matches Some(sp) && sp == stack_base + 8 * (stack_size
        - INITIAL_FRAME_WORDS)
}

/// Where a new sleep entry files into a sorted sleeping structure: before
/// the first entry it precedes.
pub open spec fn sleep_insert(s: Seq<SleepEntry>, e: SleepEntry) -> Seq<SleepEntry>
    decreases s.len(),
{
    if s.len() == 0 {
        seq![e]
    } else if entry_lt(e, s[0]) {
        seq![e] + s
    } else {
        seq![s[0]] + sleep_insert(s.drop_first(), e)
    }
}

/// The comparison `entry_lt`, executably.
fn entry_lt_exec(a: SleepEntry, b: SleepEntry) -> (r: bool)
    ensures
        r == entry_lt(a, b),
{
    a.deadline.0 < b.deadline.0 || (a.deadline.0 == b.deadline.0 && a.thread.0 < b.thread.0)
}

/// A scheduler whose fields have moved exactly as one active scheduling
/// pass dictates sits at the model-level transition's result.
proof fn lemma_model_transition(s0: Scheduler, b: Scheduler, now: u64)
    requires
        s0.active,
        b.threads@.len() == s0.threads@.len(),
        forall|i: int|
            0 <= i < s0.threads@.len() ==> same_identity(
                #[trigger] b.threads@[i],
                s0.threads@[i],
            ),
        forall|i: int|
            0 <= i < s0.threads@.len() ==> (#[trigger] b.threads@[i].state)
                == s0.state_after_schedule(now, i),
        forall|i: int|
            0 <= i < s0.threads@.len() && i != s0.current_thread_id.0 as int ==> (
            #[trigger] b.threads@[i].time) == s0.threads@[i].time,
        b.threads@[s0.current_thread_id.0 as int].time == ((s0.threads@[s0.current_thread_id.0 as int].time
            + (now - s0.last_accounting_update)) as u64),
        b.paused_threads@ == s0.queue_after_schedule(now),
        b.sleeping_threads@ == s0.sleeping_threads@.skip(due_count(s0.sleeping_threads@, now)),
        b.current_thread_id == s0.current_after_schedule(now),
        b.idle_thread_id == s0.idle_thread_id,
        b.active,
        b.last_accounting_update == now,
    ensures
        b.model() == s0.model().after_schedule(now),
{
    let after = s0.model().after_schedule(now);
    assert forall|i: int| 0 <= i < s0.threads@.len() implies b.threads@[i] == after.threads[i] by {
        assert(same_identity(b.threads@[i], s0.threads@[i]));
        assert(after.threads[i] == (Thread {
            state: s0.model().state_after_schedule(now, i),
            time: if i == s0.model().current_thread_id.0 as int {
                (s0.model().threads[i].time + (now - s0.model().last_accounting_update)) as u64
            } else {
                s0.model().threads[i].time
            },
            ..s0.model().threads[i]
        }));
        assert(after.threads[i].id == b.threads@[i].id);
        assert(after.threads[i].stack_pointer == b.threads@[i].stack_pointer);
        assert(after.threads[i].address_space == b.threads@[i].address_space);
        assert(after.threads[i].name == b.threads@[i].name);
        assert(after.threads[i].stack == b.threads@[i].stack);
        assert(after.threads[i].state == b.threads@[i].state);
        assert(after.threads[i].time == b.threads@[i].time);
    }
    assert(b.threads@ =~= after.threads);
    assert(b.model() =~= after);
}

/// Chaining the three phases of a scheduling pass — accounting, wake sweep,
/// pick — preserves every thread's identity and attributes the elapsed time
/// to the thread that was current when the pass began.
proof fn lemma_schedule_bookkeeping(
    s0: Scheduler,
    s1: Scheduler,
    s2: Scheduler,
    s3: Scheduler,
    b: Scheduler,
    now: u64,
)
    requires
        s0.wf(),
        now >= s0.last_accounting_update,
        s1.threads@ == s0.threads@.update(
            s0.current_thread_id.0 as int,
            (Thread {
                time: (s0.thread_of(s0.current_thread_id).time + (now
                    - s0.last_accounting_update)) as u64,
                ..s0.thread_of(s0.current_thread_id)
            }),
        ),
        sum_times(s1.threads@) == sum_times(s0.threads@) + (now - s0.last_accounting_update),
        s2.threads@.len() == s1.threads@.len(),
        forall|i: int|
            0 <= i < s1.threads@.len() ==> same_identity(#[trigger] s2.threads@[i], s1.threads@[i])
                && s2.threads@[i].time == s1.threads@[i].time,
        sum_times(s2.threads@) == sum_times(s1.threads@),
        s3.threads@ == s2.threads@,
        b.threads@.len() == s3.threads@.len(),
        forall|i: int|
            0 <= i < s3.threads@.len() ==> same_identity(#[trigger] b.threads@[i], s3.threads@[i])
                && b.threads@[i].time == s3.threads@[i].time,
        sum_times(b.threads@) == sum_times(s3.threads@),
    ensures
        b.threads@.len() == s0.threads@.len(),
        forall|i: int|
            0 <= i < s0.threads@.len() ==> same_identity(#[trigger] b.threads@[i], s0.threads@[i]),
        forall|i: int|
            0 <= i < s0.threads@.len() && i != s0.current_thread_id.0 as int ==> (
            #[trigger] b.threads@[i].time) == s0.threads@[i].time,
        b.threads@[s0.current_thread_id.0 as int].time == s0.threads@[s0.current_thread_id.0 as int].time
            + (now - s0.last_accounting_update),
        sum_times(b.threads@) == sum_times(s0.threads@) + (now - s0.last_accounting_update),
{
    lemma_time_bounded_by_sum(s0.threads@, s0.current_thread_id.0 as int);
    let cur = s0.current_thread_id.0 as int;
    assert forall|i: int| 0 <= i < s0.threads@.len() implies same_identity(
        #[trigger] b.threads@[i],
        s0.threads@[i],
    ) && b.threads@[i].time == s1.threads@[i].time by {
        if i != cur {
            assert(s1.threads@[i] == s0.threads@[i]);
        }
        assert(same_identity(s2.threads@[i], s1.threads@[i]));
        assert(same_identity(b.threads@[i], s3.threads@[i]));
    }
}

/// The thread a scheduling pass picks is, by the time it is picked, neither
/// waiting in the ready queue nor sleeping: it came off the queue's front,
/// or it is the still-running current thread, or it is the idle thread.
proof fn lemma_pick_not_queued_or_sleeping(
    s0: Scheduler,
    s2: Scheduler,
    s3: Scheduler,
    now: u64,
    next: ThreadId,
)
    requires
        s2.wf(),
        s3.wf(),
        s2.paused_threads@ == s0.wake_queue(now),
        s3.threads@ == s2.threads@,
        s3.idle_thread_id == s2.idle_thread_id,
        s3.sleeping_threads@ == s2.sleeping_threads@,
        s3.current_thread_id == s2.current_thread_id,
        s2.paused_threads@.len() > 0 ==> next == s2.paused_threads@[0] && s3.paused_threads@
            == s2.paused_threads@.drop_first(),
        s2.paused_threads@.len() == 0 ==> s3.paused_threads@ == s2.paused_threads@ && ((next
            == s2.current_thread_id && s2.state_of(next) == ThreadState::Running)
            || s2.idle_thread_id == Some(next)),
    ensures
        s3.valid_id(next),
        !s3.queued(next),
        !contains_thread(s3.sleeping_threads@, next),
{
    if s2.paused_threads@.len() > 0 {
        assert(s2.valid_id(s2.paused_threads@[0]));
        assert(s2.state_of(next) == ThreadState::ReadyToRun);
        assert(!s3.queued(next)) by {
            if s3.paused_threads@.contains(next) {
                let w = choose|w: int|
                    0 <= w < s3.paused_threads@.len() && s3.paused_threads@[w] == next;
                assert(s2.paused_threads@[w + 1] == next);
                assert(s2.paused_threads@[0] != s2.paused_threads@[w + 1]);
            }
        }
    } else {
        assert(s3.paused_threads@.len() == 0);
        if next == s2.current_thread_id && s2.state_of(next) == ThreadState::Running {
        } else {
            assert(s2.idle_thread_id == Some(next));
            assert(s2.valid_id(next));
        }
    }
    assert(!contains_thread(s3.sleeping_threads@, next)) by {
        if contains_thread(s3.sleeping_threads@, next) {
            let w = choose|w: int|
                0 <= w < s3.sleeping_threads@.len() && (#[trigger] s3.sleeping_threads@[w]).thread
                    == next;
            assert((s2.state_of(s2.sleeping_threads@[w].thread) matches ThreadState::Blocked(_)));
            assert(!s2.is_idle(s2.sleeping_threads@[w].thread));
        }
    }
}

/// Marking the current thread `Running` preserves the scheduler invariant,
/// provided that thread is neither queued nor sleeping.
proof fn lemma_set_running_wf(a: Scheduler, b: Scheduler, next: ThreadId)
    requires
        a.wf(),
        a.valid_id(next),
        a.current_thread_id == next,
        !a.queued(next),
        !contains_thread(a.sleeping_threads@, next),
        b.threads@ == a.threads@.update(
            next.0 as int,
            (Thread { state: ThreadState::Running, ..a.threads@[next.0 as int] }),
        ),
        b.paused_threads@ == a.paused_threads@,
        b.sleeping_threads@ == a.sleeping_threads@,
        b.idle_thread_id == a.idle_thread_id,
        b.current_thread_id == next,
        b.last_accounting_update == a.last_accounting_update,
    ensures
        b.wf(),
{
    lemma_sum_times_update(a.threads@, next.0 as int, b.threads@[next.0 as int]);
    lemma_live_wf_same(a, b);
    assert forall|i: int|
        0 <= i < b.paused_threads@.len() implies b.valid_id(#[trigger] b.paused_threads@[i])
        && b.state_of(b.paused_threads@[i]) == ThreadState::ReadyToRun && !b.is_idle(
        b.paused_threads@[i],
    ) by {
        assert(a.valid_id(a.paused_threads@[i]));
        assert(a.state_of(a.paused_threads@[i]) == ThreadState::ReadyToRun);
        assert(a.paused_threads@[i] != next) by {
            if a.paused_threads@[i] == next {
                assert(a.paused_threads@.contains(next));
            }
        }
        assert(a.paused_threads@[i].0 != next.0) by {
            assert(a.threads@[a.paused_threads@[i].0 as int].id.0 == a.paused_threads@[i].0);
        }
    }
    assert forall|i: int|
        0 <= i < b.sleeping_threads@.len() implies b.valid_id(
        (#[trigger] b.sleeping_threads@[i]).thread,
    ) && (b.state_of(b.sleeping_threads@[i].thread) matches ThreadState::Blocked(_)) && !b.is_idle(
        b.sleeping_threads@[i].thread,
    ) by {
        assert(a.valid_id(a.sleeping_threads@[i].thread));
        assert((a.state_of(a.sleeping_threads@[i].thread) matches ThreadState::Blocked(_)));
        assert(a.sleeping_threads@[i].thread != next);
        assert(a.sleeping_threads@[i].thread.0 != next.0) by {
            assert(a.threads@[a.sleeping_threads@[i].thread.0 as int].id.0
                == a.sleeping_threads@[i].thread.0);
        }
    }
}

/// Two schedulers whose tables record the same stack pointers agree on
/// which thread's context is live.
proof fn lemma_live_wf_same(a: Scheduler, b: Scheduler)
    requires
        a.live_wf(),
        b.threads@.len() == a.threads@.len(),
        forall|i: int|
            0 <= i < a.threads@.len() ==> (#[trigger] b.threads@[i].stack_pointer)
                == a.threads@[i].stack_pointer,
    ensures
        b.live_wf(),
{
    let l = choose|l: int| 0 <= l < a.threads@.len() && #[trigger] a.is_live_slot(l);
    assert(b.is_live_slot(l));
}

/// Appending a thread adds its time to the total.
proof fn lemma_sum_times_push(threads: Seq<Thread>, t: Thread)
    ensures
        sum_times(threads.push(t)) == sum_times(threads) + t.time,
    decreases threads.len(),
{
    if threads.len() == 0 {
        assert(threads.push(t).drop_first() =~= Seq::<Thread>::empty());
        assert(sum_times(threads.push(t).drop_first()) == 0);
        assert(threads.push(t)[0] == t);
    } else {
        lemma_sum_times_push(threads.drop_first(), t);
        assert(threads.push(t).drop_first() =~= threads.drop_first().push(t));
        assert(threads.push(t)[0] == threads[0]);
    }
}

/// Replacing one thread changes the total time by the difference.
proof fn lemma_sum_times_update(threads: Seq<Thread>, i: int, t: Thread)
    requires
        0 <= i < threads.len(),
    ensures
        sum_times(threads.update(i, t)) == sum_times(threads) - threads[i].time + t.time,
    decreases threads.len(),
{
    if i == 0 {
        assert(threads.update(0, t).drop_first() =~= threads.drop_first());
        assert(threads.update(0, t)[0] == t);
    } else {
        lemma_sum_times_update(threads.drop_first(), i - 1, t);
        assert(threads.update(i, t).drop_first() =~= threads.drop_first().update(i - 1, t));
        assert(threads.update(i, t)[0] == threads[0]);
    }
}

/// Accumulated times are never negative.
proof fn lemma_sum_times_nonneg(threads: Seq<Thread>)
    ensures
        sum_times(threads) >= 0,
    decreases threads.len(),
{
    if threads.len() > 0 {
        lemma_sum_times_nonneg(threads.drop_first());
    }
}

/// Each thread's time is at most the total.
proof fn lemma_time_bounded_by_sum(threads: Seq<Thread>, i: int)
    requires
        0 <= i < threads.len(),
    ensures
        threads[i].time <= sum_times(threads),
    decreases threads.len(),
{
    if i == 0 {
        lemma_sum_times_nonneg(threads.drop_first());
    } else {
        lemma_time_bounded_by_sum(threads.drop_first(), i - 1);
        assert(threads.drop_first()[i - 1] == threads[i]);
    }
}

/// `sleep_insert` files the entry exactly at the first position whose entry
/// it precedes.
proof fn lemma_sleep_insert_at(s: Seq<SleepEntry>, e: SleepEntry, idx: int)
    requires
        0 <= idx <= s.len(),
        forall|k: int| 0 <= k < idx ==> !entry_lt(e, #[trigger] s[k]),
        idx < s.len() ==> entry_lt(e, s[idx]),
    ensures
        sleep_insert(s, e) == s.insert(idx, e),
    decreases idx,
{
    if idx == 0 {
        if s.len() == 0 {
            assert(sleep_insert(s, e) =~= s.insert(0, e));
        } else {
            assert(sleep_insert(s, e) == seq![e] + s);
            assert(seq![e] + s =~= s.insert(0, e));
        }
    } else {
        assert(!entry_lt(e, s[0]));
        lemma_sleep_insert_at(s.drop_first(), e, idx - 1);
        assert(forall|k: int|
            0 <= k < idx - 1 ==> !entry_lt(e, #[trigger] s.drop_first()[k]) && s.drop_first()[k]
                == s[k + 1]);
        assert(seq![s[0]] + s.drop_first().insert(idx - 1, e) =~= s.insert(idx, e));
    }
}

/// Inserting a new thread's entry at its sorted position keeps the sleeping
/// structure sorted and free of duplicates.
proof fn lemma_sleep_insert_wf(s: Seq<SleepEntry>, e: SleepEntry, idx: int)
    requires
        forall|i: int, j: int| 0 <= i < j < s.len() ==> entry_lt(#[trigger] s[i], #[trigger] s[j]),
        forall|i: int, j: int|
            0 <= i < s.len() && 0 <= j < s.len() && i != j ==> (#[trigger] s[i]).thread != (
            #[trigger] s[j]).thread,
        !contains_thread(s, e.thread),
        0 <= idx <= s.len(),
        forall|k: int| 0 <= k < idx ==> !entry_lt(e, #[trigger] s[k]),
        idx < s.len() ==> entry_lt(e, s[idx]),
    ensures
        sleep_insert(s, e) == s.insert(idx, e),
        forall|i: int, j: int|
            0 <= i < j < s.insert(idx, e).len() ==> entry_lt(
                #[trigger] s.insert(idx, e)[i],
                #[trigger] s.insert(idx, e)[j],
            ),
        forall|i: int, j: int|
            0 <= i < s.insert(idx, e).len() && 0 <= j < s.insert(idx, e).len() && i != j ==> (
            #[trigger] s.insert(idx, e)[i]).thread != (#[trigger] s.insert(idx, e)[j]).thread,
{
    lemma_sleep_insert_at(s, e, idx);
    s.insert_ensures(idx, e);
    let t = s.insert(idx, e);
    assert forall|k: int| 0 <= k < s.len() implies (#[trigger] s[k]).thread != e.thread by {
        assert(!(exists|i: int| 0 <= i < s.len() && (#[trigger] s[i]).thread == e.thread));
    }
    assert forall|i: int, j: int| 0 <= i < j < t.len() implies entry_lt(
        #[trigger] t[i],
        #[trigger] t[j],
    ) by {
        if i < idx && j == idx {
            assert(t[i] == s[i]);
            assert(!entry_lt(e, s[i]));
            assert(s[i].thread != e.thread);
        } else if i < idx && j > idx {
            assert(t[i] == s[i] && t[j] == s[j - 1]);
        } else if i == idx {
            assert(t[j] == s[j - 1]);
            assert(entry_lt(e, s[idx]));
            if j - 1 > idx {
                assert(entry_lt(s[idx], s[j - 1]));
            }
        } else if i > idx {
            assert(t[i] == s[i - 1] && t[j] == s[j - 1]);
        }
    }
    assert forall|i: int, j: int|
        0 <= i < t.len() && 0 <= j < t.len() && i != j implies (#[trigger] t[i]).thread != (
    #[trigger] t[j]).thread by {
        let si: int = if i < idx {
            i
        } else {
            i - 1
        };
        let sj: int = if j < idx {
            j
        } else {
            j - 1
        };
        if i == idx {
            assert(t[j] == s[sj]);
        } else if j == idx {
            assert(t[i] == s[si]);
        } else {
            assert(t[i] == s[si] && t[j] == s[sj]);
        }
    }
}

/// The round-robin order of a scheduler: the current thread followed by the
/// ready queue.
pub open spec fn rr_order(s: Scheduler) -> Seq<ThreadId> {
    round_robin_order(s.model())
}

/// One round-robin step: the front moves to the back.
pub open spec fn rotate(r: Seq<ThreadId>) -> Seq<ThreadId>
    recommends
        r.len() > 0,
{
    r.drop_first().push(r[0])
}

/// `k` round-robin steps.
pub open spec fn rotate_n(r: Seq<ThreadId>, k: int) -> Seq<ThreadId>
    decreases k,
{
    if k <= 0 {
        r
    } else {
        rotate(rotate_n(r, k - 1))
    }
}

/// Law (round-robin fairness, one pass): in a clean round-robin state —
/// scheduler active, no sleeper, a non-empty ready queue, and a running,
/// non-idle current thread — a scheduling pass switches to the front of the
/// queue and moves the outgoing thread to the back: the round-robin order
/// rotates by exactly one position.
pub proof fn lemma_round_robin_rotation(s: Scheduler, now: u64)
    requires
        s.wf(),
        s.active,
        s.sleeping_threads@.len() == 0,
        s.paused_threads@.len() > 0,
        s.state_of(s.current_thread_id) == ThreadState::Running,
        !s.is_idle(s.current_thread_id),
    ensures
        s.decision(now) == Some((s.current_thread_id, s.paused_threads@[0])),
        seq![s.current_after_schedule(now)] + s.queue_after_schedule(now) == rotate(rr_order(s)),
{
    let r = rr_order(s);
    assert(s.woken(now) =~= Seq::<ThreadId>::empty());
    assert(s.wake_queue(now) =~= s.paused_threads@);
    let next = s.paused_threads@[0];
    assert(s.picked(now) == Some(next));
    assert(next != s.current_thread_id) by {
        assert(s.state_of(s.paused_threads@[0]) == ThreadState::ReadyToRun);
    }
    assert(s.state_after_wake(now, s.current_thread_id.0 as int) == ThreadState::Running);
    assert(seq![s.current_after_schedule(now)] + s.queue_after_schedule(now) =~= rotate(r));
}

/// Law (round-robin fairness, one cycle): `k` rotations of a round-robin
/// order bring its `k`-th thread to the processor, and a full cycle of as
/// many passes as there are threads schedules each of them exactly once and
/// restores the original order.
pub proof fn lemma_round_robin_fairness(r: Seq<ThreadId>, k: int)
    requires
        r.len() > 0,
        0 <= k <= r.len(),
    ensures
        rotate_n(r, k) == r.skip(k) + r.take(k),
        k < r.len() ==> rotate_n(r, k)[0] == r[k],
        k == r.len() ==> rotate_n(r, k) == r,
    decreases k,
{
    if k == 0 {
        assert(rotate_n(r, 0) =~= r.skip(0) + r.take(0));
    } else {
        lemma_round_robin_fairness(r, k - 1);
        let prev = r.skip(k - 1) + r.take(k - 1);
        assert(prev[0] == r[k - 1]);
        assert(rotate(prev) =~= r.skip(k) + r.take(k));
    }
    if k == r.len() {
        assert(r.skip(k) + r.take(k) =~= r);
    }
}

/// Law (idle fallback): when nothing is ready after the wake sweep and the
/// current thread does not stay on the processor, a scheduling pass picks
/// the registered idle thread; and the idle thread never sits in the ready
/// queue.
pub proof fn lemma_idle_fallback(s: Scheduler, now: u64, idle: ThreadId)
    requires
        s.wf(),
        s.active,
        s.idle_thread_id == Some(idle),
        s.wake_queue(now).len() == 0,
        s.is_idle(s.current_thread_id) || s.state_after_wake(now, s.current_thread_id.0 as int)
            != ThreadState::Running,
    ensures
        s.picked(now) == Some(idle),
        !s.queued(idle),
        !s.queue_after_schedule(now).contains(idle),
{
    assert(!s.queued(idle)) by {
        if s.paused_threads@.contains(idle) {
            let w = choose|w: int|
                0 <= w < s.paused_threads@.len() && s.paused_threads@[w] == idle;
            assert(!s.is_idle(s.paused_threads@[w]));
        }
    }
    let q = s.queue_after_schedule(now);
    assert(!q.contains(idle)) by {
        if idle != s.current_thread_id && s.state_after_wake(now, s.current_thread_id.0 as int)
            == ThreadState::Running && !s.is_idle(s.current_thread_id) {
            assert(false);
        }
        assert(q.len() == 0);
    }
}

/// Law (no-op switch avoidance): when the picked thread is already the
/// current one, a scheduling pass asks for no context switch.
pub proof fn lemma_no_op_switch_avoided(s: Scheduler, now: u64)
    requires
        s.wf(),
    ensures
        s.picked(now) == Some(s.current_thread_id) ==> s.decision(now) is None,
{
}

/// Law (sleep/wake correctness): a sleeping thread whose deadline is still
/// in the future is never picked by a scheduling pass; one whose deadline
/// has passed is woken by it — marked ready to run and appended to the
/// ready queue — within that one pass.
pub proof fn lemma_sleep_wake(s: Scheduler, now: u64, i: int)
    requires
        s.wf(),
        s.active,
        0 <= i < s.sleeping_threads@.len(),
    ensures
        s.sleeping_threads@[i].deadline.0 > now ==> s.picked(now) != Some(
            s.sleeping_threads@[i].thread,
        ),
        s.sleeping_threads@[i].deadline.0 <= now ==> s.woken(now).contains(
            s.sleeping_threads@[i].thread,
        ) && s.wake_queue(now).contains(s.sleeping_threads@[i].thread) && s.state_after_wake(
            now,
            s.sleeping_threads@[i].thread.0 as int,
        ) == ThreadState::ReadyToRun,
{
    let e = s.sleeping_threads@[i];
    let due = due_count(s.sleeping_threads@, now);
    lemma_due_count_char(s.sleeping_threads@, now);
    if e.deadline.0 <= now {
        assert(due > i) by {
            if due <= i {
                assert(s.sleeping_threads@[due].deadline.0 > now);
                if due < i {
                    assert(entry_lt(s.sleeping_threads@[due], s.sleeping_threads@[i]));
                }
            }
        }
        let taken = s.sleeping_threads@.take(due);
        assert(s.woken(now)[i] == e.thread);
        assert(s.woken(now).contains(e.thread));
        assert(s.wake_queue(now)[s.paused_threads@.len() + i] == e.thread);
        assert(s.threads@[e.thread.0 as int].id == e.thread) by {
            assert(s.threads@[e.thread.0 as int].id.0 == e.thread.0);
        }
    } else {
        assert(i >= due) by {
            if i < due {
                assert(s.sleeping_threads@[i].deadline.0 <= now);
            }
        }
        match s.picked(now) {
            Some(n) => {
                if n == e.thread {
                    let q = s.wake_queue(now);
                    if q.len() > 0 {
                        assert(n == q[0]);
                        if 0 < s.paused_threads@.len() {
                            assert(s.state_of(s.paused_threads@[0]) == ThreadState::ReadyToRun);
                            assert((s.state_of(e.thread) matches ThreadState::Blocked(_)));
                        } else {
                            let w = 0 - s.paused_threads@.len();
                            assert(s.woken(now)[w] == n);
                            assert(s.sleeping_threads@.take(due_count(s.sleeping_threads@, now))[w].thread == n);
                            assert(s.sleeping_threads@[w].thread == n);
                            assert(w != i);
                            assert(s.sleeping_threads@[w].thread != s.sleeping_threads@[i].thread);
                        }
                    } else if n == s.current_thread_id {
                        assert(s.state_after_wake(now, n.0 as int) == ThreadState::Running);
                        assert(s.threads@[e.thread.0 as int].id.0 == e.thread.0);
                        assert((s.state_of(e.thread) matches ThreadState::Blocked(_)));
                        assert(s.woken(now).len() == 0);
                    } else {
                        assert(s.idle_thread_id == Some(n));
                        assert(!s.is_idle(e.thread));
                    }
                }
            },
            None => {},
        }
    }
}

/// How many threads of a table are in the `Running` state.
pub open spec fn running_count(threads: Seq<Thread>) -> int
    decreases threads.len(),
{
    if threads.len() == 0 {
        0
    } else {
        (if threads[0].state == ThreadState::Running {
            1int
        } else {
            0int
        }) + running_count(threads.drop_first())
    }
}

/// No thread running: the count is zero.
proof fn lemma_running_count_zero(threads: Seq<Thread>)
    requires
        forall|i: int|
            0 <= i < threads.len() ==> (#[trigger] threads[i].state) != ThreadState::Running,
    ensures
        running_count(threads) == 0,
    decreases threads.len(),
{
    if threads.len() > 0 {
        assert(forall|i: int|
            0 <= i < threads.drop_first().len() ==> (#[trigger] threads.drop_first()[i])
                == threads[i + 1]);
        lemma_running_count_zero(threads.drop_first());
    }
}

/// Exactly the thread at index `j` running: the count is one.
proof fn lemma_running_count_one(threads: Seq<Thread>, j: int)
    requires
        0 <= j < threads.len(),
        threads[j].state == ThreadState::Running,
        forall|i: int|
            0 <= i < threads.len() && i != j ==> (#[trigger] threads[i].state)
                != ThreadState::Running,
    ensures
        running_count(threads) == 1,
    decreases threads.len(),
{
    assert(forall|i: int|
        0 <= i < threads.drop_first().len() ==> (#[trigger] threads.drop_first()[i]) == threads[i
            + 1]);
    if j == 0 {
        lemma_running_count_zero(threads.drop_first());
    } else {
        lemma_running_count_one(threads.drop_first(), j - 1);
    }
}

/// Law (single `Running` invariant): immediately after a scheduling pass of
/// an active scheduler, exactly one thread is `Running` whenever a thread
/// was picked — and none at all when nothing was runnable, which can only
/// happen before the idle thread is registered.
pub proof fn lemma_single_running(s: Scheduler, b: Scheduler, now: u64)
    requires
        s.wf(),
        s.active,
        b.threads@.len() == s.threads@.len(),
        forall|i: int|
            0 <= i < s.threads@.len() ==> (#[trigger] b.threads@[i].state)
                == s.state_after_schedule(now, i),
    ensures
        s.picked(now) is Some ==> running_count(b.threads@) == 1,
        s.picked(now) is None ==> running_count(b.threads@) == 0 && s.idle_thread_id is None,
{
    match s.picked(now) {
        Some(n) => {
            assert(s.valid_id(n)) by {
                let q = s.wake_queue(now);
                if q.len() > 0 {
                    if 0 < s.paused_threads@.len() {
                        assert(s.valid_id(s.paused_threads@[0]));
                    } else {
                        let due = due_count(s.sleeping_threads@, now);
                        lemma_due_count_char(s.sleeping_threads@, now);
                        assert(s.woken(now)[0] == s.sleeping_threads@.take(due)[0].thread);
                        assert(s.valid_id(s.sleeping_threads@[0].thread));
                    }
                }
            }
            assert(b.threads@[n.0 as int].state == ThreadState::Running);
            assert forall|i: int|
                0 <= i < b.threads@.len() && i != n.0 as int implies (#[trigger] b.threads@[i].state) != ThreadState::Running by {
                if s.state_after_wake(now, i) == ThreadState::Running {
                    assert(s.threads@[i].state == ThreadState::Running);
                    assert(i == s.current_thread_id.0 as int);
                }
            }
            lemma_running_count_one(b.threads@, n.0 as int);
        },
        None => {
            assert forall|i: int|
                0 <= i < b.threads@.len() implies (#[trigger] b.threads@[i].state)
                != ThreadState::Running by {
                if s.state_after_wake(now, i) == ThreadState::Running {
                    assert(s.threads@[i].state == ThreadState::Running);
                    assert(i == s.current_thread_id.0 as int);
                }
            }
            lemma_running_count_zero(b.threads@);
        },
    }
}

/// The model after a whole run of scheduling passes, one per clock reading.
pub open spec fn schedule_chain(m: SchedulerModel, nows: Seq<u64>) -> SchedulerModel
    decreases nows.len(),
{
    if nows.len() == 0 {
        m
    } else {
        schedule_chain(m.after_schedule(nows[0]), nows.drop_first())
    }
}

/// What time accounting needs of a model: every recorded identity names a
/// table slot, and the total accumulated time has not outrun the clock.
pub open spec fn accounting_ok(m: SchedulerModel) -> bool {
    &&& m.current_thread_id.0 < m.threads.len()
    &&& (match m.idle_thread_id {
        Some(id) => id.0 < m.threads.len(),
        None => true,
    })
    &&& forall|i: int| 0 <= i < m.queue.len() ==> (#[trigger] m.queue[i]).0 < m.threads.len()
    &&& forall|i: int|
        0 <= i < m.sleeping.len() ==> (#[trigger] m.sleeping[i]).thread.0 < m.threads.len()
    &&& sum_times(m.threads) <= m.last_accounting_update
}

/// Tables whose threads hold the same times have the same total.
proof fn lemma_sum_times_pointwise(a: Seq<Thread>, b: Seq<Thread>)
    requires
        a.len() == b.len(),
        forall|i: int| 0 <= i < a.len() ==> (#[trigger] b[i]).time == a[i].time,
    ensures
        sum_times(b) == sum_times(a),
    decreases a.len(),
{
    if a.len() > 0 {
        assert(forall|i: int|
            0 <= i < a.drop_first().len() ==> (#[trigger] b.drop_first()[i]) == b[i + 1]
                && a.drop_first()[i] == a[i + 1]);
        lemma_sum_times_pointwise(a.drop_first(), b.drop_first());
    }
}

/// One active scheduling pass adds exactly the elapsed time to the total,
/// credits it to the thread that was current, and keeps the accounting
/// facts available for the next pass.
proof fn lemma_pass_conservation(m: SchedulerModel, now: u64)
    requires
        m.active,
        accounting_ok(m),
        now >= m.last_accounting_update,
    ensures
        accounting_ok(m.after_schedule(now)),
        m.after_schedule(now).active,
        m.after_schedule(now).last_accounting_update == now,
        m.after_schedule(now).threads.len() == m.threads.len(),
        sum_times(m.after_schedule(now).threads) == sum_times(m.threads) + (now
            - m.last_accounting_update),
{
    let after = m.after_schedule(now);
    let cur = m.current_thread_id.0 as int;
    lemma_time_bounded_by_sum(m.threads, cur);
    lemma_sum_times_nonneg(m.threads);
    let bumped = m.threads.update(
        cur,
        (Thread {
            time: (m.threads[cur].time + (now - m.last_accounting_update)) as u64,
            ..m.threads[cur]
        }),
    );
    lemma_sum_times_update(m.threads, cur, bumped[cur]);
    lemma_sum_times_pointwise(bumped, after.threads);
    // Every identity the pass records afterwards was already recorded.
    assert forall|i: int|
        0 <= i < after.queue.len() implies (#[trigger] after.queue[i]).0 < after.threads.len() by {
        lemma_wake_queue_ids(m, now);
        let q = m.wake_queue(now);
        match m.picked(now) {
            Some(n) => {
                let q1 = if q.len() > 0 {
                    q.drop_first()
                } else {
                    q
                };
                if i < q1.len() {
                    if q.len() > 0 {
                        assert(q1[i] == q[i + 1]);
                        assert(q[i + 1].0 < m.threads.len());
                    }
                } else {
                    assert(after.queue[i] == m.current_thread_id);
                }
            },
            None => {
                assert(after.queue[i] == q[i]);
            },
        }
    }
    assert forall|i: int|
        0 <= i < after.sleeping.len() implies (#[trigger] after.sleeping[i]).thread.0
        < after.threads.len() by {
        let due = due_count(m.sleeping, now);
        lemma_due_count_char(m.sleeping, now);
        assert(after.sleeping[i] == m.sleeping[i + due]);
        assert(m.sleeping[i + due].thread.0 < m.threads.len());
    }
    assert(after.current_thread_id.0 < after.threads.len()) by {
        lemma_wake_queue_ids(m, now);
    }
}

/// Every identity in the ready queue after the wake sweep names a table
/// slot, and so does the picked thread.
proof fn lemma_wake_queue_ids(m: SchedulerModel, now: u64)
    requires
        accounting_ok(m),
    ensures
        forall|i: int|
            0 <= i < m.wake_queue(now).len() ==> (#[trigger] m.wake_queue(now)[i]).0
                < m.threads.len(),
        match m.picked(now) {
            Some(n) => n.0 < m.threads.len(),
            None => true,
        },
{
    lemma_due_count_char(m.sleeping, now);
    assert forall|i: int|
        0 <= i < m.wake_queue(now).len() implies (#[trigger] m.wake_queue(now)[i]).0
        < m.threads.len() by {
        if i >= m.queue.len() {
            let w = i - m.queue.len();
            assert(m.wake_queue(now)[i] == m.woken(now)[w]);
            assert(m.woken(now)[w] == m.sleeping.take(due_count(m.sleeping, now))[w].thread);
            assert(m.sleeping[w].thread.0 < m.threads.len());
        }
    }
}

/// Law (time accounting conservation, whole runs): over any sequence of
/// scheduling passes of an active scheduler at nondecreasing clock
/// readings, the total accumulated time over all threads grows by exactly
/// the hardware time that elapsed between the start of accounting and the
/// last pass — for any thread count and any tick pattern.
pub proof fn lemma_time_conservation(m: SchedulerModel, nows: Seq<u64>)
    requires
        m.active,
        accounting_ok(m),
        nows.len() > 0,
        m.last_accounting_update <= nows[0],
        forall|k: int| 0 <= k < nows.len() - 1 ==> #[trigger] nows[k] <= nows[k + 1],
    ensures
        schedule_chain(m, nows).active,
        accounting_ok(schedule_chain(m, nows)),
        schedule_chain(m, nows).last_accounting_update == nows.last(),
        sum_times(schedule_chain(m, nows).threads) == sum_times(m.threads) + (nows.last()
            - m.last_accounting_update),
    decreases nows.len(),
{
    lemma_pass_conservation(m, nows[0]);
    if nows.len() == 1 {
        assert(nows.drop_first() =~= Seq::<u64>::empty());
        assert(schedule_chain(m.after_schedule(nows[0]), nows.drop_first()) == m.after_schedule(
            nows[0],
        ));
    } else {
        assert(forall|k: int|
            0 <= k < nows.drop_first().len() ==> #[trigger] nows.drop_first()[k] == nows[k + 1]);
        lemma_time_conservation(m.after_schedule(nows[0]), nows.drop_first());
        assert(nows.drop_first().last() == nows.last());
    }
}

/// Law (sleep/wake liveness): a thread standing at position `p` of an
/// active scheduler's ready queue is exactly the thread picked once `p`
/// further scheduling passes have run, whatever the clock readings: queued
/// threads only move forward. Together with the wake clauses of a pass —
/// a due sleeper joins the back of the queue — every woken thread runs.
pub proof fn lemma_queued_thread_is_picked(
    m: SchedulerModel,
    nows: Seq<u64>,
    p: int,
    next_now: u64,
)
    requires
        m.active,
        0 <= p < m.queue.len(),
        nows.len() == p,
    ensures
        schedule_chain(m, nows).picked(next_now) == Some(m.queue[p]),
    decreases p,
{
    if p == 0 {
        assert(m.wake_queue(next_now)[0] == m.queue[0]);
    } else {
        let after = m.after_schedule(nows[0]);
        let q = m.wake_queue(nows[0]);
        assert(q[0] == m.queue[0]);
        assert(m.picked(nows[0]) == Some(q[0]));
        assert(q.drop_first()[p - 1] == q[p]);
        assert(q[p] == m.queue[p]);
        assert(after.queue[p - 1] == m.queue[p]);
        assert(after.queue.len() > p - 1);
        lemma_queued_thread_is_picked(after, nows.drop_first(), p - 1, next_now);
        assert(after.queue[p - 1] == after.queue[p - 1]);
    }
}

/// A clean round-robin state: active, nobody asleep, a non-empty ready
/// queue of distinct ready-to-run, non-idle threads, and a running,
/// non-idle current thread — the premise of the fairness law.
pub open spec fn round_robin_ready(m: SchedulerModel) -> bool {
    &&& m.active
    &&& m.sleeping.len() == 0
    &&& m.queue.len() > 0
    &&& forall|i: int| 0 <= i < m.threads.len() ==> (#[trigger] m.threads[i]).id.0 == i
    &&& m.current_thread_id.0 < m.threads.len()
    &&& m.threads[m.current_thread_id.0 as int].state == ThreadState::Running
    &&& !m.is_idle(m.current_thread_id)
    &&& forall|i: int|
        0 <= i < m.queue.len() ==> (#[trigger] m.queue[i]).0 < m.threads.len()
            && m.threads[m.queue[i].0 as int].state == ThreadState::ReadyToRun && !m.is_idle(
            m.queue[i],
        )
    &&& forall|i: int, j: int|
        0 <= i < j < m.queue.len() ==> #[trigger] m.queue[i] != #[trigger] m.queue[j]
}

/// The round-robin order of a model: the current thread followed by the
/// ready queue.
pub open spec fn round_robin_order(m: SchedulerModel) -> Seq<ThreadId> {
    seq![m.current_thread_id] + m.queue
}

/// One pass on a clean round-robin state switches to the queue's front,
/// requeues the outgoing thread at the back, and leaves another clean
/// round-robin state whose order is the old one rotated by one.
proof fn lemma_clean_pass(m: SchedulerModel, now: u64)
    requires
        round_robin_ready(m),
    ensures
        m.decision(now) == Some((m.current_thread_id, m.queue[0])),
        round_robin_ready(m.after_schedule(now)),
        round_robin_order(m.after_schedule(now)) == rotate(round_robin_order(m)),
{
    let after = m.after_schedule(now);
    let cur = m.current_thread_id;
    let next = m.queue[0];
    assert(m.woken(now) =~= Seq::<ThreadId>::empty());
    assert(m.wake_queue(now) =~= m.queue);
    assert(m.picked(now) == Some(next));
    assert(next != cur) by {
        assert(m.threads[m.queue[0].0 as int].state == ThreadState::ReadyToRun);
    }
    assert(m.state_after_wake(now, cur.0 as int) == ThreadState::Running);
    assert(after.queue =~= m.queue.drop_first().push(cur));
    assert(after.sleeping =~= m.sleeping);
    assert(round_robin_order(after) =~= rotate(round_robin_order(m)));
    assert forall|i: int| 0 <= i < after.threads.len() implies (#[trigger] after.threads[i]).id.0
        == i by {
        assert(m.threads[i].id.0 == i);
    }
    assert(after.threads[after.current_thread_id.0 as int].state == ThreadState::Running) by {
        assert(m.state_after_schedule(now, next.0 as int) == ThreadState::Running);
    }
    assert forall|i: int|
        0 <= i < after.queue.len() implies (#[trigger] after.queue[i]).0 < after.threads.len()
        && after.threads[after.queue[i].0 as int].state == ThreadState::ReadyToRun && !after.is_idle(
        after.queue[i],
    ) by {
        if i < after.queue.len() - 1 {
            let t = m.queue[i + 1];
            assert(after.queue[i] == t);
            assert(m.threads[t.0 as int].state == ThreadState::ReadyToRun);
            assert(t != next && t != cur) by {
                assert(m.queue[0] != m.queue[i + 1]);
                assert(m.threads[cur.0 as int].state == ThreadState::Running);
            }
            assert(m.state_after_schedule(now, t.0 as int) == ThreadState::ReadyToRun);
        } else {
            assert(after.queue[i] == cur);
            assert(m.state_after_schedule(now, cur.0 as int) == ThreadState::ReadyToRun);
        }
    }
    assert forall|i: int, j: int|
        0 <= i < j < after.queue.len() implies #[trigger] after.queue[i]
        != #[trigger] after.queue[j] by {
        if j < after.queue.len() - 1 {
            assert(m.queue[i + 1] != m.queue[j + 1]);
        } else {
            assert(after.queue[j] == cur);
            assert(after.queue[i] == m.queue[i + 1]);
            assert(m.threads[m.queue[i + 1].0 as int].state == ThreadState::ReadyToRun);
            assert(m.threads[cur.0 as int].state == ThreadState::Running);
        }
    }
}

/// Law (round-robin fairness, whole windows): from a clean round-robin
/// state, any run of scheduling passes keeps the state clean and rotates
/// the round-robin order one position per pass; the `k`-th pass of the run
/// switches from the order's `k`-th thread to its `k+1`-st (indices modulo
/// the thread count, by `lemma_round_robin_fairness`). In every window of
/// as many consecutive passes as there are ready threads, each is therefore
/// scheduled exactly once, in the order in which they became ready.
pub proof fn lemma_round_robin_window(m: SchedulerModel, nows: Seq<u64>)
    requires
        round_robin_ready(m),
    ensures
        round_robin_ready(schedule_chain(m, nows)),
        round_robin_order(schedule_chain(m, nows)) == rotate_n(
            round_robin_order(m),
            nows.len() as int,
        ),
        forall|k: int|
            0 <= k < nows.len() ==> #[trigger] schedule_chain(m, nows.take(k)).decision(nows[k])
                == Some(
                (rotate_n(round_robin_order(m), k)[0], rotate_n(round_robin_order(m), k)[1]),
            ),
    decreases nows.len(),
{
    let r = round_robin_order(m);
    if nows.len() == 0 {
        assert(schedule_chain(m, nows) == m);
    } else {
        lemma_clean_pass(m, nows[0]);
        let after = m.after_schedule(nows[0]);
        lemma_round_robin_window(after, nows.drop_first());
        assert(rotate_n(r, 1) == rotate(rotate_n(r, 0)));
        assert(round_robin_order(after) == rotate_n(r, 1));
        lemma_rotate_n_shifts(r, nows.len() as int);
        assert forall|k: int|
            0 <= k < nows.len() implies #[trigger] schedule_chain(m, nows.take(k)).decision(
            nows[k],
        ) == Some((rotate_n(r, k)[0], rotate_n(r, k)[1])) by {
            if k == 0 {
                assert(nows.take(0) =~= Seq::<u64>::empty());
                assert(schedule_chain(m, nows.take(0)) == m);
                assert(rotate_n(r, 0) == r);
                assert(r[0] == m.current_thread_id);
                assert(r[1] == m.queue[0]);
            } else {
                assert(nows.take(k).drop_first() =~= nows.drop_first().take(k - 1));
                assert(nows.take(k)[0] == nows[0]);
                assert(schedule_chain(m, nows.take(k)) == schedule_chain(
                    after,
                    nows.drop_first().take(k - 1),
                ));
                assert(nows.drop_first()[k - 1] == nows[k]);
                assert(schedule_chain(after, nows.drop_first().take(k - 1)).decision(nows[k])
                    == Some(
                    (
                        rotate_n(round_robin_order(after), k - 1)[0],
                        rotate_n(round_robin_order(after), k - 1)[1],
                    ),
                ));
                lemma_rotate_n_shifts(r, k);
            }
        }
    }
}

/// Rotating `k` times and then once more is rotating the once-rotated
/// order `k` times.
proof fn lemma_rotate_n_shifts(r: Seq<ThreadId>, k: int)
    ensures
        forall|j: int| 0 <= j <= k ==> #[trigger] rotate_n(rotate(r), j) == rotate_n(r, j + 1),
    decreases k,
{
    assert(rotate_n(r, 0) == r);
    assert(rotate_n(rotate(r), 0) == rotate(r));
    assert(rotate_n(r, 1) == rotate(rotate_n(r, 0)));
    if k > 0 {
        lemma_rotate_n_shifts(r, k - 1);
        assert(rotate_n(rotate(r), k) == rotate(rotate_n(rotate(r), k - 1)));
        assert(rotate_n(r, k + 1) == rotate(rotate_n(r, k)));
    }
}

/// A well-formed, active scheduler with an empty sleeping structure, a
/// non-empty ready queue, and a running, non-idle current thread is a clean
/// round-robin state: the premise of the window fairness law.
pub proof fn lemma_wf_round_robin_ready(s: Scheduler)
    requires
        s.wf(),
        s.active,
        s.sleeping_threads@.len() == 0,
        s.paused_threads@.len() > 0,
        s.state_of(s.current_thread_id) == ThreadState::Running,
        !s.is_idle(s.current_thread_id),
    ensures
        round_robin_ready(s.model()),
{
    let m = s.model();
    assert forall|i: int|
        0 <= i < m.queue.len() implies (#[trigger] m.queue[i]).0 < m.threads.len()
        && m.threads[m.queue[i].0 as int].state == ThreadState::ReadyToRun && !m.is_idle(
        m.queue[i],
    ) by {
        assert(s.valid_id(s.paused_threads@[i]));
        assert(s.state_of(s.paused_threads@[i]) == ThreadState::ReadyToRun);
        assert(!s.is_idle(s.paused_threads@[i]));
    }
}

/// `Scheduler::wf` gives a model everything the accounting laws need.
pub proof fn lemma_wf_accounting_ok(s: Scheduler)
    requires
        s.wf(),
    ensures
        accounting_ok(s.model()),
{
    assert forall|i: int|
        0 <= i < s.model().queue.len() implies (#[trigger] s.model().queue[i]).0
        < s.model().threads.len() by {
        assert(s.valid_id(s.paused_threads@[i]));
    }
    assert forall|i: int|
        0 <= i < s.model().sleeping.len() implies (#[trigger] s.model().sleeping[i]).thread.0
        < s.model().threads.len() by {
        assert(s.valid_id(s.sleeping_threads@[i].thread));
    }
}

} // verus!
