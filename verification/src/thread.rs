//! Thread control blocks: identity, lifecycle state, saved stack pointer,
//! address-space handle and accumulated CPU time.
use vstd::prelude::*;

use crate::stack::Stack;

verus! {

/// An opaque, monotonically increasing, process-wide-unique handle for a
/// thread. Identifiers are handed out by the scheduler and never reused.
#[derive(Debug, Clone, Copy, PartialEq, Eq, PartialOrd, Ord, Structural)]
pub struct ThreadId(pub usize);

impl ThreadId {
    /// The numeric value of the identifier.
    pub fn as_usize(&self) -> (r: usize)
        ensures
            r == self.0,
    {
        self.0
    }

    /// Rebuild an identifier from its numeric value.
    pub fn from_usize(id: usize) -> (r: Self)
        ensures
            r.0 == id,
    {
        ThreadId(id)
    }
}

/// Why a blocked thread is not currently runnable.
#[derive(Debug, Clone, Copy, PartialEq, Eq, Structural)]
pub enum BlockReason {
    /// The thread asked to sleep for the given number of nanoseconds.
    Sleep(u64),
    Other,
}

/// The lifecycle state of a thread.
///
/// `Running` is held by at most one thread at a time: the thread the
/// scheduler last chose. A queued thread is always `ReadyToRun`; a sleeping
/// thread is always `Blocked`.
#[derive(Debug, Clone, Copy, PartialEq, Eq, Structural)]
pub enum ThreadState {
    Starting,
    Running,
    ReadyToRun,
    Blocked(BlockReason),
}

/// The page-table root a thread executes under. Several threads may share
/// one; this core never creates address spaces, it only records which one a
/// thread belongs to.
#[derive(Debug, Clone, Copy, PartialEq, Eq, Structural)]
pub struct AddressSpaceHandle(pub u64);

/// The control block of one schedulable unit of execution.
pub struct Thread {
    /// Immutable identity, allocated by the scheduler.
    pub id: ThreadId,
    /// The saved hardware stack pointer while the thread is *not* running.
    /// `None` while the thread's context is live on the processor: at that
    /// moment the real value is in the hardware register, not here.
    pub stack_pointer: Option<u64>,
    /// The page-table root this thread executes under.
    pub address_space: AddressSpaceHandle,
    /// Lifecycle state; only the scheduler decides transitions.
    pub state: ThreadState,
    /// Diagnostic name.
    pub name: String,
    /// The stack memory this thread owns. The bootstrap thread reuses the
    /// boot stack and owns none.
    pub stack: Option<Stack>,
    /// Accumulated processor time in nanoseconds, maintained by the
    /// scheduler's accounting step.
    pub time: u64,
}

impl Thread {
    /// Create the control block for a new thread that will first run with
    /// the given stack, entering wherever the stack's initial frame points.
    pub fn new(
        id: ThreadId,
        initial_stack_pointer: u64,
        address_space: AddressSpaceHandle,
        name: String,
        stack: Stack,
    ) -> (thread: Thread)
        ensures
            thread.id == id,
            thread.stack_pointer == Some(initial_stack_pointer),
            thread.address_space == address_space,
            thread.state == ThreadState::Starting,
            thread.name == name,
            thread.stack == Some(stack),
            thread.time == 0,
    {
        Thread {
            id,
            stack_pointer: Some(initial_stack_pointer),
            address_space,
            state: ThreadState::Starting,
            name,
            stack: Some(stack),
            time: 0,
        }
    }

    /// Create the control block for the bootstrap thread: the control flow
    /// already executing when the scheduler initialises. It is running, its
    /// live stack pointer is in the hardware register (so none is recorded),
    /// and it owns no stack buffer — the boot stack is never deallocated.
    pub fn bootstrap(id: ThreadId, address_space: AddressSpaceHandle) -> (thread: Thread)
        ensures
            thread.id == id,
            thread.stack_pointer is None,
            thread.address_space == address_space,
            thread.state == ThreadState::Running,
            thread.name@ == "kernel"@,
            thread.stack is None,
            thread.time == 0,
    {
        Thread {
            id,
            stack_pointer: None,
            address_space,
            state: ThreadState::Running,
            name: "kernel".to_string(),
            stack: None,
            time: 0,
        }
    }

    /// Get the thread's id.
    pub fn id(&self) -> (id: ThreadId)
        ensures
            id == self.id,
    {
        self.id
    }

    /// Get the thread's state.
    pub fn state(&self) -> (state: ThreadState)
        ensures
            state == self.state,
    {
        self.state
    }

    /// Set the thread's state.
    pub fn set_state(&mut self, state: ThreadState)
        ensures
            *final(self) == (Thread { state, ..*old(self) }),
    {
        self.state = state;
    }

    /// Get the thread's diagnostic name.
    pub fn name(&self) -> (name: &str)
        ensures
            name@ == self.name@,
    {
        self.name.as_str()
    }

    /// Add to the thread's accumulated processor time, in nanoseconds.
    pub fn add_time(&mut self, value: u64)
        requires
            old(self).time + value <= u64::MAX,
        ensures
            *final(self) == (Thread { time: (old(self).time + value) as u64, ..*old(self) }),
    {
        self.time = self.time + value;
    }

    /// Get the thread's stack, if it owns one.
    pub fn stack(&self) -> (stack: &Option<Stack>)
        ensures
            stack == self.stack,
    {
        &self.stack
    }

    /// Get the thread's saved stack pointer, if one is recorded.
    pub fn stack_pointer(&self) -> (sp: Option<u64>)
        ensures
            sp == self.stack_pointer,
    {
        self.stack_pointer
    }

    /// A read-only copy of the thread's bookkeeping, safe to hand out for
    /// diagnostics.
    pub fn to_view(&self) -> (view: ThreadView)
        ensures
            view_matches(view, *self),
    {
        ThreadView {
            id: self.id,
            stack_pointer: self.stack_pointer,
            address_space: self.address_space,
            state: self.state,
            name: clone_string(&self.name),
            stack_size: match &self.stack {
                Some(stack) => Some(stack.buffer.len()),
                None => None,
            },
            stack_base: match &self.stack {
                Some(stack) => Some(stack.base),
                None => None,
            },
            time: self.time,
        }
    }
}

/// Clone a string, keeping its characters.
fn clone_string(s: &String) -> (r: String)
    ensures
        r@ == s@,
{
    s.clone()
}

/// Whether a view is the read-only copy of a thread's bookkeeping.
pub open spec fn view_matches(view: ThreadView, thread: Thread) -> bool {
    &&& view.id == thread.id
    &&& view.stack_pointer == thread.stack_pointer
    &&& view.address_space == thread.address_space
    &&& view.state == thread.state
    &&& view.name@ == thread.name@
    &&& view.stack_size == (match thread.stack {
        Some(stack) => Some(stack.buffer@.len() as usize),
        None => None,
    })
    &&& view.stack_base == (match thread.stack {
        Some(stack) => Some(stack.base),
        None => None,
    })
    &&& view.time == thread.time
}

/// A view into a thread: plain copies of its bookkeeping, which cannot be
/// scheduled itself.
pub struct ThreadView {
    pub id: ThreadId,
    pub stack_pointer: Option<u64>,
    pub address_space: AddressSpaceHandle,
    pub state: ThreadState,
    pub name: String,
    pub stack_size: Option<usize>,
    pub stack_base: Option<u64>,
    pub time: u64,
}

impl ThreadView {
    /// Get the viewed thread's id.
    pub fn id(&self) -> (id: ThreadId)
        ensures
            id == self.id,
    {
        self.id
    }

    /// Get the viewed thread's saved stack pointer, if one was recorded.
    pub fn stack_pointer(&self) -> (sp: Option<u64>)
        ensures
            sp == self.stack_pointer,
    {
        self.stack_pointer
    }

    /// Get the viewed thread's address-space handle.
    pub fn address_space(&self) -> (a: AddressSpaceHandle)
        ensures
            a == self.address_space,
    {
        self.address_space
    }

    /// Get the viewed thread's state.
    pub fn state(&self) -> (state: ThreadState)
        ensures
            state == self.state,
    {
        self.state
    }

    /// Get the viewed thread's name.
    pub fn name(&self) -> (name: &str)
        ensures
            name@ == self.name@,
    {
        self.name.as_str()
    }

    /// Get the viewed thread's stack size in words, if it owns a stack.
    pub fn stack_size(&self) -> (size: Option<usize>)
        ensures
            size == self.stack_size,
    {
        self.stack_size
    }

    /// Get the address of word 0 of the viewed thread's stack, if it owns
    /// one.
    pub fn stack_base(&self) -> (base: Option<u64>)
        ensures
            base == self.stack_base,
    {
        self.stack_base
    }

    /// Get the viewed thread's accumulated processor time in nanoseconds.
    pub fn time(&self) -> (time: u64)
        ensures
            time == self.time,
    {
        self.time
    }
}

} // verus!
