//! Construction of a new thread's initial stack.
//!
//! The buffer is laid out so that the context-switch restore path — which
//! pops fifteen general-purpose registers and then executes an interrupt
//! return — ends up transferring control to the thread's entry function as
//! if that function had been entered fresh with interrupts enabled.
//!
//! The crate never takes the address of the buffer itself: the caller says
//! at which virtual address the buffer will live, and every address written
//! into the buffer is derived from that value. The slot holding word `i`
//! lives at `base + 8 * i`.
use vstd::prelude::*;

verus! {

/// Selector of the kernel code segment, placed in the interrupt frame's
/// `cs` slot.
pub const KERNEL_CODE_SELECTOR: u64 = 0x8;

/// Selector of the kernel data segment, placed in the interrupt frame's
/// `ss` slot.
pub const KERNEL_DATA_SELECTOR: u64 = 0x10;

/// Initial `rflags` for a fresh thread: interrupts enabled, plus the
/// always-set reserved flag.
pub const INITIAL_RFLAGS: u64 = 0x202;

/// Number of words the context-switch restore path consumes from the top of
/// a fresh stack: fifteen general-purpose registers followed by the
/// five-word interrupt return frame.
pub const INITIAL_FRAME_WORDS: usize = 20;

/// An owned stack buffer for one thread, together with the virtual address
/// at which it lives.
pub struct Stack {
    /// The stack memory, in machine words; index `len - 1` is the highest
    /// address.
    pub buffer: Vec<u64>,
    /// The virtual address of word 0 of the buffer.
    pub base: u64,
}

/// The register state the context-switch restore path establishes when it
/// runs against a stack: it pops fifteen general-purpose registers (of which
/// only `rbp` is given a meaningful value on a fresh stack) and then an
/// interrupt return pops `rip`, `cs`, `rflags`, `rsp` and `ss`.
#[derive(Debug, Clone, Copy, PartialEq, Eq, Structural)]
pub struct RestoredFrame {
    pub rbp: u64,
    pub rip: u64,
    pub cs: u64,
    pub rflags: u64,
    pub rsp: u64,
    pub ss: u64,
}

impl Stack {
    /// A stack is usable when it has room for the initial frame and its
    /// address range does not wrap.
    pub open spec fn wf(self) -> bool {
        &&& self.buffer@.len() >= INITIAL_FRAME_WORDS
        &&& self.base + 8 * self.buffer@.len() <= u64::MAX
    }

    /// The virtual address of word `i` of the buffer.
    pub open spec fn slot_address(self, i: int) -> int {
        self.base + 8 * i
    }

    /// The contents a fresh stack must have so that restoring from it enters
    /// `entry`: an interrupt return frame in the top five words, a saved
    /// `rbp` pointing at the top word, and zeroes everywhere else.
    pub open spec fn has_initial_layout(self, entry: u64) -> bool {
        let n = self.buffer@.len() as int;
        &&& self.wf()
        &&& self.buffer@[n - 1] == KERNEL_DATA_SELECTOR
        &&& self.buffer@[n - 2] == self.slot_address(n - 1)
        &&& self.buffer@[n - 3] == INITIAL_RFLAGS
        &&& self.buffer@[n - 4] == KERNEL_CODE_SELECTOR
        &&& self.buffer@[n - 5] == entry
        &&& self.buffer@[n - 12] == self.slot_address(n - 1)
        &&& forall|i: int|
            0 <= i < n && i != n - 1 && i != n - 2 && i != n - 3 && i != n - 4 && i != n - 5 && i
                != n - 12 ==> self.buffer@[i] == 0
    }

    /// Build the initial stack for a thread that will start at the function
    /// whose address is `entry`, in a buffer of `stack_size` words that the
    /// caller will place at virtual address `base`.
    pub fn new(stack_size: usize, entry: u64, base: u64) -> (stack: Stack)
        requires
            stack_size >= INITIAL_FRAME_WORDS,
            base + 8 * stack_size <= u64::MAX,
        ensures
            stack.buffer@.len() == stack_size,
            stack.base == base,
            stack.has_initial_layout(entry),
    {
        let mut buffer: Vec<u64> = Vec::new();
        let mut i: usize = 0;
        while i < stack_size
            invariant
                i <= stack_size,
                buffer@.len() == i,
                forall|j: int| 0 <= j < i ==> buffer@[j] == 0,
            decreases stack_size - i,
        {
            buffer.push(0);
            i = i + 1;
        }

        // The address of the topmost word; it doubles as the initial frame
        // pointer and as the stack pointer the entry function will see.
        let top_address: u64 = base + 8 * ((stack_size - 1) as u64);

        buffer[stack_size - 1] = KERNEL_DATA_SELECTOR;
        buffer[stack_size - 2] = top_address;
        buffer[stack_size - 3] = INITIAL_RFLAGS;
        buffer[stack_size - 4] = KERNEL_CODE_SELECTOR;
        buffer[stack_size - 5] = entry;
        buffer[stack_size - 12] = top_address;

        Stack { buffer, base }
    }

    /// The stack-pointer value to load the first time this thread is
    /// resumed: the address of the lowest word of the initial frame, so that
    /// the restore path pops exactly the words written by `new`.
    pub fn initial_stack_pointer(&self) -> (sp: u64)
        requires
            self.wf(),
        ensures
            sp == self.slot_address(self.buffer@.len() - INITIAL_FRAME_WORDS),
    {
        base_offset_address(self.base, self.buffer.len() - INITIAL_FRAME_WORDS)
    }
}

/// The address of word `index` of a buffer living at `base`.
fn base_offset_address(base: u64, index: usize) -> (addr: u64)
    requires
        base + 8 * index <= u64::MAX,
    ensures
        addr == base + 8 * index,
{
    base + 8 * (index as u64)
}

/// What the restored register state is for a stack: the mirror image of the
/// restore path, reading the words it would pop.
pub open spec fn spec_restore(stack: Stack) -> RestoredFrame {
    let n = stack.buffer@.len() as int;
    RestoredFrame {
        rbp: stack.buffer@[n - 12],
        rip: stack.buffer@[n - 5],
        cs: stack.buffer@[n - 4],
        rflags: stack.buffer@[n - 3],
        rsp: stack.buffer@[n - 2],
        ss: stack.buffer@[n - 1],
    }
}

/// Read off the register state the context-switch restore path would
/// establish from this stack. This is the model of the restore path used to
/// check the stack layout; the raw register loads themselves live outside
/// the crate.
pub fn restore_frame(stack: &Stack) -> (frame: RestoredFrame)
    requires
        stack.wf(),
    ensures
        frame == spec_restore(*stack),
{
    let n = stack.buffer.len();
    RestoredFrame {
        rbp: stack.buffer[n - 12],
        rip: stack.buffer[n - 5],
        cs: stack.buffer[n - 4],
        rflags: stack.buffer[n - 3],
        rsp: stack.buffer[n - 2],
        ss: stack.buffer[n - 1],
    }
}

/// Law (stack round trip): restoring from a freshly built stack enters the
/// entry function with interrupts enabled, kernel code and data segments,
/// and the stack and frame pointers at the top word of the buffer — exactly
/// the state of a fresh call into `entry`.
pub proof fn lemma_stack_round_trip(stack: Stack, entry: u64)
    requires
        stack.has_initial_layout(entry),
    ensures
        spec_restore(stack).rip == entry,
        spec_restore(stack).cs == KERNEL_CODE_SELECTOR,
        spec_restore(stack).rflags == INITIAL_RFLAGS,
        spec_restore(stack).ss == KERNEL_DATA_SELECTOR,
        spec_restore(stack).rsp == stack.slot_address(stack.buffer@.len() - 1),
        spec_restore(stack).rbp == spec_restore(stack).rsp,
{
}

} // verus!
