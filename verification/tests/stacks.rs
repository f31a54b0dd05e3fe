use annex::stack::{
    restore_frame, Stack, INITIAL_RFLAGS, KERNEL_CODE_SELECTOR, KERNEL_DATA_SELECTOR,
};

#[test]
fn initial_stack_layout() {
    let size = 32usize;
    let base = 0x200_0000u64;
    let entry = 0x40_1000u64;
    let stack = Stack::new(size, entry, base);

    assert_eq!(stack.buffer.len(), size);
    assert_eq!(stack.base, base);

    let top_address = base + 8 * (size as u64 - 1);
    assert_eq!(stack.buffer[size - 1], KERNEL_DATA_SELECTOR);
    assert_eq!(stack.buffer[size - 2], top_address);
    assert_eq!(stack.buffer[size - 3], INITIAL_RFLAGS);
    assert_eq!(stack.buffer[size - 4], KERNEL_CODE_SELECTOR);
    assert_eq!(stack.buffer[size - 5], entry);
    assert_eq!(stack.buffer[size - 12], top_address);
    for (i, &word) in stack.buffer.iter().enumerate() {
        if ![size - 1, size - 2, size - 3, size - 4, size - 5, size - 12].contains(&i) {
            assert_eq!(word, 0, "word {i} should be zero");
        }
    }

    // The first resume pops exactly the initial frame.
    assert_eq!(stack.initial_stack_pointer(), base + 8 * (size as u64 - 20));
}

#[test]
fn restoring_a_fresh_stack_enters_the_thread() {
    let size = 64usize;
    let base = 0x300_0000u64;
    let entry = 0x40_2000u64;
    let stack = Stack::new(size, entry, base);

    let frame = restore_frame(&stack);
    assert_eq!(frame.rip, entry);
    assert_eq!(frame.cs, KERNEL_CODE_SELECTOR);
    assert_eq!(frame.rflags, INITIAL_RFLAGS);
    assert_eq!(frame.ss, KERNEL_DATA_SELECTOR);
    assert_eq!(frame.rsp, base + 8 * (size as u64 - 1));
    assert_eq!(frame.rbp, frame.rsp);
}

#[test]
fn smallest_stack_still_fits_the_frame() {
    let stack = Stack::new(20, 0x1234, 0);
    assert_eq!(stack.initial_stack_pointer(), 0);
    assert_eq!(stack.buffer[15], 0x1234);
}
