use annex::scheduler::{sleep, Deadline, Scheduler};
use annex::thread::{AddressSpaceHandle, ThreadId, ThreadState};

const STACK_WORDS: usize = 64;

fn test_scheduler() -> Scheduler {
    Scheduler::new(AddressSpaceHandle(0x8000))
}

fn spawn(s: &mut Scheduler, name: &str, base: u64) -> ThreadId {
    s.add_paused_thread(name, 0x40_0000, STACK_WORDS, base)
}

#[test]
fn bootstrap_thread_is_current_and_running() {
    let s = test_scheduler();
    assert_eq!(s.current_thread_id().as_usize(), 0);
    assert!(!s.active());
    let views = s.to_view();
    assert_eq!(views.len(), 1);
    assert_eq!(views[0].state(), ThreadState::Running);
    assert_eq!(views[0].name(), "kernel");
    assert_eq!(views[0].time(), 0);
    assert_eq!(views[0].stack_pointer(), None);
}

#[test]
fn inactive_scheduler_never_switches() {
    let mut s = test_scheduler();
    spawn(&mut s, "a", 0x1000);
    assert_eq!(s.schedule(100), None);
    assert_eq!(s.current_thread_id().as_usize(), 0);
}

#[test]
fn round_robin_example() {
    // Spawn threads a, b and c and let the scheduler rotate through them:
    // every thread (the bootstrap thread included) runs exactly once per
    // full cycle, in first-in-first-out order.
    let mut s = test_scheduler();
    let a = spawn(&mut s, "a", 0x10_0000);
    let b = spawn(&mut s, "b", 0x20_0000);
    let c = spawn(&mut s, "c", 0x30_0000);
    let boot = ThreadId::from_usize(0);
    s.set_active(true, 0);

    assert_eq!(s.schedule(10), Some((boot, a)));
    assert_eq!(s.schedule(20), Some((a, b)));
    assert_eq!(s.schedule(30), Some((b, c)));
    assert_eq!(s.schedule(40), Some((c, boot)));
    assert_eq!(s.schedule(50), Some((boot, a)));
    assert_eq!(s.schedule(60), Some((a, b)));
}

#[test]
fn single_thread_keeps_running_without_a_switch() {
    let mut s = test_scheduler();
    s.set_active(true, 0);
    // The bootstrap thread is the only thread: no switch is requested.
    assert_eq!(s.schedule(5), None);
    assert_eq!(s.schedule(10), None);
    assert_eq!(s.current_thread_id().as_usize(), 0);
}

#[test]
fn exactly_one_thread_runs_after_each_pass() {
    let mut s = test_scheduler();
    spawn(&mut s, "a", 0x10_0000);
    spawn(&mut s, "b", 0x20_0000);
    s.set_idle_thread(0x41_0000, STACK_WORDS, 0x40_0000);
    s.set_active(true, 0);
    let mut now = 0;
    for _ in 0..7 {
        now += 10;
        s.schedule(now);
        let running = s
            .to_view()
            .iter()
            .filter(|v| v.state() == ThreadState::Running)
            .count();
        assert_eq!(running, 1);
    }
}

#[test]
fn idle_fallback_when_nothing_is_ready() {
    let mut s = test_scheduler();
    let idle = s.set_idle_thread(0x41_0000, STACK_WORDS, 0x40_0000);
    s.set_active(true, 0);

    // The bootstrap thread goes to sleep far in the future; the sleep call
    // itself runs the scheduling pass and hands back the switch.
    let boot = ThreadId::from_usize(0);
    assert_eq!(
        sleep(&mut s, Deadline::relative(10, 1_000_000), 10),
        Some((boot, idle))
    );

    // With nothing else ready the idle thread keeps the processor, and it
    // is never placed in the ready queue.
    assert_eq!(s.schedule(20), None);
    assert_eq!(s.schedule(30), None);
    assert!(s.is_idle_thread_active());
    assert_eq!(s.next_thread(), None);
}

#[test]
fn sleeping_thread_wakes_at_its_deadline() {
    let mut s = test_scheduler();
    let idle = s.set_idle_thread(0x41_0000, STACK_WORDS, 0x40_0000);
    s.set_active(true, 0);

    let deadline = Deadline::relative(10, 100);
    assert_eq!(deadline, Deadline::absolute(110));
    let boot = ThreadId::from_usize(0);

    // Sleeping switches away at once; before the deadline the sleeper is
    // blocked and never chosen.
    assert_eq!(sleep(&mut s, deadline, 10), Some((boot, idle)));
    assert_eq!(s.schedule(109), None);
    assert!(matches!(
        s.to_view()[0].state(),
        ThreadState::Blocked(_)
    ));

    // At the deadline it is woken and chosen again within one pass.
    assert_eq!(s.schedule(110), Some((idle, boot)));
    assert_eq!(s.to_view()[0].state(), ThreadState::Running);
}

#[test]
fn threads_sharing_a_deadline_wake_together() {
    let mut s = test_scheduler();
    let a = spawn(&mut s, "a", 0x10_0000);
    let b = spawn(&mut s, "b", 0x20_0000);
    let idle = s.set_idle_thread(0x41_0000, STACK_WORDS, 0x40_0000);
    s.set_active(true, 0);

    let boot = ThreadId::from_usize(0);
    // Rotate until a is current, then sleep it; then the same for b.
    assert_eq!(s.schedule(10), Some((boot, a)));
    s.sleep_thread(a, Deadline::absolute(100));
    assert_eq!(s.schedule(20), Some((a, b)));
    s.sleep_thread(b, Deadline::absolute(100));
    assert_eq!(s.schedule(30), Some((b, boot)));
    // Put the bootstrap thread to sleep too, further out.
    assert_eq!(sleep(&mut s, Deadline::absolute(200), 40), Some((boot, idle)));

    // At the shared deadline both wake, in ascending identity order.
    assert_eq!(s.schedule(100), Some((idle, a)));
    assert_eq!(s.to_view()[b.as_usize()].state(), ThreadState::ReadyToRun);
    assert_eq!(s.schedule(120), Some((a, b)));
    // The bootstrap thread is still asleep.
    assert!(matches!(
        s.to_view()[0].state(),
        ThreadState::Blocked(_)
    ));
    // At its own deadline it rejoins the rotation behind a.
    assert_eq!(s.schedule(200), Some((b, a)));
    assert_eq!(s.to_view()[0].state(), ThreadState::ReadyToRun);
    assert_eq!(s.schedule(210), Some((a, boot)));
}

#[test]
fn accumulated_time_equals_elapsed_time() {
    let mut s = test_scheduler();
    spawn(&mut s, "a", 0x10_0000);
    spawn(&mut s, "b", 0x20_0000);
    s.set_active(true, 1000);

    // Irregular tick pattern; accounting starts at 1000.
    let ticks = [1007, 1013, 1100, 1101, 1500];
    for now in ticks {
        s.schedule(now);
    }
    let total: u64 = s.to_view().iter().map(|v| v.time()).sum();
    assert_eq!(total, 1500 - 1000);
}

#[test]
fn spawned_threads_get_fresh_ids_and_join_the_queue_in_order() {
    let mut s = test_scheduler();
    let a = spawn(&mut s, "a", 0x10_0000);
    let b = spawn(&mut s, "b", 0x20_0000);
    assert_eq!(a.as_usize(), 1);
    assert_eq!(b.as_usize(), 2);
    assert_eq!(s.next_thread(), Some(a));
    assert_eq!(s.next_thread(), Some(b));
    assert_eq!(s.next_thread(), None);

    let views = s.to_view();
    assert_eq!(views[1].name(), "a");
    assert_eq!(views[1].state(), ThreadState::ReadyToRun);
    assert_eq!(views[1].stack_size(), Some(STACK_WORDS));
    assert_eq!(views[1].stack_base(), Some(0x10_0000));
    assert_eq!(views[1].address_space(), AddressSpaceHandle(0x8000));
    // The saved stack pointer leaves room for the initial frame.
    assert_eq!(
        views[1].stack_pointer(),
        Some(0x10_0000 + 8 * (STACK_WORDS as u64 - 20))
    );
}

#[test]
fn record_switch_moves_the_saved_stack_pointer() {
    let mut s = test_scheduler();
    let a = spawn(&mut s, "a", 0x10_0000);
    s.set_active(true, 0);
    let boot = ThreadId::from_usize(0);
    assert_eq!(s.schedule(10), Some((boot, a)));

    let initial = 0x10_0000 + 8 * (STACK_WORDS as u64 - 20);
    let next_sp = s.record_switch(boot, a, 0xdead_0000);
    assert_eq!(next_sp, initial);
    let views = s.to_view();
    assert_eq!(views[0].stack_pointer(), Some(0xdead_0000));
    assert_eq!(views[1].stack_pointer(), None);
}

#[test]
fn deadline_constructors() {
    assert_eq!(Deadline::absolute(42), Deadline(42));
    assert_eq!(Deadline::relative(40, 2), Deadline(42));
    assert!(Deadline(41) < Deadline(42));
}

#[test]
fn thread_id_round_trip() {
    let id = ThreadId::from_usize(7);
    assert_eq!(id.as_usize(), 7);
    assert_eq!(ThreadId::from_usize(7), id);
}
