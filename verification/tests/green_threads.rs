use oscamp::green_threads::{initial_stack_pointer, Scheduler, ThreadState};

#[test]
fn new_scheduler_has_only_the_caller() {
    let mut s = Scheduler::new();
    assert!(s.all_spawned_finished());
    assert_eq!(s.schedule_next(), None);
}

#[test]
fn round_robin_order() {
    let mut s = Scheduler::new();
    assert_eq!(s.spawn(), 1);
    assert_eq!(s.spawn(), 2);
    assert!(!s.all_spawned_finished());
    assert_eq!(s.schedule_next(), Some((0, 1)));
    assert_eq!(s.schedule_next(), Some((1, 2)));
    assert_eq!(s.schedule_next(), Some((2, 0)));
    assert_eq!(s.schedule_next(), Some((0, 1)));
}

#[test]
fn finished_threads_are_skipped() {
    let mut s = Scheduler::new();
    s.spawn();
    s.spawn();
    assert_eq!(s.schedule_next(), Some((0, 1)));
    s.finish_current();
    assert_eq!(s.schedule_next(), Some((1, 2)));
    s.finish_current();
    assert!(s.all_spawned_finished());
    assert_eq!(s.schedule_next(), Some((2, 0)));
    assert_eq!(s.schedule_next(), None);
}

#[test]
fn thread_state_compares() {
    assert_eq!(ThreadState::Ready, ThreadState::Ready);
    assert_ne!(ThreadState::Running, ThreadState::Finished);
}

#[test]
fn stack_pointer_alignment() {
    assert_eq!(initial_stack_pointer(0x1000), 0xFF0);
    assert_eq!(initial_stack_pointer(0x1008), 0xFF0);
    assert_eq!(initial_stack_pointer(0x101F), 0x1000);
    assert_eq!(initial_stack_pointer(16), 0);
}
