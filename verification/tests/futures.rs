use oscamp::futures::{CountDown, YieldOnce};

#[test]
fn countdown_zero_is_ready_at_once() {
    let mut c = CountDown::new(0);
    assert_eq!(c.poll_step(), Some("liftoff!"));
}

#[test]
fn countdown_three_is_pending_three_times() {
    let mut c = CountDown::new(3);
    assert_eq!(c.poll_step(), None);
    assert_eq!(c.count, 2);
    assert_eq!(c.poll_step(), None);
    assert_eq!(c.poll_step(), None);
    assert_eq!(c.poll_step(), Some("liftoff!"));
    assert_eq!(c.poll_step(), Some("liftoff!"));
}

#[test]
fn countdown_large() {
    let mut c = CountDown::new(100);
    let mut pending = 0;
    while c.poll_step().is_none() {
        pending += 1;
    }
    assert_eq!(pending, 100);
}

#[test]
fn yield_once_is_pending_once() {
    let mut y = YieldOnce::new();
    assert_eq!(y.poll_step(), None);
    assert_eq!(y.poll_step(), Some(()));
    assert_eq!(y.poll_step(), Some(()));
}
