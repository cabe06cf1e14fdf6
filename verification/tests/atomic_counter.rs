use oscamp::atomic_counter::{multiply_update, AtomicCounter};

#[test]
fn test_basic_ops() {
    let c = AtomicCounter::new(0);
    assert_eq!(c.increment(), 0);
    assert_eq!(c.increment(), 1);
    assert_eq!(c.get(), 2);
    assert_eq!(c.decrement(), 2);
    assert_eq!(c.get(), 1);
}

#[test]
fn test_cas_success() {
    let c = AtomicCounter::new(10);
    assert_eq!(c.compare_and_swap(10, 20), Ok(10));
    assert_eq!(c.get(), 20);
}

#[test]
fn test_cas_failure() {
    let c = AtomicCounter::new(10);
    assert_eq!(c.compare_and_swap(5, 20), Err(10));
    assert_eq!(c.get(), 10);
}

#[test]
fn test_fetch_multiply() {
    let c = AtomicCounter::new(3);
    let old = c.fetch_multiply(4);
    assert_eq!(old, 3);
    assert_eq!(c.get(), 12);
}

#[test]
fn multiply_update_wraps() {
    assert_eq!(multiply_update(3, 4), Some(12));
    assert_eq!(multiply_update(u64::MAX, 2), Some(u64::MAX - 1));
}

#[test]
fn fetch_multiply_wraps_like_fetch_add() {
    let c = AtomicCounter::new(1 << 63);
    assert_eq!(c.fetch_multiply(2), 1 << 63);
    assert_eq!(c.get(), 0);
    assert_eq!(c.decrement(), 0);
    assert_eq!(c.get(), u64::MAX);
    assert_eq!(c.increment(), u64::MAX);
    assert_eq!(c.get(), 0);
}
