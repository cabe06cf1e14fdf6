use oscamp::rwlock::{
    read_acquire_target, read_release, write_acquire_target, write_release, writer_announce,
    READER_MASK, WRITER_HOLDING, WRITER_WAITING,
};

#[test]
fn readers_enter_a_free_lock() {
    assert_eq!(read_acquire_target(0), Some(1));
    assert_eq!(read_acquire_target(5), Some(6));
}

#[test]
fn readers_wait_for_writers() {
    assert_eq!(read_acquire_target(WRITER_HOLDING), None);
    assert_eq!(read_acquire_target(WRITER_WAITING | 3), None);
    assert_eq!(read_acquire_target(READER_MASK), None);
}

#[test]
fn writer_protocol() {
    let announced = writer_announce(2);
    assert_eq!(announced, WRITER_WAITING | 2);
    assert_eq!(write_acquire_target(announced), None);
    let one_left = read_release(announced);
    let none_left = read_release(one_left);
    assert_eq!(none_left, WRITER_WAITING);
    assert_eq!(write_acquire_target(none_left), Some(WRITER_HOLDING));
    assert_eq!(write_acquire_target(WRITER_HOLDING), None);
    assert_eq!(write_release(WRITER_HOLDING | WRITER_WAITING), 0);
    assert_eq!(read_acquire_target(write_release(WRITER_HOLDING)), Some(1));
}
