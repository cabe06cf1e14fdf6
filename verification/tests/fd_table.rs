use oscamp::fd_table::{FdTable, File};
use std::sync::{Arc, Mutex};

struct MockFile {
    id: usize,
    write_log: Mutex<Vec<Vec<u8>>>,
}

impl MockFile {
    fn new(id: usize) -> Arc<Self> {
        Arc::new(Self {
            id,
            write_log: Mutex::new(vec![]),
        })
    }
}

impl File for MockFile {
    fn read(&self, buf: &mut [u8]) -> isize {
        buf[0] = self.id as u8;
        1
    }
    fn write(&self, buf: &[u8]) -> isize {
        self.write_log.lock().unwrap().push(buf.to_vec());
        buf.len() as isize
    }
}

#[test]
fn fd_test_alloc_basic() {
    let mut table: FdTable = FdTable::new();
    let fd = table.alloc_fd(MockFile::new(0));
    assert_eq!(fd, 0, "first fd should be 0");
    let fd2 = table.alloc_fd(MockFile::new(1));
    assert_eq!(fd2, 1, "second fd should be 1");
}

#[test]
fn test_get() {
    let mut table: FdTable = FdTable::new();
    let file = MockFile::new(42);
    let fd = table.alloc_fd(file);
    let got = table.get(fd);
    assert!(got.is_some(), "get should return Some");
    let mut buf = [0u8; 1];
    got.unwrap().read(&mut buf);
    assert_eq!(buf[0], 42);
}

#[test]
fn test_get_invalid() {
    let table: FdTable = FdTable::new();
    assert!(table.get(0).is_none());
    assert!(table.get(999).is_none());
}

#[test]
fn test_close_and_reuse() {
    let mut table: FdTable = FdTable::new();
    let fd0 = table.alloc_fd(MockFile::new(0));
    let fd1 = table.alloc_fd(MockFile::new(1));
    let fd2 = table.alloc_fd(MockFile::new(2));

    assert!(table.close(fd1), "closing fd=1 should succeed");
    assert!(
        table.get(fd1).is_none(),
        "get should return None after close"
    );

    let fd_new = table.alloc_fd(MockFile::new(99));
    assert_eq!(fd_new, fd1, "should reuse the smallest closed fd");

    let _ = (fd0, fd2);
}

#[test]
fn test_close_invalid() {
    let mut table: FdTable = FdTable::new();
    assert!(
        !table.close(0),
        "closing non-existent fd should return false"
    );
}

#[test]
fn test_count() {
    let mut table: FdTable = FdTable::new();
    assert_eq!(table.count(), 0);
    let fd0 = table.alloc_fd(MockFile::new(0));
    let fd1 = table.alloc_fd(MockFile::new(1));
    assert_eq!(table.count(), 2);
    table.close(fd0);
    assert_eq!(table.count(), 1);
    table.close(fd1);
    assert_eq!(table.count(), 0);
}

#[test]
fn test_write_through_fd() {
    let mut table: FdTable = FdTable::new();
    let file = MockFile::new(0);
    let fd = table.alloc_fd(file);
    let f = table.get(fd).unwrap();
    let n = f.write(b"hello");
    assert_eq!(n, 5);
}

#[test]
fn close_twice_fails_the_second_time() {
    let mut table: FdTable = FdTable::default();
    let fd = table.alloc_fd(MockFile::new(3));
    assert!(table.close(fd));
    assert!(!table.close(fd));
    assert_eq!(table.count(), 0);
}

#[test]
fn reuse_counts_the_reopened_fd() {
    let mut table: FdTable = FdTable::new();
    let fd0 = table.alloc_fd(MockFile::new(0));
    table.alloc_fd(MockFile::new(1));
    assert!(table.close(fd0));
    assert_eq!(table.count(), 1);
    assert_eq!(table.alloc_fd(MockFile::new(7)), fd0);
    assert_eq!(table.count(), 2);
    let mut buf = [0u8; 1];
    table.get(fd0).unwrap().read(&mut buf);
    assert_eq!(buf[0], 7);
}

#[test]
fn smallest_hole_is_reused_first() {
    let mut table: FdTable = FdTable::new();
    for i in 0..5 {
        assert_eq!(table.alloc_fd(MockFile::new(i)), i);
    }
    assert!(table.close(3));
    assert!(table.close(1));
    assert_eq!(table.alloc_fd(MockFile::new(10)), 1);
    assert_eq!(table.alloc_fd(MockFile::new(11)), 3);
    assert_eq!(table.alloc_fd(MockFile::new(12)), 5);
}

#[test]
fn get_follows_alloc_and_close_history() {
    let mut table: FdTable = FdTable::new();
    let a: Arc<dyn File> = MockFile::new(1);
    let b: Arc<dyn File> = MockFile::new(2);
    let fa = table.alloc_fd(a.clone());
    let fb = table.alloc_fd(b.clone());
    assert!(Arc::ptr_eq(&table.get(fa).unwrap(), &a));
    assert!(table.close(fa));
    assert!(table.get(fa).is_none());
    assert!(Arc::ptr_eq(&table.get(fb).unwrap(), &b));
    let fc = table.alloc_fd(b.clone());
    assert_eq!(fc, fa);
    assert!(Arc::ptr_eq(&table.get(fc).unwrap(), &b));
}
