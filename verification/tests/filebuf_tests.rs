use hyper::filebuf::{FileBuffers, BUFFER_CAPACITY};
use hyper::fileio::options_for_mode;

fn buffers(mode: &str) -> FileBuffers {
    FileBuffers::new(options_for_mode(mode).unwrap())
}

#[test]
fn small_writes_wait_until_flushed() {
    let mut b = buffers("w");
    let plan = b.plan_write(b"hello");
    assert_eq!(plan.rewind, 0);
    assert!(plan.to_os.is_empty());
    let plan = b.plan_write(b" world");
    assert!(plan.to_os.is_empty());
    assert_eq!(b.pending_len(), 11);
    assert_eq!(b.take_pending(), b"hello world".to_vec());
    assert_eq!(b.pending_len(), 0);
}

#[test]
fn a_write_as_large_as_the_buffer_goes_out_behind_pending_bytes() {
    let mut b = buffers("w");
    b.plan_write(b"ab");
    let big = vec![7u8; BUFFER_CAPACITY];
    let plan = b.plan_write(&big);
    let mut expected = b"ab".to_vec();
    expected.extend_from_slice(&big);
    assert_eq!(plan.to_os, expected);
    assert_eq!(b.pending_len(), 0);
}

#[test]
fn an_overfilling_write_sends_the_pending_bytes_first() {
    let mut b = buffers("w");
    let first = vec![1u8; BUFFER_CAPACITY - 10];
    assert!(b.plan_write(&first).to_os.is_empty());
    let plan = b.plan_write(&[2u8; 20]);
    assert_eq!(plan.to_os, first);
    assert_eq!(b.take_pending(), vec![2u8; 20]);
}

#[test]
fn writing_gives_back_the_read_ahead() {
    let mut b = buffers("r+");
    assert!(b.needs_fill());
    b.refill(b"abcdef".to_vec());
    assert_eq!(b.take(2), b"ab".to_vec());
    assert_eq!(b.unread_len(), 4);
    let plan = b.plan_write(b"x");
    assert_eq!(plan.rewind, 4);
    assert!(plan.to_os.is_empty());
    assert_eq!(b.unread_len(), 0);
    assert_eq!(b.pending_len(), 1);
}

#[test]
fn take_hands_out_at_most_what_was_read_ahead() {
    let mut b = buffers("r");
    b.refill(b"xyz".to_vec());
    assert_eq!(b.take(10), b"xyz".to_vec());
    assert!(b.needs_fill());
    assert_eq!(b.take(3), Vec::<u8>::new());
}

#[test]
fn lines_are_split_at_the_first_break() {
    let mut b = buffers("r");
    b.refill(b"ab\ncd".to_vec());
    assert_eq!(b.take_line_part(), (b"ab".to_vec(), true));
    assert_eq!(b.take_line_part(), (b"cd".to_vec(), false));
    assert!(b.needs_fill());
}

#[test]
fn releasing_the_read_ahead_reports_how_far_to_rewind() {
    let mut b = buffers("r");
    b.refill(b"hello".to_vec());
    b.take(1);
    assert_eq!(b.release_read_ahead(), 4);
    assert!(b.needs_fill());
}

#[test]
fn closing_hands_over_pending_writes_once() {
    let mut b = buffers("a");
    b.plan_write(b"tail");
    assert_eq!(b.close(), Some(b"tail".to_vec()));
    assert!(b.is_closed());
    assert_eq!(b.close(), None);
    assert_eq!(b.check_open().unwrap_err(), "I/O operation on closed file");
}

#[test]
fn the_mode_decides_what_is_allowed() {
    let b = buffers("r");
    assert!(b.check_readable("r").is_ok());
    assert_eq!(b.check_writable("r").unwrap_err(), "file is not open for writing (mode 'r')");
    let w = buffers("w");
    assert_eq!(w.check_readable("w").unwrap_err(), "file is not open for reading (mode 'w')");
}
