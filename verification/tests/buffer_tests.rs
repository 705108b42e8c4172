use hproxy_core::buffer::{Buffer, BufferMode};

#[test]
fn writes_then_flip_preserve_bytes_in_order() {
    let mut b = Buffer::new(8);
    assert_eq!(b.write(b"ab"), 2);
    assert_eq!(b.write(b"cde"), 3);
    b.flip();
    assert_eq!(b.mode_of(), BufferMode::Draining);
    assert_eq!(b.remaining(), 5);
    assert_eq!(b.drained_bytes(), b"abcde".to_vec());
}

#[test]
fn writes_truncate_at_capacity() {
    let mut b = Buffer::new(4);
    assert_eq!(b.write(b"abc"), 3);
    // only one byte of room is left; the rest is dropped and the caller
    // must apply backpressure
    assert_eq!(b.write(b"def"), 1);
    // a full buffer accepts nothing
    assert_eq!(b.write(b"g"), 0);
    b.flip();
    assert_eq!(b.drained_bytes(), b"abcd".to_vec());
}

#[test]
fn consume_advances_and_reset_empties() {
    let mut b = Buffer::new(8);
    b.write(b"abcdef");
    b.flip();
    b.consume(2);
    assert_eq!(b.drained_bytes(), b"cdef".to_vec());
    b.consume(4);
    assert_eq!(b.remaining(), 0);
    b.reset();
    assert_eq!(b.mode_of(), BufferMode::Accumulating);
    assert_eq!(b.remaining_space(), 8);
    // reopened for writing from scratch
    assert_eq!(b.write(b"xy"), 2);
    b.flip();
    assert_eq!(b.drained_bytes(), b"xy".to_vec());
}

#[test]
fn empty_flip_exposes_nothing() {
    let mut b = Buffer::new(4);
    b.flip();
    assert_eq!(b.remaining(), 0);
    assert_eq!(b.drained_bytes(), Vec::<u8>::new());
}
