use parch_kernel::fs::pipes::{new_pipe, PipeBuffer, PipeReadOutcome};
use parch_kernel::fs::ring_buffer::RingBufferInner;

#[test]
fn pipe_bytes_come_out_in_order() {
    let (r, mut w) = new_pipe();
    assert_eq!(w.write(vec![1, 2, 3]), Ok(3));
    assert_eq!(w.write(vec![4]), Ok(1));
    assert_eq!(w.buffer.byte_count(), 4);
    match r.read_step(Some(&mut w.buffer), 2) {
        PipeReadOutcome::Data(v) => assert_eq!(v, vec![1, 2]),
        _ => panic!("no data"),
    }
    match r.read_step(Some(&mut w.buffer), 5) {
        PipeReadOutcome::Wait => {},
        _ => panic!("read more than was written"),
    }
    match r.read_step(Some(&mut w.buffer), 2) {
        PipeReadOutcome::Data(v) => assert_eq!(v, vec![3, 4]),
        _ => panic!("no data"),
    }
    assert_eq!(w.buffer.byte_count(), 0);
    assert!(matches!(r.read_step(None, 1), PipeReadOutcome::Broken));
}

#[test]
fn ring_buffer_wraps() {
    let mut ring: RingBufferInner<4> = RingBufferInner::new();
    assert_eq!(ring.len(), 0);
    assert_eq!(ring.pop(), None);
    ring.tail = 3;
    ring.head = 3;
    ring.buf[3] = 7;
    ring.tail = 0;
    assert_eq!(ring.len(), 1);
    assert_eq!(ring.pop(), Some(7));
    // popping moves the head on without wrapping it
    assert_eq!(ring.head, 4);
    assert_eq!(ring.len(), 0);
}

#[test]
fn new_ring_never_holds_a_byte() {
    let mut ring: RingBufferInner<8> = RingBufferInner::new();
    for _ in 0..3 {
        assert_eq!(ring.push(&[1, 2, 3]), 0);
        assert_eq!(ring.len(), 0);
        assert_eq!(ring.pop(), None);
        let mut out = [0u8; 4];
        assert_eq!(ring.pop_x(&mut out), 0);
        assert_eq!((ring.head, ring.tail), (0, 0));
    }
}

#[test]
fn byte_count_is_written_less_read() {
    let mut p = PipeBuffer::new();
    let (mut written, mut read) = (0usize, 0usize);
    for (data, take) in [(vec![1u8, 2, 3], 2usize), (vec![4], 5), (vec![5, 6, 7, 8], 3)] {
        written += data.len();
        p.write(data);
        assert_eq!(p.byte_count(), written - read);
        if let Some(v) = p.read(take) {
            read += v.len();
        }
        assert_eq!(p.byte_count(), written - read);
    }
    assert_eq!((written, read), (8, 5));
}
