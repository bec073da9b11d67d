use qsoripper::ring::RingBuffer;

#[test]
fn ring_buffer_keeps_the_most_recent_samples() {
    let mut ring: RingBuffer<f32> = RingBuffer::new(4);
    ring.push_slice(&[1.0, 2.0]);
    assert_eq!(ring.snapshot(), vec![1.0, 2.0]);
    ring.push_slice(&[3.0, 4.0, 5.0]);
    assert_eq!(ring.snapshot(), vec![2.0, 3.0, 4.0, 5.0]);
    ring.push_slice(&[6.0, 7.0, 8.0, 9.0, 10.0]);
    assert_eq!(ring.snapshot(), vec![7.0, 8.0, 9.0, 10.0]);
    assert_eq!(ring.len(), 4);
    assert_eq!(ring.written(), 10);
}

#[test]
fn ring_buffer_of_no_capacity_holds_nothing() {
    let mut ring: RingBuffer<u8> = RingBuffer::new(0);
    ring.push_slice(&[1, 2, 3]);
    assert_eq!(ring.len(), 0);
    assert_eq!(ring.written(), 3);
}

#[test]
fn split_writes_match_one_write() {
    let mut one: RingBuffer<u32> = RingBuffer::new(5);
    let mut two: RingBuffer<u32> = RingBuffer::new(5);
    one.push_slice(&[1, 2, 3, 4, 5, 6, 7]);
    two.push_slice(&[1, 2, 3]);
    two.push_slice(&[4, 5, 6, 7]);
    assert_eq!(one.snapshot(), two.snapshot());
}
