use okane::buffer::RollingBuffer;

#[test]
fn test_rolling_buffer_before_wrap() {
    let mut buffer: RollingBuffer<u32> = RollingBuffer::new(3);
    assert_eq!(buffer.last(), None);
    assert_eq!(buffer.to_vec(), Vec::<u32>::new());
    buffer.push(1);
    buffer.push(2);
    assert_eq!(buffer.last(), Some(2));
    assert_eq!(buffer.to_vec(), vec![1, 2]);
}

#[test]
fn test_rolling_buffer_oldest_first_after_wrap() {
    let mut buffer: RollingBuffer<u32> = RollingBuffer::new(3);
    buffer.push(1);
    buffer.push(2);
    buffer.push(3);
    buffer.push(4);
    buffer.push(5);
    assert_eq!(buffer.to_vec(), vec![3, 4, 5]);
    assert_eq!(buffer.last(), Some(5));
    buffer.push(6);
    assert_eq!(buffer.to_vec(), vec![4, 5, 6]);
}
