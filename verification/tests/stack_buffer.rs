use embedded_mqttc::stack_buffer::{BufferError, StackBuffer, StackBufferCell};

#[test]
fn test_write_to_end() {
    let mut buffer = StackBuffer::<4>::new();
    buffer.push(&[1, 2, 3, 4]).unwrap();

    assert_eq!(buffer.reaable_data(), &[1, 2, 3, 4]);

    assert_eq!(buffer.writeable_data().len(), 0);
}

#[test]
fn test_buffer_write_all() {
    let mut buffer = StackBuffer::<4>::new();
    let writeable = buffer.writeable_data();
    let writeable_len = writeable.len();
    buffer.commit_bytes_written(writeable_len).unwrap();
}

#[test]
fn stack_buffer_flip_moves_readable_bytes_to_front() {
    let mut buffer = StackBuffer::<4>::new();
    buffer.push(&[1, 2, 3, 4]).unwrap();
    buffer.add_bytes_read(2).unwrap();
    assert!(!buffer.is_max_len());
    // the write position is at the end: a write access flips first
    assert_eq!(buffer.writeable_data().len(), 2);
    assert_eq!(buffer.reaable_data(), &[3, 4]);
}

#[test]
fn stack_buffer_bounds_are_checked() {
    let mut buffer = StackBuffer::<4>::new();
    assert_eq!(buffer.commit_bytes_written(5), Err(BufferError::OutOfBounds));
    assert_eq!(buffer.add_bytes_read(1), Err(BufferError::OutOfBounds));
    assert_eq!(buffer.push(&[1, 2, 3, 4, 5]), Err(BufferError::OutOfBounds));
    assert!(buffer.is_max_capacity());
}

#[test]
fn stack_buffer_lengths() {
    let mut buffer = StackBuffer::<8>::new();
    assert_eq!(buffer.capacity(), 8);
    assert!(!buffer.has_remaining_len());
    buffer.push(&[1, 2, 3]).unwrap();
    assert!(buffer.has_remaining_len());
    assert_eq!(buffer.writeable_len(), 5);
    buffer.push(&[4, 5, 6, 7, 8]).unwrap();
    assert!(buffer.is_max_len());
    buffer.reset();
    assert!(!buffer.has_remaining_len());
    assert!(buffer.is_max_capacity());
}

#[test]
fn stack_buffer_cell_lends_its_buffer() {
    let mut cell = StackBufferCell::<4>::new();
    cell.borrow().push(&[7, 7]).unwrap();
    assert_eq!(cell.borrow().reaable_data(), &[7, 7]);
}
