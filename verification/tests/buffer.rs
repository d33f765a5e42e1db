use embedded_mqttc::buffer::{new_stack_buffer, Buffer, BufferError};

#[test]
fn test_std_write_high_cap() {
    let mut buf = Buffer::new(vec![0u8; 8]);

    let n = buf.write_base(&[3, 4, 5]).unwrap();
    assert_eq!(n, 3);

    assert_eq!(buf.read_position(), 0);
    assert_eq!(buf.write_position(), 3);

    let b = buf.into_inner();
    assert_eq!(&b[..], &[3, 4, 5, 0, 0, 0, 0, 0]);
}

#[test]
fn test_std_write_low_cap() {
    let mut buf = Buffer::new(vec![0u8; 4]);

    let n = buf.write_base(&[1, 2, 3, 4, 5, 6]).unwrap();

    assert_eq!(n, 4);

    assert_eq!(buf.read_position(), 0);
    assert_eq!(buf.write_position(), 4);

    let b = buf.into_inner();
    assert_eq!(&b[..], &[1, 2, 3, 4]);
}

#[test]
fn test_shift() {
    let mut buf = Buffer::with_positions(vec![0, 1, 2, 3, 4, 5, 6, 7], 4, 8);

    buf.shift();

    assert_eq!(buf.read_position(), 0);
    assert_eq!(buf.write_position(), 4);

    let b = buf.into_inner();
    assert_eq!(&b[0..4], &[4, 5, 6, 7]);
}

#[test]
fn test_write_dead_cap() {
    let mut buf = Buffer::new(vec![0u8; 8]);

    // Write the buffer full
    let n = buf.write_base(&[1, 2, 3, 4, 5, 6, 7, 8]).unwrap();
    assert_eq!(n, 8);

    // Read half
    let mut tgt = [0u8; 4];
    let n = buf.read_base(&mut tgt[..]).unwrap();
    assert_eq!(n, 4);
    assert_eq!(&tgt, &[1, 2, 3, 4]);
    assert_eq!(buf.read_position(), 4);
    assert_eq!(buf.write_position(), 8);

    // Now 4 Bytes write should be ok
    let n = buf.write_base(&[10, 20, 30, 40]).unwrap();
    assert_eq!(n, 4);
    assert_eq!(buf.read_position(), 0);
    assert_eq!(buf.write_position(), 8);

    let b = buf.into_inner();
    assert_eq!(&b[..], &[5, 6, 7, 8, 10, 20, 30, 40]);
}

#[test]
fn test_multi_write() {
    let mut buf = Buffer::new(vec![0u8; 4]);

    buf.write_base(&[0]).unwrap();
    buf.write_base(&[1]).unwrap();
    buf.write_base(&[2]).unwrap();
    buf.write_base(&[3]).unwrap();

    let b = buf.into_inner();
    assert_eq!(&b[..], &[0, 1, 2, 3]);
}

#[test]
fn test_stack_buffer() {
    let mut buf = new_stack_buffer(4);

    buf.write_base(&[1, 2, 3, 4]).unwrap();
}

#[test]
fn test_skip_success() {
    let mut buf = Buffer::new(vec![0u8; 4]);

    buf.write_base(&[4, 4, 4, 4]).unwrap();
    assert_eq!(buf.read_position(), 0);
    assert_eq!(buf.write_position(), 4);

    buf.skip(2).unwrap();
    assert_eq!(buf.read_position(), 2);
    assert_eq!(buf.write_position(), 4);
}

#[test]
fn test_skip_fail() {
    let mut buf = Buffer::new(vec![0u8; 8]);

    buf.write_base(&[4, 4, 4, 4]).unwrap();
    assert_eq!(buf.read_position(), 0);
    assert_eq!(buf.write_position(), 4);

    let res = buf.skip(5);
    assert_eq!(res, Err(BufferError::NoData));
}

#[test]
fn buffer_write_into_full_buffer_fails() {
    let mut buf = Buffer::new(vec![0u8; 2]);
    assert_eq!(buf.write_base(&[1, 2]), Ok(2));
    assert_eq!(buf.write_base(&[3]), Err(BufferError::NoCapacity));
}

#[test]
fn buffer_empty_slices_are_refused() {
    let mut buf = Buffer::new(vec![0u8; 2]);
    assert_eq!(buf.write_base(&[]), Err(BufferError::ProvidedSliceEmpty));
    let mut empty: [u8; 0] = [];
    assert_eq!(buf.read_base(&mut empty[..]), Err(BufferError::ProvidedSliceEmpty));
}

#[test]
fn buffer_read_from_empty_buffer_reports_no_data() {
    let mut buf = Buffer::new(vec![0u8; 2]);
    let mut tgt = [0u8; 2];
    assert_eq!(buf.read_base(&mut tgt[..]), Err(BufferError::NoData));
    assert_eq!(tgt, [0u8; 2]);
}

#[test]
fn buffer_read_gives_back_what_was_written() {
    let mut buf = Buffer::new(vec![0u8; 6]);
    buf.write_base(&[9, 8, 7]).unwrap();
    let mut tgt = [0u8; 6];
    let n = buf.read_base(&mut tgt[..]).unwrap();
    assert_eq!(n, 3);
    assert_eq!(&tgt[..3], &[9, 8, 7]);
    assert!(!buf.has_remaining_len());
}

#[test]
fn buffer_counts_capacity_and_length() {
    let mut buf = Buffer::new(vec![0u8; 8]);
    assert_eq!(buf.capacity(), 8);
    buf.write_base(&[1, 2, 3, 4, 5]).unwrap();
    assert_eq!(buf.remaining_capacity(), 3);
    assert_eq!(buf.remaining_len(), 5);
    buf.skip(2).unwrap();
    assert!(buf.has_dead_capacity());
    assert_eq!(buf.data(), &[3, 4, 5]);
    buf.reset();
    assert_eq!(buf.read_position(), 0);
    assert_eq!(buf.write_position(), 0);
}

#[test]
fn buffer_push_all_or_nothing() {
    let mut buf = Buffer::new(vec![0u8; 4]);
    assert_eq!(buf.push(&[1, 2, 3]), Ok(()));
    assert!(buf.push(&[4, 5]).is_err());
    assert_eq!(buf.data(), &[1, 2, 3]);
}
