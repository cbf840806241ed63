use gdelta::buffer::BufferStream;
use gdelta::GDeltaError;

#[test]
fn test_buffer_read_write() {
    let mut buf = BufferStream::with_capacity(10);

    buf.write_u8(42);
    buf.write_bytes(&[1, 2, 3]);

    assert_eq!(buf.len(), 4);
    assert_eq!(buf.position(), 4);

    buf.set_position(0);

    assert_eq!(buf.read_u8().unwrap(), 42);
    assert_eq!(buf.read_bytes(3).unwrap(), &[1, 2, 3]);
}

#[test]
fn test_buffer_underflow() {
    let mut buf = BufferStream::from_slice(&[1, 2, 3]);

    assert_eq!(buf.read_u8().unwrap(), 1);
    assert_eq!(buf.read_bytes(2).unwrap(), &[2, 3]);
    assert!(buf.read_u8().is_err());
}

#[test]
fn failed_reads_leave_the_cursor() {
    let mut buf = BufferStream::from_vec(vec![9, 8, 7]);
    assert_eq!(buf.read_bytes(4), Err(GDeltaError::UnexpectedEndOfData));
    assert_eq!(buf.position(), 0);
    assert_eq!(buf.read_bytes(3).unwrap(), &[9, 8, 7]);
    assert_eq!(buf.position(), 3);
    assert_eq!(buf.read_u8(), Err(GDeltaError::UnexpectedEndOfData));
    assert_eq!(buf.position(), 3);
    assert_eq!(buf.read_bytes(0).unwrap(), &[] as &[u8]);
}

#[test]
fn cursor_past_the_end_reads_nothing() {
    let mut buf = BufferStream::from_slice(&[1, 2, 3]);
    buf.set_position(7);
    assert_eq!(buf.position(), 7);
    assert_eq!(buf.remaining(), 0);
    assert_eq!(buf.read_u8(), Err(GDeltaError::UnexpectedEndOfData));
    assert_eq!(buf.read_bytes(0), Err(GDeltaError::UnexpectedEndOfData));
    assert_eq!(buf.position(), 7);
    buf.set_position(usize::MAX);
    assert_eq!(buf.read_bytes(usize::MAX), Err(GDeltaError::UnexpectedEndOfData));
    assert_eq!(buf.remaining(), 0);
}

#[test]
fn remaining_counts_from_the_cursor() {
    let mut buf = BufferStream::from_slice(&[1, 2, 3, 4, 5]);
    assert_eq!(buf.remaining(), 5);
    buf.read_bytes(2).unwrap();
    assert_eq!(buf.remaining(), 3);
    assert!(!buf.is_empty());
    assert!(BufferStream::with_capacity(0).is_empty());
}

#[test]
fn peek_at_ignores_the_cursor() {
    let mut buf = BufferStream::from_slice(&[10, 20, 30, 40]);
    buf.set_position(3);
    assert_eq!(buf.peek_at(1, 2).unwrap(), &[20, 30]);
    assert_eq!(buf.peek_at(4, 0).unwrap(), &[] as &[u8]);
    assert_eq!(buf.peek_at(3, 2), Err(GDeltaError::UnexpectedEndOfData));
    assert_eq!(buf.peek_at(5, 0), Err(GDeltaError::UnexpectedEndOfData));
    assert_eq!(buf.peek_at(usize::MAX, 2), Err(GDeltaError::UnexpectedEndOfData));
    assert_eq!(buf.position(), 3);
}

#[test]
fn writes_append_and_advance_in_step() {
    let mut buf = BufferStream::from_slice(&[1, 2, 3]);
    buf.write_u8(4);
    assert_eq!(buf.as_slice(), &[1, 2, 3, 4]);
    assert_eq!(buf.position(), 1);
    buf.write_bytes(&[5, 6]);
    assert_eq!(buf.position(), 3);
    buf.reserve(100);
    assert_eq!(buf.position(), 3);
    assert_eq!(buf.into_vec(), vec![1, 2, 3, 4, 5, 6]);
}

#[test]
fn copy_from_appends_a_range_of_another_stream() {
    let source = BufferStream::from_slice(&[1, 2, 3, 4, 5]);
    let mut out = BufferStream::with_capacity(8);
    out.write_u8(0);
    assert_eq!(out.copy_from(&source, 1, 3), Ok(()));
    assert_eq!(out.as_slice(), &[0, 2, 3, 4]);
    assert_eq!(out.position(), 4);
    assert_eq!(out.copy_from(&source, 3, 3), Err(GDeltaError::UnexpectedEndOfData));
    assert_eq!(out.as_slice(), &[0, 2, 3, 4]);
    assert_eq!(out.position(), 4);
}

#[test]
fn append_from_cursor_consumes_the_source() {
    let mut source = BufferStream::from_slice(&[1, 2, 3, 4, 5]);
    let mut out = BufferStream::with_capacity(8);
    assert_eq!(out.append_from_cursor(&mut source, 2), Ok(()));
    assert_eq!(out.as_slice(), &[1, 2]);
    assert_eq!(source.position(), 2);
    assert_eq!(
        out.append_from_cursor(&mut source, 4),
        Err(GDeltaError::UnexpectedEndOfData)
    );
    assert_eq!(source.position(), 2);
    assert_eq!(out.as_slice(), &[1, 2]);
    assert_eq!(out.append_from_cursor(&mut source, 3), Ok(()));
    assert_eq!(out.as_slice(), &[1, 2, 3, 4, 5]);
    assert_eq!(source.remaining(), 0);
}
