use gdelta::buffer::BufferStream;
use gdelta::varint::{read_delta_unit, read_varint, write_delta_unit, write_varint, DeltaUnit};
use gdelta::GDeltaError;

#[test]
fn test_varint_encoding() {
    let mut buffer = BufferStream::with_capacity(10);

    write_varint(&mut buffer, 127);
    write_varint(&mut buffer, 128);
    write_varint(&mut buffer, 16383);

    buffer.set_position(0);

    assert_eq!(read_varint(&mut buffer).unwrap(), 127);
    assert_eq!(read_varint(&mut buffer).unwrap(), 128);
    assert_eq!(read_varint(&mut buffer).unwrap(), 16383);
}

#[test]
fn test_delta_unit_copy() {
    let mut buffer = BufferStream::with_capacity(20);

    let unit = DeltaUnit::copy(1000, 500);
    write_delta_unit(&mut buffer, &unit);

    buffer.set_position(0);

    let decoded = read_delta_unit(&mut buffer).unwrap();
    assert_eq!(decoded, unit);
}

#[test]
fn test_delta_unit_literal() {
    let mut buffer = BufferStream::with_capacity(20);

    let unit = DeltaUnit::literal(250);
    write_delta_unit(&mut buffer, &unit);

    buffer.set_position(0);

    let decoded = read_delta_unit(&mut buffer).unwrap();
    assert_eq!(decoded, unit);
}

#[test]
fn test_delta_unit_large_length() {
    let mut buffer = BufferStream::with_capacity(20);

    let unit = DeltaUnit::literal(100_000);
    write_delta_unit(&mut buffer, &unit);

    buffer.set_position(0);

    let decoded = read_delta_unit(&mut buffer).unwrap();
    assert_eq!(decoded, unit);
}

#[test]
fn varint_bytes_are_seven_bit_groups() {
    let cases: Vec<(u64, Vec<u8>)> = vec![
        (0, vec![0x00]),
        (1, vec![0x01]),
        (127, vec![0x7F]),
        (128, vec![0x80, 0x01]),
        (300, vec![0xAC, 0x02]),
        (16383, vec![0xFF, 0x7F]),
        (16384, vec![0x80, 0x80, 0x01]),
        (
            u64::MAX,
            vec![0xFF, 0xFF, 0xFF, 0xFF, 0xFF, 0xFF, 0xFF, 0xFF, 0xFF, 0x01],
        ),
    ];
    for (value, bytes) in cases {
        let mut buffer = BufferStream::with_capacity(10);
        write_varint(&mut buffer, value);
        assert_eq!(buffer.as_slice(), &bytes[..]);
        assert_eq!(buffer.position(), bytes.len());
    }
}

#[test]
fn varint_round_trip_consumes_what_was_written() {
    let values = [
        0u64,
        1,
        127,
        128,
        255,
        16383,
        16384,
        1 << 21,
        (1 << 35) + 17,
        1 << 56,
        (1 << 63) - 1,
        1 << 63,
        u64::MAX - 1,
        u64::MAX,
    ];
    for value in values {
        let mut buffer = BufferStream::with_capacity(16);
        buffer.write_u8(0xEE);
        write_varint(&mut buffer, value);
        let end = buffer.position();
        buffer.write_u8(0x55);
        buffer.set_position(1);
        assert_eq!(read_varint(&mut buffer), Ok(value));
        assert_eq!(buffer.position(), end);
    }
}

#[test]
fn varint_cut_short_is_unexpected_end() {
    let mut buffer = BufferStream::from_slice(&[0x80, 0x80]);
    assert_eq!(read_varint(&mut buffer), Err(GDeltaError::UnexpectedEndOfData));
    assert_eq!(buffer.position(), 2);
    let mut empty = BufferStream::from_slice(&[]);
    assert_eq!(read_varint(&mut empty), Err(GDeltaError::UnexpectedEndOfData));
    assert_eq!(empty.position(), 0);
}

#[test]
fn overlong_varint_keeps_the_low_64_bits() {
    // Ten groups fill 70 bits: the top six are dropped.
    let mut buffer =
        BufferStream::from_slice(&[0x81, 0x80, 0x80, 0x80, 0x80, 0x80, 0x80, 0x80, 0x80, 0x7F]);
    assert_eq!(read_varint(&mut buffer), Ok(1 | (1 << 63)));
    assert_eq!(buffer.position(), 10);
    // Groups past the tenth carry no bits that fit.
    let mut buffer = BufferStream::from_slice(&[
        0x85, 0x80, 0x80, 0x80, 0x80, 0x80, 0x80, 0x80, 0x80, 0x80, 0xFF, 0x7F, 0x09,
    ]);
    assert_eq!(read_varint(&mut buffer), Ok(5));
    assert_eq!(buffer.position(), 12);
}

#[test]
fn delta_unit_bytes_follow_the_head_layout() {
    let cases: Vec<(DeltaUnit, Vec<u8>)> = vec![
        (DeltaUnit::literal(1), vec![0x01]),
        (DeltaUnit::literal(63), vec![0x3F]),
        (DeltaUnit::literal(64), vec![0x40, 0x01]),
        (DeltaUnit::literal(250), vec![0x40 | 58, 0x03]),
        (DeltaUnit::copy(0, 16), vec![0x90, 0x00]),
        (DeltaUnit::copy(19, 24), vec![0x98, 0x13]),
        (DeltaUnit::copy(1000, 500), vec![0xC0 | 52, 0x07, 0xE8, 0x07]),
        (DeltaUnit::literal(0), vec![0x00]),
    ];
    for (unit, bytes) in cases {
        let mut buffer = BufferStream::with_capacity(20);
        write_delta_unit(&mut buffer, &unit);
        assert_eq!(buffer.as_slice(), &bytes[..]);
    }
}

#[test]
fn delta_unit_round_trip() {
    let lengths = [1u64, 2, 63, 64, 65, 4095, 4096, 100_000, (1 << 32) - 1, u64::MAX];
    let offsets = [0u64, 1, 127, 128, 70_000, (1 << 32) - 1, u64::MAX];
    for length in lengths {
        let literal = DeltaUnit::literal(length);
        let mut buffer = BufferStream::with_capacity(32);
        write_delta_unit(&mut buffer, &literal);
        let end = buffer.position();
        buffer.write_u8(0xAA);
        buffer.set_position(0);
        assert_eq!(read_delta_unit(&mut buffer), Ok(literal));
        assert_eq!(buffer.position(), end);
        for offset in offsets {
            let copy = DeltaUnit::copy(offset, length);
            let mut buffer = BufferStream::with_capacity(32);
            write_delta_unit(&mut buffer, &copy);
            let end = buffer.position();
            buffer.write_u8(0xAA);
            buffer.set_position(0);
            assert_eq!(read_delta_unit(&mut buffer), Ok(copy));
            assert_eq!(buffer.position(), end);
        }
    }
}

#[test]
fn literal_is_read_back_without_its_offset() {
    let unit = DeltaUnit { is_copy: false, length: 9, offset: 5 };
    let mut buffer = BufferStream::with_capacity(4);
    write_delta_unit(&mut buffer, &unit);
    assert_eq!(buffer.as_slice(), &[0x09]);
    buffer.set_position(0);
    assert_eq!(read_delta_unit(&mut buffer), Ok(DeltaUnit::literal(9)));
}

#[test]
fn delta_unit_cut_short_is_unexpected_end() {
    for bytes in [&[][..], &[0xC0][..], &[0xC5, 0x80][..], &[0x85][..], &[0xC5, 0x01][..]] {
        let mut buffer = BufferStream::from_slice(bytes);
        assert_eq!(read_delta_unit(&mut buffer), Err(GDeltaError::UnexpectedEndOfData));
        assert_eq!(buffer.position(), bytes.len());
    }
}

#[test]
fn constructors_set_the_fields() {
    assert_eq!(
        DeltaUnit::copy(7, 9),
        DeltaUnit { is_copy: true, length: 9, offset: 7 }
    );
    assert_eq!(
        DeltaUnit::literal(9),
        DeltaUnit { is_copy: false, length: 9, offset: 0 }
    );
}
