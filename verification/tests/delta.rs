use gdelta::buffer::BufferStream;
use gdelta::delta::{
    calculate_hash_bits, decode, encode, encode_middle_section, encode_trivial_case, extend_match,
    finalize_delta, find_common_prefix, find_common_suffix,
};
use gdelta::gear::build_hash_table;
use gdelta::varint::{read_delta_unit, read_varint, DeltaUnit};

fn units_of(delta: &[u8]) -> (Vec<DeltaUnit>, Vec<u8>) {
    let mut stream = BufferStream::from_slice(delta);
    let length = read_varint(&mut stream).unwrap() as usize;
    let end = stream.position() + length;
    let mut units = Vec::new();
    while stream.position() < end {
        units.push(read_delta_unit(&mut stream).unwrap());
    }
    assert_eq!(stream.position(), end);
    (units, delta[end..].to_vec())
}

#[test]
fn test_find_common_prefix() {
    let a = b"Hello, World!";
    let b = b"Hello, Rust!";
    assert_eq!(find_common_prefix(a, b), 7);
}

#[test]
fn test_find_common_suffix() {
    let a = b"Hello, World!";
    let b = b"Howdy, World!";
    // Common suffix is ", World!" which is 8 characters
    assert_eq!(find_common_suffix(a, b, 0), 8);
}

#[test]
fn test_encode_decode_simple() {
    let base = b"The quick brown fox jumps over the lazy dog";
    let new = b"The quick brown cat jumps over the lazy dog";

    let delta = encode(new, base).unwrap();
    let decoded = decode(&delta[..], base).unwrap();

    assert_eq!(decoded, new);
}

#[test]
fn delta_test_encode_decode_identical() {
    let data = b"Same data on both sides";

    let delta = encode(data, data).unwrap();
    let decoded = decode(&delta[..], data).unwrap();

    assert_eq!(decoded, data);
    // Delta should be very small for identical data
    assert!(delta.len() < 20);
}

#[test]
fn delta_test_encode_decode_empty() {
    let base = b"Some base data";
    let new = b"";

    let delta = encode(new, base).unwrap();
    let decoded = decode(&delta[..], base).unwrap();

    assert_eq!(decoded, new);
}

#[test]
fn common_prefix_at_every_chunk_boundary() {
    let a: Vec<u8> = (0..100u8).collect();
    for cut in 0..100usize {
        let mut b = a.clone();
        b[cut] ^= 0xFF;
        assert_eq!(find_common_prefix(&a, &b), cut);
        assert_eq!(find_common_prefix(&b, &a), cut);
        assert_eq!(find_common_prefix(&a[..cut], &a), cut);
    }
    assert_eq!(find_common_prefix(&a, &a), 100);
    assert_eq!(find_common_prefix(&a, &[]), 0);
}

#[test]
fn common_suffix_at_every_chunk_boundary() {
    let a: Vec<u8> = (0..100u8).collect();
    for cut in 0..100usize {
        let mut b = a.clone();
        b[99 - cut] ^= 0xFF;
        assert_eq!(find_common_suffix(&a, &b, 0), cut);
        assert_eq!(find_common_suffix(&a[99 - cut..], &b, 0), cut);
    }
    assert_eq!(find_common_suffix(&a, &a, 0), 100);
    assert_eq!(find_common_suffix(&a, &a, 30), 70);
    assert_eq!(find_common_suffix(&a, &a, 100), 0);
    assert_eq!(find_common_suffix(&a, &a[40..], 10), 50);
}

#[test]
fn extend_match_counts_the_window_and_what_follows() {
    let new: Vec<u8> = (0..80u8).collect();
    let mut base = vec![0xEEu8; 4];
    base.extend_from_slice(&new);
    for cut in 8..80usize {
        let mut changed = base.clone();
        changed[4 + cut] ^= 1;
        assert_eq!(extend_match(&new, &changed, 0, 4, 80, 84), cut);
    }
    assert_eq!(extend_match(&new, &base, 0, 4, 80, 84), 80);
    assert_eq!(extend_match(&new, &base, 0, 4, 50, 84), 50);
    assert_eq!(extend_match(&new, &base, 0, 4, 80, 40), 36);
    assert_eq!(extend_match(&new, &base, 10, 14, 18, 84), 8);
}

#[test]
fn hash_bits_round_the_logarithm_up() {
    assert_eq!(calculate_hash_bits(0), 4);
    assert_eq!(calculate_hash_bits(6), 4);
    assert_eq!(calculate_hash_bits(7), 5);
    assert_eq!(calculate_hash_bits(22), 5);
    assert_eq!(calculate_hash_bits(23), 6);
    assert_eq!(calculate_hash_bits(1014), 10);
    assert_eq!(calculate_hash_bits(1015), 11);
    assert_eq!(calculate_hash_bits(99_553), 17);
    if usize::BITS >= 64 {
        assert_eq!(calculate_hash_bits((1usize << 31) - 10), 31);
        assert_eq!(calculate_hash_bits((1usize << 31) - 9), 32);
        assert_eq!(calculate_hash_bits(usize::MAX), 32);
    } else {
        assert_eq!(calculate_hash_bits(usize::MAX), 31);
    }
}

#[test]
fn fox_and_cat_delta_is_prefix_literal_suffix() {
    let base = b"The quick brown fox jumps over the lazy dog";
    let new = b"The quick brown cat jumps over the lazy dog";
    let delta = encode(new, base).unwrap();
    assert_eq!(
        delta,
        vec![5, 0x90, 0x00, 0x03, 0x98, 0x13, b'c', b'a', b't']
    );
    assert!(delta.len() < new.len());
    let (units, literals) = units_of(&delta);
    assert_eq!(
        units,
        vec![DeltaUnit::copy(0, 16), DeltaUnit::literal(3), DeltaUnit::copy(19, 24)]
    );
    assert_eq!(literals, b"cat");
    assert!(units.iter().any(|unit| unit.is_copy));
    assert!(units.iter().any(|unit| !unit.is_copy));
    assert_eq!(decode(&delta, base).unwrap(), new);
}

#[test]
fn identical_data_is_one_copy() {
    let data = b"Same data on both sides";
    let delta = encode(data, data).unwrap();
    assert_eq!(delta, vec![2, 0x80 | 23, 0x00]);
    assert!(delta.len() <= 20);
}

#[test]
fn identity_delta_stays_short() {
    for len in [0usize, 1, 7, 8, 9, 15, 16, 17, 63, 64, 1000, 70_000, 1 << 20] {
        let data: Vec<u8> = (0..len).map(|i| (i * 7 + i / 251) as u8).collect();
        let delta = encode(&data, &data).unwrap();
        assert!(delta.len() <= 17);
        assert_eq!(decode(&delta, &data).unwrap(), data);
        if len >= 16 {
            let (units, literals) = units_of(&delta);
            assert_eq!(units, vec![DeltaUnit::copy(0, len as u64)]);
            assert!(literals.is_empty());
        }
    }
}

#[test]
fn suffix_copy_points_at_the_end_of_the_base() {
    let base = b"Start is different. Common ending.";
    let new = b"Beginning differs. Common ending.";
    let delta = encode(new, base).unwrap();
    assert_eq!(decode(&delta, base).unwrap(), new);
    let (units, _) = units_of(&delta);
    let last = units[units.len() - 1];
    assert_eq!(last, DeltaUnit::copy(base.len() as u64 - 16, 16));
    assert_eq!(
        &base[last.offset as usize..(last.offset + last.length) as usize],
        b". Common ending."
    );
}

#[test]
fn prefix_copy_comes_first() {
    let base = b"Hello, World! This is a test.";
    let new = b"Hello, World! This is different.";
    let delta = encode(new, base).unwrap();
    let (units, _) = units_of(&delta);
    assert_eq!(units[0], DeltaUnit::copy(0, 22));
    assert!(delta.len() < new.len());
    assert_eq!(decode(&delta, base).unwrap(), new);
}

#[test]
fn short_common_ends_are_not_copied_as_such() {
    let base = b"0123456789abcde-X-0123456789abcde";
    let new = b"0123456789abcde+Y+0123456789abcde";
    let delta = encode(new, base).unwrap();
    let (units, _) = units_of(&delta);
    assert!(units[0] != DeltaUnit::copy(0, 15));
    assert_eq!(decode(&delta, base).unwrap(), new);
}

#[test]
fn trailing_copy_of_a_covered_base_is_taken_from_the_base() {
    // Prefix and suffix cover the base, and the new blob is longer.
    let base = b"AAAAAAAAAAAAAAAABBBBBBBBBBBBBBBBB";
    let new = b"AAAAAAAAAAAAAAAA-inserted-BBBBBBBBBBBBBBBBB";
    let delta = encode(new, base).unwrap();
    let (units, literals) = units_of(&delta);
    assert_eq!(
        units,
        vec![DeltaUnit::copy(0, 16), DeltaUnit::literal(10), DeltaUnit::copy(16, 17)]
    );
    assert_eq!(literals, b"-inserted-");
    assert_eq!(decode(&delta, base).unwrap(), new);
}

#[test]
fn empty_inputs() {
    assert_eq!(encode(b"", b"").unwrap(), vec![0]);
    assert_eq!(encode(b"", b"Some base data").unwrap(), vec![0]);
    assert_eq!(decode(&[0], b"anything").unwrap(), b"");
    let delta = encode(b"new", b"").unwrap();
    assert_eq!(delta, vec![1, 0x03, b'n', b'e', b'w']);
    let new = b"Some new data here, longer than a window";
    let delta = encode(new, b"").unwrap();
    let (units, literals) = units_of(&delta);
    assert_eq!(units, vec![DeltaUnit::literal(new.len() as u64)]);
    assert_eq!(literals, new);
    assert_eq!(decode(&delta, b"").unwrap(), new);
}

#[test]
fn encode_is_deterministic() {
    let base: Vec<u8> = (0..5000u32).map(|i| (i * i % 253) as u8).collect();
    let mut new = base.clone();
    new[1234] ^= 0x40;
    new.extend_from_slice(b"tail");
    let first = encode(&new, &base).unwrap();
    let second = encode(&new, &base).unwrap();
    assert_eq!(first, second);
    let copy_of_new = new.clone();
    let copy_of_base = base.clone();
    assert_eq!(encode(&copy_of_new, &copy_of_base).unwrap(), first);
}

#[test]
fn units_of_a_delta_keep_the_invariants() {
    let base: Vec<u8> = (0..20_000u32).map(|i| (i % 256) as u8 ^ (i / 300) as u8).collect();
    let mut new = base.clone();
    for k in (0..new.len()).step_by(977) {
        new[k] = new[k].wrapping_add(3);
    }
    new.truncate(18_000);
    new.extend_from_slice(&base[500..900]);
    let delta = encode(&new, &base).unwrap();
    let (units, literals) = units_of(&delta);
    let mut total = 0u64;
    let mut literal_total = 0u64;
    let mut copies = 0;
    for (i, unit) in units.iter().enumerate() {
        assert!(unit.length >= 1);
        if unit.is_copy {
            copies += 1;
            assert!(unit.offset + unit.length <= base.len() as u64);
        } else {
            literal_total += unit.length;
            assert_eq!(unit.offset, 0);
            if i > 0 {
                assert!(units[i - 1].is_copy);
            }
        }
        total += unit.length;
    }
    assert_eq!(total, new.len() as u64);
    assert_eq!(literal_total, literals.len() as u64);
    assert!(copies > 1);
    assert!(delta.len() < new.len());
    assert_eq!(decode(&delta, &base).unwrap(), new);
}

#[test]
fn middle_section_finds_a_moved_block() {
    // The index is built by rolling from the start of the region, and the
    // scan rolls from the start of the new blob: after 64 bytes both see the
    // same 64 bytes behind them, and the block is found.
    let block: Vec<u8> = (0..200u32).map(|i| (i * 31 % 251) as u8).collect();
    let mut base = vec![0x11u8; 100];
    base.extend_from_slice(&block);
    base.extend_from_slice(&[0x22u8; 50]);
    let mut new = vec![0x33u8; 7];
    new.extend_from_slice(&block);
    new.extend_from_slice(&[0x44u8; 9]);

    let bits = calculate_hash_bits(base.len());
    let table = build_hash_table(&base, 0, base.len(), bits);
    assert_eq!(table.len(), 1usize << bits);
    let mut instructions = BufferStream::with_capacity(64);
    let mut literals = BufferStream::with_capacity(64);
    encode_middle_section(
        &new,
        &base,
        0,
        new.len(),
        base.len(),
        &table,
        64 - bits,
        &mut instructions,
        &mut literals,
    );
    let delta = finalize_delta(&instructions, &literals);
    let (units, data) = units_of(&delta);
    assert!(units.iter().any(|unit| unit.is_copy && unit.length >= 100));
    assert!(data.len() < 120);
    assert_eq!(decode(&delta, &base).unwrap(), new);
}

#[test]
fn middle_section_of_less_than_a_window_is_one_literal() {
    let new = b"abcdefg";
    let base = b"abcdefg and more";
    let table = build_hash_table(base, 0, base.len(), 5);
    let mut instructions = BufferStream::with_capacity(8);
    let mut literals = BufferStream::with_capacity(8);
    encode_middle_section(new, base, 2, 7, base.len(), &table, 59, &mut instructions, &mut literals);
    assert_eq!(instructions.as_slice(), &[0x05]);
    assert_eq!(literals.as_slice(), b"cdefg");
    let mut instructions = BufferStream::with_capacity(8);
    let mut literals = BufferStream::with_capacity(8);
    encode_middle_section(new, base, 3, 3, base.len(), &table, 59, &mut instructions, &mut literals);
    assert!(instructions.is_empty());
    assert!(literals.is_empty());
}

#[test]
fn trivial_case_emits_what_is_not_empty() {
    let new = b"0123456789";
    let base = b"01234789";
    let mut instructions = BufferStream::with_capacity(8);
    let mut literals = BufferStream::with_capacity(8);
    encode_trivial_case(new, base, 5, 3, &mut instructions, &mut literals);
    assert_eq!(instructions.as_slice(), &[0x85, 0x00, 0x02, 0x83, 0x05]);
    assert_eq!(literals.as_slice(), b"56");
    let mut instructions = BufferStream::with_capacity(8);
    let mut literals = BufferStream::with_capacity(8);
    encode_trivial_case(new, b"", 0, 0, &mut instructions, &mut literals);
    assert_eq!(instructions.as_slice(), &[0x0A]);
    assert_eq!(literals.as_slice(), new);
}

#[test]
fn finalize_prefixes_the_instruction_length() {
    let instructions = BufferStream::from_slice(&[0xAA; 130]);
    let literals = BufferStream::from_slice(&[1, 2, 3]);
    let delta = finalize_delta(&instructions, &literals);
    assert_eq!(delta.len(), 2 + 130 + 3);
    assert_eq!(&delta[..2], &[0x82, 0x01]);
    assert_eq!(&delta[2..132], &[0xAA; 130][..]);
    assert_eq!(&delta[132..], &[1, 2, 3]);
    let empty = BufferStream::with_capacity(0);
    assert_eq!(finalize_delta(&empty, &empty), vec![0]);
}
