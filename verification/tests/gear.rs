use gdelta::gear::{build_hash_table, compute_fingerprint, roll_fingerprint, GEAR, WORD_SIZE};

fn window_sum(data: &[u8], pos: usize) -> u64 {
    let mut sum = 0u64;
    for i in 0..8 {
        sum = sum.wrapping_add(GEAR[data[pos + i] as usize] << (7 - i));
    }
    sum
}

fn sample(len: usize) -> Vec<u8> {
    (0..len).map(|i| ((i * 37 + i / 7) % 256) as u8).collect()
}

#[test]
fn window_is_eight_bytes() {
    assert_eq!(WORD_SIZE, 8);
}

#[test]
fn gear_values_are_distinct() {
    assert_eq!(GEAR.len(), 256);
    let mut sorted = GEAR.to_vec();
    sorted.sort_unstable();
    sorted.dedup();
    assert_eq!(sorted.len(), 256);
}

#[test]
fn fingerprint_is_the_weighted_sum_of_the_window() {
    let data = sample(64);
    for pos in 0..=56 {
        assert_eq!(compute_fingerprint(&data, pos), window_sum(&data, pos));
    }
    let zeros = [0u8; 8];
    assert_eq!(compute_fingerprint(&zeros, 0), GEAR[0].wrapping_mul(255));
    let one = [0u8, 0, 0, 0, 0, 0, 0, 1];
    assert_eq!(
        compute_fingerprint(&one, 0),
        GEAR[0].wrapping_mul(254).wrapping_add(GEAR[1])
    );
}

#[test]
fn fingerprint_depends_on_the_window_only() {
    let a = sample(40);
    let mut b = vec![0xFFu8; 100];
    b[50..58].copy_from_slice(&a[10..18]);
    assert_eq!(compute_fingerprint(&a, 10), compute_fingerprint(&b, 50));
}

#[test]
fn roll_doubles_and_adds_the_gear_value() {
    assert_eq!(roll_fingerprint(0, 0), GEAR[0]);
    assert_eq!(roll_fingerprint(1, 5), GEAR[5].wrapping_add(2));
    assert_eq!(
        roll_fingerprint(u64::MAX, 200),
        GEAR[200].wrapping_add(u64::MAX - 1)
    );
    assert_eq!(roll_fingerprint(1 << 63, 7), GEAR[7]);
}

#[test]
fn rolled_fingerprint_carries_earlier_bytes() {
    let data = sample(200);
    let mut rolled = compute_fingerprint(&data, 0);
    for pos in 1..=192usize {
        rolled = roll_fingerprint(rolled, data[pos + 7]);
        // All bytes from the start of the scan weigh in, each doubled once for
        // every byte after it, until 64 bytes have followed it.
        let mut sum = 0u64;
        for j in 0..pos + 8 {
            let shift = pos + 7 - j;
            if shift < 64 {
                sum = sum.wrapping_add(GEAR[data[j] as usize] << shift);
            }
        }
        assert_eq!(rolled, sum);
    }
    // Two scans agree once each has 64 bytes behind it.
    let mut other = compute_fingerprint(&data, 30);
    for pos in 31..=30 + 56usize {
        other = roll_fingerprint(other, data[pos + 7]);
    }
    let mut first = compute_fingerprint(&data, 0);
    for pos in 1..=86usize {
        first = roll_fingerprint(first, data[pos + 7]);
    }
    assert_eq!(first, other);
}

#[test]
fn index_keeps_the_last_position_of_each_slot() {
    let data = sample(300);
    let bits = 6u32;
    let (start, end) = (20usize, 280usize);
    let table = build_hash_table(&data, start, end, bits);
    assert_eq!(table.len(), 64);
    let mut expected = vec![0u32; 64];
    let mut fingerprint = compute_fingerprint(&data, start);
    for pos in start..=end - 8 {
        if pos > start {
            fingerprint = roll_fingerprint(fingerprint, data[pos + 7]);
        }
        expected[(fingerprint >> (64 - bits)) as usize] = pos as u32;
    }
    assert_eq!(table, expected);
    assert!(table.iter().all(|&p| p == 0 || (20..=272).contains(&p)));
    assert!(table.iter().any(|&p| p == 272));
}

#[test]
fn index_of_a_region_without_a_window_is_empty() {
    let data = sample(30);
    assert_eq!(build_hash_table(&data, 5, 12, 4), vec![0u32; 16]);
    assert_eq!(build_hash_table(&data, 5, 5, 1), vec![0u32; 2]);
    let one = build_hash_table(&data, 5, 13, 4);
    assert_eq!(one.iter().filter(|&&p| p != 0).count(), 1);
    assert!(one.contains(&5));
}

#[test]
fn position_zero_reads_as_an_empty_slot() {
    let data = sample(8);
    assert_eq!(build_hash_table(&data, 0, 8, 3), vec![0u32; 8]);
}
