use gdelta::{decode, encode};

fn noise(len: usize, seed: u64) -> Vec<u8> {
    let mut state = seed;
    (0..len)
        .map(|_| {
            state = state.wrapping_mul(6364136223846793005).wrapping_add(1442695040888963407);
            (state >> 56) as u8
        })
        .collect()
}

fn check(new: &[u8], base: &[u8]) -> usize {
    let delta = encode(new, base).unwrap();
    assert_eq!(decode(&delta, base).unwrap(), new);
    delta.len()
}

#[test]
fn round_trip_of_short_blobs() {
    for new_len in 0..40usize {
        for base_len in 0..40usize {
            let new = noise(new_len, 1);
            let base = noise(base_len, 1);
            check(&new, &base);
            check(&new, &noise(base_len, 2));
            check(&vec![7u8; new_len], &vec![7u8; base_len]);
        }
    }
}

#[test]
fn round_trip_of_unrelated_blobs() {
    let new = noise(3000, 11);
    let base = noise(4000, 12);
    let size = check(&new, &base);
    assert!(size >= new.len());
    check(&base, &new);
}

#[test]
fn round_trip_with_insertions_and_deletions() {
    let base = noise(10_000, 5);
    let mut new = Vec::new();
    new.extend_from_slice(&base[..3000]);
    new.extend_from_slice(b"an insertion in the middle of the blob");
    new.extend_from_slice(&base[3500..7000]);
    new.extend_from_slice(&base[100..400]);
    new.extend_from_slice(&base[7000..]);
    let size = check(&new, &base);
    assert!(size < 600);
    check(&base, &new);
}

#[test]
fn round_trip_of_repetitive_blobs() {
    let base: Vec<u8> = (0..5000usize).map(|i| (i % 3) as u8).collect();
    let new: Vec<u8> = (0..5000usize).map(|i| ((i + 1) % 3) as u8).collect();
    check(&new, &base);
    check(&vec![0u8; 4096], &vec![0u8; 1024]);
    check(&vec![0u8; 1024], &vec![0u8; 4096]);
    check(&vec![0u8; 4096], &vec![1u8; 4096]);
}

#[test]
fn round_trip_when_only_the_ends_are_shared() {
    let head = noise(200, 21);
    let tail = noise(300, 22);
    let mut base = head.clone();
    base.extend_from_slice(&noise(50, 23));
    base.extend_from_slice(&tail);
    let mut new = head.clone();
    new.extend_from_slice(&noise(70, 24));
    new.extend_from_slice(&tail);
    let size = check(&new, &base);
    assert!(size < 100);
    // The new blob is the two ends alone.
    let mut joined = head.clone();
    joined.extend_from_slice(&tail);
    check(&joined, &base);
    check(&base, &joined);
    // Prefix and suffix would overlap in the new blob.
    check(&head, &[&head[..], &head[..]].concat());
    check(&[&head[..], &head[..]].concat(), &head);
}
