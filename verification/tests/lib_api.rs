use gdelta::{decode, encode};

#[test]
fn lib_test_encode_decode_identical() {
    let data = b"Hello, World!";
    let delta = encode(data, data).unwrap();
    let recovered = decode(&delta[..], data).unwrap();
    assert_eq!(recovered, data);
}

#[test]
fn test_encode_decode_different() {
    let base = b"The quick brown fox jumps over the lazy dog";
    let new = b"The quick brown cat jumps over the lazy dog";

    let delta = encode(new, base).unwrap();
    let recovered = decode(&delta[..], base).unwrap();
    assert_eq!(recovered, new);
}

#[test]
fn lib_test_encode_decode_empty() {
    let base = b"Some data";
    let new = b"";

    let delta = encode(new, base).unwrap();
    let recovered = decode(&delta[..], base).unwrap();
    assert_eq!(recovered, new);
}

#[test]
fn test_encode_decode_large() {
    let mut base = vec![0u8; 100_000];
    let mut new = vec![0u8; 100_000];

    // Fill with pattern
    for i in 0..base.len() {
        base[i] = (i % 256) as u8;
        new[i] = (i % 256) as u8;
    }

    // Make some changes
    for i in (0..new.len()).step_by(488) {
        if i < new.len() {
            new[i] = new[i].wrapping_add(1);
        }
    }

    let delta = encode(&new, &base).unwrap();
    let recovered = decode(&delta, &base).unwrap();
    assert_eq!(recovered, new);

    // Delta should be smaller than new data
    assert!(delta.len() < new.len());
}

#[test]
fn flipped_bits_in_a_large_blob() {
    let base: Vec<u8> = (0..100_000usize).map(|i| (i % 256) as u8).collect();
    let mut new = base.clone();
    for k in (0..new.len()).step_by(488) {
        new[k] ^= 1;
    }
    let delta = encode(&new, &base).unwrap();
    assert_eq!(decode(&delta, &base).unwrap(), new);
    assert!(delta.len() < new.len());
}

#[test]
fn result_alias_carries_the_codec_error() {
    let decoded: gdelta::Result<Vec<u8>> = decode(&[], b"");
    assert_eq!(decoded, Err(gdelta::GDeltaError::UnexpectedEndOfData));
    let encoded: gdelta::Result<Vec<u8>> = encode(b"", b"");
    assert_eq!(encoded, Ok(vec![0]));
}
