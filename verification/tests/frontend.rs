use gdelta::frontend::{
    detect_compression, estimate_decode_memory, estimate_encode_memory, resolve_compression,
    Compression, LZ4_MAGIC, ZSTD_MAGIC,
};

#[test]
fn magic_bytes_announce_the_compression() {
    assert_eq!(detect_compression(&[0x28, 0xB5, 0x2F, 0xFD]), Compression::Zstd);
    assert_eq!(detect_compression(&[0x28, 0xB5, 0x2F, 0xFD, 0, 1, 2]), Compression::Zstd);
    assert_eq!(detect_compression(&[0x04, 0x22, 0x4D, 0x18, 9]), Compression::Lz4);
    assert_eq!(detect_compression(&ZSTD_MAGIC), Compression::Zstd);
    assert_eq!(detect_compression(&LZ4_MAGIC), Compression::Lz4);
}

#[test]
fn anything_else_is_a_raw_delta() {
    assert_eq!(detect_compression(&[]), Compression::Raw);
    assert_eq!(detect_compression(&[0x28, 0xB5, 0x2F]), Compression::Raw);
    assert_eq!(detect_compression(&[0x28, 0xB5, 0x2F, 0xFC]), Compression::Raw);
    assert_eq!(detect_compression(&[0x04, 0x22, 0x4D]), Compression::Raw);
    assert_eq!(detect_compression(&[0x18, 0x4D, 0x22, 0x04]), Compression::Raw);
    assert_eq!(detect_compression(&[0x00, 0x28, 0xB5, 0x2F, 0xFD]), Compression::Raw);
    let delta = gdelta::encode(b"some new data", b"some base data").unwrap();
    assert_eq!(detect_compression(&delta), Compression::Raw);
}

#[test]
fn a_named_compression_overrides_the_magic_bytes() {
    let zstd = [0x28, 0xB5, 0x2F, 0xFD, 0];
    assert_eq!(resolve_compression(&zstd, None), Compression::Zstd);
    assert_eq!(resolve_compression(&zstd, Some(Compression::Raw)), Compression::Raw);
    assert_eq!(resolve_compression(&zstd, Some(Compression::Lz4)), Compression::Lz4);
    assert_eq!(resolve_compression(&[1, 2, 3], None), Compression::Raw);
    assert_eq!(resolve_compression(&[1, 2, 3], Some(Compression::Zstd)), Compression::Zstd);
}

#[test]
fn memory_estimates_add_a_fifth_of_the_base() {
    assert_eq!(estimate_encode_memory(0, 0), 0);
    assert_eq!(estimate_encode_memory(1000, 300), 1000 + 300 + 300 + 200);
    assert_eq!(estimate_encode_memory(4, 1), 6);
    assert_eq!(estimate_encode_memory(5, 1), 8);
    assert_eq!(estimate_decode_memory(1000, 300), 1000 + 300 + 1000 + 200);
    assert_eq!(estimate_decode_memory(9, 0), 19);
    assert_eq!(estimate_decode_memory(0, 77), 77);
}
