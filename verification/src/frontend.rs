//! Decisions of the command-line tool that need neither input nor output.
//!
//! The tool reads files, asks the system for its memory and may wrap a delta
//! in a general-purpose compressor. What it decides from plain values alone
//! is decided here: how much memory a run is expected to take, and which
//! compressor a file on disk was written with.

use vstd::prelude::*;

verus! {

/// The outer compression of a delta file.
#[derive(Debug, Clone, Copy, PartialEq, Eq, Structural)]
pub enum Compression {
    /// The delta as it is.
    Raw,
    /// A Zstandard frame.
    Zstd,
    /// An LZ4 frame.
    Lz4,
}

/// The four bytes that a Zstandard frame starts with.
pub const ZSTD_MAGIC: [u8; 4] = [0x28, 0xB5, 0x2F, 0xFD];

/// The four bytes that an LZ4 frame starts with.
pub const LZ4_MAGIC: [u8; 4] = [0x04, 0x22, 0x4D, 0x18];

/// Whether `data` begins with the four bytes of `magic`.
pub open spec fn starts_with(data: Seq<u8>, magic: [u8; 4]) -> bool {
    data.len() >= 4 && data[0] == magic[0] && data[1] == magic[1] && data[2] == magic[2]
        && data[3] == magic[3]
}

/// The compression that the first bytes of `data` announce: none unless
/// they are the magic bytes of a Zstandard or an LZ4 frame.
pub open spec fn announced_compression(data: Seq<u8>) -> Compression {
    if starts_with(data, ZSTD_MAGIC) {
        Compression::Zstd
    } else if starts_with(data, LZ4_MAGIC) {
        Compression::Lz4
    } else {
        Compression::Raw
    }
}

fn has_magic(data: &[u8], magic: &[u8; 4]) -> (found: bool)
    ensures
        found == starts_with(data@, *magic),
{
    data.len() >= 4 && data[0] == magic[0] && data[1] == magic[1] && data[2] == magic[2]
        && data[3] == magic[3]
}

/// Tells from its first bytes how `data` is compressed.
pub fn detect_compression(data: &[u8]) -> (format: Compression)
    ensures
        format == announced_compression(data@),
{
    if has_magic(data, &ZSTD_MAGIC) {
        Compression::Zstd
    } else if has_magic(data, &LZ4_MAGIC) {
        Compression::Lz4
    } else {
        Compression::Raw
    }
}

/// The compression to undo before decoding `data`: the one that the caller
/// names, or else the one that the data announces.
pub fn resolve_compression(data: &[u8], format_override: Option<Compression>) -> (format:
    Compression)
    ensures
        format == match format_override {
            Some(named) => named,
            None => announced_compression(data@),
        },
{
    match format_override {
        Some(named) => named,
        None => detect_compression(data),
    }
}

/// The memory that encoding is expected to take, in bytes: the base, the new
/// file, a delta as large as the new file, and a fifth of the base on top.
pub fn estimate_encode_memory(base_size: u64, new_size: u64) -> (bytes: u64)
    requires
        base_size + new_size + new_size + base_size / 5 <= u64::MAX,
    ensures
        bytes == base_size + new_size + new_size + base_size / 5,
{
    base_size + new_size + new_size + (base_size / 5)
}

/// The memory that decoding is expected to take, in bytes: the base, the
/// delta, an output as large as the base, and a fifth of the base on top.
pub fn estimate_decode_memory(base_size: u64, delta_size: u64) -> (bytes: u64)
    requires
        base_size + delta_size + base_size + base_size / 5 <= u64::MAX,
    ensures
        bytes == base_size + delta_size + base_size + base_size / 5,
{
    base_size + delta_size + base_size + (base_size / 5)
}

} // verus!
