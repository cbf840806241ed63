//! The delta encoder and decoder.
//!
//! A delta is a varint with the length of the instruction stream, the
//! instruction stream, and the literal data. The instruction stream is a
//! row of delta units; executed in order against the base, with literals
//! taken from the literal data, they yield the new blob.
//!
//! What the encoder emits is defined by [`encode_units`], and what the
//! decoder makes of any bytes by [`decode_spec`].

use crate::buffer::{BufferStream, INIT_BUFFER_SIZE};
use crate::error::{decimal_digits, decimal_string, GDeltaError};
use crate::gear::{
    build_hash_table, compute_fingerprint, fingerprint_from, fingerprint_index, fingerprint_rolls,
    index_after_len, roll_fingerprint, slot_in_range, slot_of, window_count, WORD_SIZE,
};
use crate::laws::round_trip;
use crate::run::{
    backward_run, chunk8_equal, forward_run, match_run, match_run_back,
    match_run_back_is_longest, match_run_bounded, match_run_is_longest, min,
};
use crate::units::{
    copy_unit, literal_data, literal_data_concat, optional_copy, optional_copy_data,
    pending_literal, pending_literal_data, single_unit, units_bytes, units_bytes_concat,
    units_span, units_span_concat,
};
use crate::varint::{
    read_delta_unit, read_varint, unit_parse, unit_parse_end, varint_bytes, varint_parse,
    varint_scan_end, write_delta_unit, write_varint, DeltaUnit,
};
use vstd::arithmetic::power2::{lemma2_to64, lemma_pow2_strictly_increases, lemma_pow2_unfold, pow2};
use vstd::prelude::*;

verus! {

/// The shortest common prefix or suffix that is turned into a copy of its
/// own.
pub const MIN_MATCH_LENGTH: usize = 16;

/// The length of the prefix that the encoder copies: the longest common
/// prefix of the two blobs if it has at least `MIN_MATCH_LENGTH` bytes, else
/// nothing.
pub open spec fn prefix_length(new: Seq<u8>, base: Seq<u8>) -> int {
    let run = match_run(new, 0, base, 0, min(new.len() as int, base.len() as int));
    if run >= MIN_MATCH_LENGTH {
        run as int
    } else {
        0
    }
}

/// The length of the suffix that the encoder copies: the longest common
/// suffix of what the prefix leaves of either blob if it has at least
/// `MIN_MATCH_LENGTH` bytes, else nothing.
pub open spec fn suffix_length(new: Seq<u8>, base: Seq<u8>) -> int {
    let prefix = prefix_length(new, base);
    let run = match_run_back(
        new,
        new.len() as int,
        base,
        base.len() as int,
        min(new.len() - prefix, base.len() - prefix),
    );
    if run >= MIN_MATCH_LENGTH {
        run as int
    } else {
        0
    }
}

/// The number of slots of the index, as a power of two, for an indexable
/// region of `size` bytes when the search starts at `bits`: the first
/// exponent from `bits` on whose power reaches `size + 10`, but no more than
/// `limit`.
pub open spec fn hash_bits_from(size: nat, bits: u32, limit: u32) -> u32
    decreases limit - bits,
{
    if bits >= limit || pow2(bits as nat) >= size + 10 {
        bits
    } else {
        hash_bits_from(size, (bits + 1) as u32, limit)
    }
}

/// The largest exponent of an index: 32, or 31 where a table of 2^32 slots
/// cannot be addressed.
pub open spec fn max_hash_bits() -> u32 {
    if usize::BITS >= 64 {
        32
    } else {
        31
    }
}

/// The exponent of the index for an indexable region of `size` bytes: the
/// logarithm to base 2 of `size + 10`, rounded up, but at least 1 and at
/// most `max_hash_bits()`.
pub open spec fn hash_bits(size: nat) -> u32 {
    hash_bits_from(size, 1, max_hash_bits())
}

/// The units for a base that prefix and suffix cover entirely: the prefix
/// copy, the rest of the new blob as a literal, and the suffix copy, each
/// only if it is not empty.
pub open spec fn trivial_units(new_len: int, base_len: int, prefix: int, suffix: int) -> Seq<
    DeltaUnit,
> {
    optional_copy(0, prefix) + pending_literal(prefix, new_len - suffix) + optional_copy(
        base_len - suffix,
        suffix,
    )
}

/// The position of the base that the index proposes for the window of the
/// new blob at `pos`, in a scan that last emitted at `lit_start`.
pub open spec fn candidate(
    new: Seq<u8>,
    table: Seq<u32>,
    bits: u32,
    lit_start: int,
    pos: int,
) -> int {
    table[slot_of(fingerprint_from(new, lit_start, pos), bits)] as int
}

/// Whether `cand` is a match for the window of the new blob at `pos`: it is
/// not the empty slot, its window lies within the indexed region, and the two
/// windows hold the same bytes.
pub open spec fn is_match(new: Seq<u8>, base: Seq<u8>, pos: int, cand: int, base_end: int) -> bool {
    &&& cand > 0
    &&& cand + WORD_SIZE <= base_end
    &&& new.subrange(pos, pos + WORD_SIZE as int) == base.subrange(cand, cand + WORD_SIZE as int)
}

/// How far a match at `pos` and `cand` goes: the window, and the forward run
/// after it within both regions.
pub open spec fn match_length(
    new: Seq<u8>,
    base: Seq<u8>,
    pos: int,
    cand: int,
    end: int,
    base_end: int,
) -> int {
    WORD_SIZE + match_run(
        new,
        pos + WORD_SIZE,
        base,
        cand + WORD_SIZE,
        min(end - pos - WORD_SIZE, base_end - cand - WORD_SIZE),
    )
}

/// The units that the scan of the new blob emits from `pos` on, when nothing
/// has been emitted since `lit_start`.
///
/// While a whole window is left, the scan looks up the candidate for the
/// window at `pos`. On a match it emits the pending literal and a copy as long
/// as the match goes, and goes on behind the copy. Otherwise it moves on by one
/// byte. What is left at the end becomes a literal.
pub open spec fn scan_units(
    new: Seq<u8>,
    base: Seq<u8>,
    table: Seq<u32>,
    bits: u32,
    end: int,
    base_end: int,
    lit_start: int,
    pos: int,
) -> Seq<DeltaUnit>
    decreases end - pos,
{
    if pos + WORD_SIZE > end {
        pending_literal(lit_start, end)
    } else {
        let cand = candidate(new, table, bits, lit_start, pos);
        if is_match(new, base, pos, cand, base_end) {
            let next = pos + match_length(new, base, pos, cand, end, base_end);
            proof {
                match_run_bounded(
                    new,
                    pos + WORD_SIZE,
                    base,
                    cand + WORD_SIZE,
                    min(end - pos - WORD_SIZE, base_end - cand - WORD_SIZE),
                );
            }
            pending_literal(lit_start, pos) + seq![copy_unit(cand, next - pos)] + scan_units(
                new,
                base,
                table,
                bits,
                end,
                base_end,
                next,
                next,
            )
        } else {
            scan_units(new, base, table, bits, end, base_end, lit_start, pos + 1)
        }
    }
}

/// The units of the delta from `base` to `new`.
///
/// Where prefix and suffix cover the base, they are the trivial units.
/// Otherwise they are the prefix copy, the units of a scan of the middle of
/// the new blob against the index of the middle of the base, and the suffix
/// copy.
pub open spec fn encode_units(new: Seq<u8>, base: Seq<u8>) -> Seq<DeltaUnit> {
    let prefix = prefix_length(new, base);
    let suffix = suffix_length(new, base);
    if prefix + suffix >= base.len() {
        trivial_units(new.len() as int, base.len() as int, prefix, suffix)
    } else {
        let bits = hash_bits((base.len() - prefix - suffix) as nat);
        let table = fingerprint_index(base, prefix, base.len() - suffix, bits);
        optional_copy(0, prefix) + scan_units(
            new,
            base,
            table,
            bits,
            new.len() - suffix,
            base.len() - suffix,
            prefix,
            prefix,
        ) + optional_copy(base.len() - suffix, suffix)
    }
}

/// A delta: the length of the instruction stream as a varint, the
/// instruction stream, and the literal data.
pub open spec fn delta_bytes(instructions: Seq<u8>, literals: Seq<u8>) -> Seq<u8> {
    varint_bytes(instructions.len() as u64) + instructions + literals
}

/// The delta from `base` to `new`.
pub open spec fn encode_spec(new: Seq<u8>, base: Seq<u8>) -> Seq<u8> {
    let units = encode_units(new, base);
    delta_bytes(units_bytes(units), literal_data(units, new, 0))
}

/// The length of the longest common prefix of `a` and `b`.
pub fn find_common_prefix(a: &[u8], b: &[u8]) -> (len: usize)
    ensures
        len == match_run(a@, 0, b@, 0, min(a@.len() as int, b@.len() as int)),
{
    let max_len = if a.len() <= b.len() {
        a.len()
    } else {
        b.len()
    };
    forward_run(a, 0, b, 0, max_len)
}

/// The length of the longest common suffix of what a prefix of `prefix_len`
/// bytes leaves of `a` and of `b`.
pub fn find_common_suffix(a: &[u8], b: &[u8], prefix_len: usize) -> (len: usize)
    requires
        prefix_len <= a@.len(),
        prefix_len <= b@.len(),
    ensures
        len == match_run_back(
            a@,
            a@.len() as int,
            b@,
            b@.len() as int,
            min(a@.len() - prefix_len, b@.len() - prefix_len),
        ),
{
    let max_len = if a.len() <= b.len() {
        a.len() - prefix_len
    } else {
        b.len() - prefix_len
    };
    backward_run(a, a.len(), b, b.len(), max_len)
}

/// The length of the match that starts with the windows at `new_pos` and
/// `base_pos`: the window and as many bytes after it as agree before either
/// region ends.
pub fn extend_match(
    new_data: &[u8],
    base_data: &[u8],
    new_pos: usize,
    base_pos: usize,
    new_end: usize,
    base_end: usize,
) -> (len: usize)
    requires
        new_pos + WORD_SIZE <= new_end <= new_data@.len(),
        base_pos + WORD_SIZE <= base_end <= base_data@.len(),
    ensures
        len == match_length(
            new_data@,
            base_data@,
            new_pos as int,
            base_pos as int,
            new_end as int,
            base_end as int,
        ),
        new_pos + len <= new_end,
        base_pos + len <= base_end,
{
    let new_left = new_end - new_pos - WORD_SIZE;
    let base_left = base_end - base_pos - WORD_SIZE;
    let limit = if new_left <= base_left {
        new_left
    } else {
        base_left
    };
    let run = forward_run(new_data, new_pos + WORD_SIZE, base_data, base_pos + WORD_SIZE, limit);
    proof {
        match_run_is_longest(
            new_data@,
            new_pos + WORD_SIZE,
            base_data@,
            base_pos + WORD_SIZE,
            limit as int,
        );
    }
    WORD_SIZE + run
}

/// The exponent of the index for an indexable region of `size` bytes.
pub fn calculate_hash_bits(size: usize) -> (bits: u32)
    ensures
        bits == hash_bits(size as nat),
        1 <= bits <= 32,
        pow2(bits as nat) <= usize::MAX,
{
    let limit: u32 = if usize::BITS >= 64 {
        32
    } else {
        31
    };
    let target: u128 = size as u128 + 10;
    let mut bits: u32 = 1;
    let mut power: u64 = 2;
    proof {
        lemma2_to64();
    }
    while bits < limit && (power as u128) < target
        invariant
            1 <= bits <= limit,
            limit == max_hash_bits(),
            power == pow2(bits as nat),
            power <= 0x1_0000_0000,
            target == size + 10,
            hash_bits(size as nat) == hash_bits_from(size as nat, bits, limit),
        decreases limit - bits,
    {
        proof {
            lemma_pow2_unfold((bits + 1) as nat);
            lemma2_to64();
            if bits + 1 < 32 {
                lemma_pow2_strictly_increases((bits + 1) as nat, 32);
            }
        }
        power = power * 2;
        bits = bits + 1;
    }
    proof {
        lemma2_to64();
        if bits < 31 {
            lemma_pow2_strictly_increases(bits as nat, 31);
        }
    }
    bits
}

/// Appends a literal for `new_data[from..to)` to the two streams, if the
/// range is not empty.
fn emit_literal(
    new_data: &[u8],
    from: usize,
    to: usize,
    instruction_stream: &mut BufferStream,
    data_stream: &mut BufferStream,
)
    requires
        from <= to <= new_data@.len(),
        old(instruction_stream).spec_position() <= old(instruction_stream)@.len(),
        old(data_stream).spec_position() <= old(data_stream)@.len(),
    ensures
        final(instruction_stream)@ == old(instruction_stream)@ + units_bytes(
            pending_literal(from as int, to as int),
        ),
        final(data_stream)@ == old(data_stream)@ + new_data@.subrange(from as int, to as int),
        final(instruction_stream).spec_position() - old(instruction_stream).spec_position()
            == final(instruction_stream)@.len() - old(instruction_stream)@.len(),
        final(data_stream).spec_position() - old(data_stream).spec_position()
            == final(data_stream)@.len() - old(data_stream)@.len(),
{
    if from < to {
        let unit = DeltaUnit::literal((to - from) as u64);
        proof {
            single_unit(unit, new_data@, from as int);
        }
        write_delta_unit(instruction_stream, &unit);
        data_stream.write_bytes(&new_data[from..to]);
    } else {
        assert(units_bytes(pending_literal(from as int, to as int)) =~= Seq::<u8>::empty());
        assert(instruction_stream@ =~= old(instruction_stream)@ + Seq::<u8>::empty());
        assert(data_stream@ =~= old(data_stream)@ + new_data@.subrange(from as int, to as int));
    }
}

/// Appends a copy of `length` bytes from `offset` to the instruction stream,
/// if `length` is positive.
fn emit_copy(offset: usize, length: usize, instruction_stream: &mut BufferStream)
    requires
        old(instruction_stream).spec_position() <= old(instruction_stream)@.len(),
    ensures
        final(instruction_stream)@ == old(instruction_stream)@ + units_bytes(
            optional_copy(offset as int, length as int),
        ),
        final(instruction_stream).spec_position() - old(instruction_stream).spec_position()
            == final(instruction_stream)@.len() - old(instruction_stream)@.len(),
{
    if length > 0 {
        let unit = DeltaUnit::copy(offset as u64, length as u64);
        proof {
            single_unit(unit, Seq::<u8>::empty(), 0);
        }
        write_delta_unit(instruction_stream, &unit);
    } else {
        assert(units_bytes(optional_copy(offset as int, length as int)) =~= Seq::<u8>::empty());
        assert(instruction_stream@ =~= old(instruction_stream)@ + Seq::<u8>::empty());
    }
}

/// Emits the units for a base that the prefix of `prefix_size` bytes and the
/// suffix of `suffix_size` bytes cover entirely.
pub fn encode_trivial_case(
    new_data: &[u8],
    base_data: &[u8],
    prefix_size: usize,
    suffix_size: usize,
    instruction_stream: &mut BufferStream,
    data_stream: &mut BufferStream,
)
    requires
        prefix_size + suffix_size <= new_data@.len(),
        suffix_size <= base_data@.len(),
        old(instruction_stream).spec_position() <= old(instruction_stream)@.len(),
        old(data_stream).spec_position() <= old(data_stream)@.len(),
    ensures
        final(instruction_stream)@ == old(instruction_stream)@ + units_bytes(
            trivial_units(
                new_data@.len() as int,
                base_data@.len() as int,
                prefix_size as int,
                suffix_size as int,
            ),
        ),
        final(data_stream)@ == old(data_stream)@ + literal_data(
            trivial_units(
                new_data@.len() as int,
                base_data@.len() as int,
                prefix_size as int,
                suffix_size as int,
            ),
            new_data@,
            0,
        ),
        final(instruction_stream).spec_position() - old(instruction_stream).spec_position()
            == final(instruction_stream)@.len() - old(instruction_stream)@.len(),
        final(data_stream).spec_position() - old(data_stream).spec_position()
            == final(data_stream)@.len() - old(data_stream)@.len(),
{
    let new_size = new_data.len();
    let base_size = base_data.len();
    emit_copy(0, prefix_size, instruction_stream);
    emit_literal(new_data, prefix_size, new_size - suffix_size, instruction_stream, data_stream);
    emit_copy(base_size - suffix_size, suffix_size, instruction_stream);
    proof {
        let head = optional_copy(0, prefix_size as int);
        let middle = pending_literal(prefix_size as int, new_size - suffix_size);
        let tail = optional_copy(base_size - suffix_size, suffix_size as int);
        units_bytes_concat(head, middle);
        units_bytes_concat(head + middle, tail);
        optional_copy_data(new_data@, 0, 0, prefix_size as int);
        pending_literal_data(new_data@, prefix_size as int, new_size - suffix_size);
        optional_copy_data(
            new_data@,
            new_size - suffix_size,
            base_size - suffix_size,
            suffix_size as int,
        );
        literal_data_concat(head, middle, new_data@, 0);
        units_span_concat(head, middle);
        literal_data_concat(head + middle, tail, new_data@, 0);
        assert(instruction_stream@ =~= old(instruction_stream)@ + units_bytes(
            head + middle + tail,
        ));
        assert(data_stream@ =~= old(data_stream)@ + literal_data(
            head + middle + tail,
            new_data@,
            0,
        ));
    }
}

/// Scans `new_data[start..end)` against the index of the base and emits
/// the units of the scan.
///
/// `hash_table` is the index, with `2^(64 - hash_shift)` slots; a candidate
/// counts only if its window ends at or before `base_end`.
pub fn encode_middle_section(
    new_data: &[u8],
    base_data: &[u8],
    start: usize,
    end: usize,
    base_end: usize,
    hash_table: &[u32],
    hash_shift: u32,
    instruction_stream: &mut BufferStream,
    data_stream: &mut BufferStream,
)
    requires
        start <= end <= new_data@.len(),
        base_end <= base_data@.len(),
        32 <= hash_shift <= 63,
        hash_table@.len() == pow2((64 - hash_shift) as nat),
        old(instruction_stream).spec_position() <= old(instruction_stream)@.len(),
        old(data_stream).spec_position() <= old(data_stream)@.len(),
    ensures
        final(instruction_stream)@ == old(instruction_stream)@ + units_bytes(
            scan_units(
                new_data@,
                base_data@,
                hash_table@,
                (64 - hash_shift) as u32,
                end as int,
                base_end as int,
                start as int,
                start as int,
            ),
        ),
        final(data_stream)@ == old(data_stream)@ + literal_data(
            scan_units(
                new_data@,
                base_data@,
                hash_table@,
                (64 - hash_shift) as u32,
                end as int,
                base_end as int,
                start as int,
                start as int,
            ),
            new_data@,
            start as int,
        ),
        final(instruction_stream).spec_position() - old(instruction_stream).spec_position()
            == final(instruction_stream)@.len() - old(instruction_stream)@.len(),
        final(data_stream).spec_position() - old(data_stream).spec_position()
            == final(data_stream)@.len() - old(data_stream)@.len(),
{
    let ghost bits = (64 - hash_shift) as u32;
    let ghost total = scan_units(
        new_data@,
        base_data@,
        hash_table@,
        bits,
        end as int,
        base_end as int,
        start as int,
        start as int,
    );
    assert(new_data@.len() == new_data.len() && base_data@.len() == base_data.len());
    if end - start < WORD_SIZE {
        emit_literal(new_data, start, end, instruction_stream, data_stream);
        proof {
            pending_literal_data(new_data@, start as int, end as int);
        }
        return ;
    }
    let mut pos = start;
    let mut literal_start = start;
    let mut fingerprint = compute_fingerprint(new_data, pos);
    let ghost mut emitted = Seq::<DeltaUnit>::empty();
    proof {
        assert(emitted + total =~= total);
        assert(units_bytes(emitted) =~= Seq::<u8>::empty());
        assert(literal_data(emitted, new_data@, start as int) =~= Seq::<u8>::empty());
        assert(instruction_stream@ =~= old(instruction_stream)@ + units_bytes(emitted));
        assert(data_stream@ =~= old(data_stream)@ + literal_data(
            emitted,
            new_data@,
            start as int,
        ));
    }
    while end - pos >= WORD_SIZE
        invariant
            start <= literal_start <= pos <= end <= new_data@.len() <= usize::MAX,
            base_end <= base_data@.len() <= usize::MAX,
            32 <= hash_shift <= 63,
            bits == 64 - hash_shift,
            hash_table@.len() == pow2(bits as nat),
            total == scan_units(
                new_data@,
                base_data@,
                hash_table@,
                bits,
                end as int,
                base_end as int,
                start as int,
                start as int,
            ),
            emitted + scan_units(
                new_data@,
                base_data@,
                hash_table@,
                bits,
                end as int,
                base_end as int,
                literal_start as int,
                pos as int,
            ) == total,
            units_span(emitted) == literal_start - start,
            instruction_stream@ == old(instruction_stream)@ + units_bytes(emitted),
            data_stream@ == old(data_stream)@ + literal_data(emitted, new_data@, start as int),
            end - pos >= WORD_SIZE ==> fingerprint == fingerprint_from(
                new_data@,
                literal_start as int,
                pos as int,
            ),
            old(instruction_stream).spec_position() <= old(instruction_stream)@.len(),
            old(data_stream).spec_position() <= old(data_stream)@.len(),
            instruction_stream.spec_position() - old(instruction_stream).spec_position()
                == instruction_stream@.len() - old(instruction_stream)@.len(),
            data_stream.spec_position() - old(data_stream).spec_position() == data_stream@.len()
                - old(data_stream)@.len(),
        decreases end - pos,
    {
        proof {
            slot_in_range(fingerprint, bits);
        }
        let hash_index = (fingerprint >> (hash_shift as u64)) as usize;
        let base_offset = hash_table[hash_index] as usize;
        let ghost rest_before = scan_units(
            new_data@,
            base_data@,
            hash_table@,
            bits,
            end as int,
            base_end as int,
            literal_start as int,
            pos as int,
        );
        assert(base_offset == candidate(
            new_data@,
            hash_table@,
            bits,
            literal_start as int,
            pos as int,
        ));
        if base_offset > 0 && base_end >= WORD_SIZE && base_offset <= base_end - WORD_SIZE
            && chunk8_equal(new_data, pos, base_data, base_offset) {
            assert(is_match(
                new_data@,
                base_data@,
                pos as int,
                base_offset as int,
                base_end as int,
            ));
            let match_len = extend_match(new_data, base_data, pos, base_offset, end, base_end);
            emit_literal(new_data, literal_start, pos, instruction_stream, data_stream);
            emit_copy(base_offset, match_len, instruction_stream);
            proof {
                let literal = pending_literal(literal_start as int, pos as int);
                let copy = seq![copy_unit(base_offset as int, match_len as int)];
                let rest_after = scan_units(
                    new_data@,
                    base_data@,
                    hash_table@,
                    bits,
                    end as int,
                    base_end as int,
                    pos + match_len,
                    pos + match_len,
                );
                assert(rest_before == literal + copy + rest_after);
                assert(emitted + literal + copy + rest_after =~= emitted + (literal + copy
                    + rest_after));
                pending_literal_data(new_data@, literal_start as int, pos as int);
                optional_copy_data(new_data@, pos as int, base_offset as int, match_len as int);
                units_bytes_concat(emitted, literal);
                units_bytes_concat(emitted + literal, copy);
                units_span_concat(emitted, literal);
                units_span_concat(emitted + literal, copy);
                literal_data_concat(emitted, literal, new_data@, start as int);
                literal_data_concat(emitted + literal, copy, new_data@, start as int);
                emitted = emitted + literal + copy;
                assert(instruction_stream@ =~= old(instruction_stream)@ + units_bytes(emitted));
                assert(data_stream@ =~= old(data_stream)@ + literal_data(
                    emitted,
                    new_data@,
                    start as int,
                ));
            }
            pos += match_len;
            literal_start = pos;
            if end - pos >= WORD_SIZE {
                fingerprint = compute_fingerprint(new_data, pos);
            }
        } else {
            assert(!is_match(
                new_data@,
                base_data@,
                pos as int,
                base_offset as int,
                base_end as int,
            ));
            proof {
                fingerprint_rolls(new_data@, literal_start as int, pos as int);
            }
            pos += 1;
            if end - pos >= WORD_SIZE {
                fingerprint = roll_fingerprint(fingerprint, new_data[pos + WORD_SIZE - 1]);
            }
        }
    }
    emit_literal(new_data, literal_start, end, instruction_stream, data_stream);
    proof {
        let literal = pending_literal(literal_start as int, end as int);
        pending_literal_data(new_data@, literal_start as int, end as int);
        units_bytes_concat(emitted, literal);
        literal_data_concat(emitted, literal, new_data@, start as int);
        assert(instruction_stream@ =~= old(instruction_stream)@ + units_bytes(total));
        assert(data_stream@ =~= old(data_stream)@ + literal_data(total, new_data@, start as int));
    }
}

/// Puts a delta together from its instruction stream and its literal data.
pub fn finalize_delta(instruction_stream: &BufferStream, data_stream: &BufferStream) -> (delta:
    Vec<u8>)
    ensures
        delta@ == delta_bytes(instruction_stream@, data_stream@),
{
    let capacity = instruction_stream.len().saturating_add(data_stream.len()).saturating_add(10);
    let mut result = BufferStream::with_capacity(capacity);
    write_varint(&mut result, instruction_stream.len() as u64);
    result.write_bytes(instruction_stream.as_slice());
    result.write_bytes(data_stream.as_slice());
    result.into_vec()
}

/// Encodes the delta from `base_data` to `new_data`.
///
/// Encoding never fails. The common prefix and the common suffix of the two
/// blobs are measured so that they overlap in neither; each becomes a copy if
/// it has at least `MIN_MATCH_LENGTH` bytes.
pub fn encode(new_data: &[u8], base_data: &[u8]) -> (result: Result<Vec<u8>, GDeltaError>)
    ensures
        result matches Ok(delta) && delta@ == encode_spec(new_data@, base_data@) && decode_spec(
            delta@,
            base_data@,
        ) == Ok::<Seq<u8>, DecodeFault>(new_data@),
{
    let new_size = new_data.len();
    let base_size = base_data.len();
    let ghost new = new_data@;
    let ghost base = base_data@;

    let prefix_len = find_common_prefix(new_data, base_data);
    let prefix_size = if prefix_len >= MIN_MATCH_LENGTH {
        prefix_len
    } else {
        0
    };
    proof {
        match_run_is_longest(new, 0, base, 0, min(new.len() as int, base.len() as int));
    }
    let suffix_len = find_common_suffix(new_data, base_data, prefix_size);
    let suffix_size = if suffix_len >= MIN_MATCH_LENGTH {
        suffix_len
    } else {
        0
    };
    proof {
        match_run_back_is_longest(
            new,
            new.len() as int,
            base,
            base.len() as int,
            min(new.len() - prefix_size, base.len() - prefix_size),
        );
    }
    assert(prefix_size == prefix_length(new, base));
    assert(suffix_size == suffix_length(new, base));

    let mut instruction_stream = BufferStream::with_capacity(INIT_BUFFER_SIZE);
    let mut data_stream = BufferStream::with_capacity(INIT_BUFFER_SIZE);

    if prefix_size + suffix_size >= base_size {
        encode_trivial_case(
            new_data,
            base_data,
            prefix_size,
            suffix_size,
            &mut instruction_stream,
            &mut data_stream,
        );
        let delta = finalize_delta(&instruction_stream, &data_stream);
        proof {
            assert(instruction_stream@ =~= units_bytes(encode_units(new, base)));
            assert(data_stream@ =~= literal_data(encode_units(new, base), new, 0));
            assert(delta@.len() == delta.len());
            round_trip(new, base);
        }
        return Ok(delta);
    }
    emit_copy(0, prefix_size, &mut instruction_stream);

    let work_base_size = base_size - prefix_size - suffix_size;
    let hash_bits = calculate_hash_bits(work_base_size);
    let hash_table = build_hash_table(base_data, prefix_size, base_size - suffix_size, hash_bits);
    let hash_shift = 64 - hash_bits;
    proof {
        index_after_len(
            base,
            prefix_size as int,
            hash_bits,
            window_count(prefix_size as int, base_size - suffix_size),
        );
    }

    encode_middle_section(
        new_data,
        base_data,
        prefix_size,
        new_size - suffix_size,
        base_size - suffix_size,
        hash_table.as_slice(),
        hash_shift,
        &mut instruction_stream,
        &mut data_stream,
    );
    emit_copy(base_size - suffix_size, suffix_size, &mut instruction_stream);

    proof {
        let head = optional_copy(0, prefix_size as int);
        let middle = scan_units(
            new,
            base,
            hash_table@,
            hash_bits,
            new_size - suffix_size,
            base_size - suffix_size,
            prefix_size as int,
            prefix_size as int,
        );
        let tail = optional_copy(base_size - suffix_size, suffix_size as int);
        assert(encode_units(new, base) == head + middle + tail);
        units_bytes_concat(head, middle);
        units_bytes_concat(head + middle, tail);
        optional_copy_data(new, 0, 0, prefix_size as int);
        optional_copy_data(
            new,
            units_span(head + middle),
            base_size - suffix_size,
            suffix_size as int,
        );
        literal_data_concat(head, middle, new, 0);
        literal_data_concat(head + middle, tail, new, 0);
        assert(instruction_stream@ =~= units_bytes(encode_units(new, base)));
        assert(data_stream@ =~= literal_data(encode_units(new, base), new, 0));
    }
    let delta = finalize_delta(&instruction_stream, &data_stream);
    proof {
        assert(delta@.len() == delta.len());
        round_trip(new, base);
    }
    Ok(delta)
}

/// Why a delta cannot be decoded.
pub enum DecodeFault {
    /// The delta ends inside the length prefix, inside an instruction, or
    /// before the literal data that an instruction asks for.
    Truncated,
    /// The length prefix announces more instruction bytes than the delta has.
    LengthExceedsDelta,
    /// An instruction begins inside the instruction stream and ends outside.
    InstructionOverrun,
    /// A copy reaches past the end of the base.
    CopyOutOfBounds {
        /// Offset of the copy.
        offset: u64,
        /// Length of the copy.
        length: u64,
    },
}

/// What executing the instructions from `cursor` to `inst_end` adds to
/// `output`, with literals taken from `literal_cursor` on; or the first fault.
///
/// Each unit must end within the instruction stream. A copy must lie within
/// the base. A literal must lie within the delta. Literal data that no
/// instruction asks for is ignored.
pub open spec fn execute(
    delta: Seq<u8>,
    base: Seq<u8>,
    inst_end: int,
    cursor: int,
    literal_cursor: int,
    output: Seq<u8>,
) -> Result<Seq<u8>, DecodeFault>
    decreases delta.len() - cursor,
{
    if cursor >= inst_end {
        Ok(output)
    } else {
        match unit_parse(delta, cursor) {
            None => Err(DecodeFault::Truncated),
            Some((unit, next)) => {
                proof {
                    unit_parse_end(delta, cursor);
                }
                if next > inst_end {
                    Err(DecodeFault::InstructionOverrun)
                } else if unit.is_copy {
                    if unit.offset + unit.length > base.len() {
                        Err(
                            DecodeFault::CopyOutOfBounds {
                                offset: unit.offset,
                                length: unit.length,
                            },
                        )
                    } else {
                        execute(
                            delta,
                            base,
                            inst_end,
                            next,
                            literal_cursor,
                            output + base.subrange(
                                unit.offset as int,
                                unit.offset + unit.length,
                            ),
                        )
                    }
                } else {
                    if literal_cursor + unit.length > delta.len() {
                        Err(DecodeFault::Truncated)
                    } else {
                        execute(
                            delta,
                            base,
                            inst_end,
                            next,
                            literal_cursor + unit.length,
                            output + delta.subrange(literal_cursor, literal_cursor + unit.length),
                        )
                    }
                }
            },
        }
    }
}

/// What decoding `delta` against `base` yields: the new blob, or the first
/// fault.
pub open spec fn decode_spec(delta: Seq<u8>, base: Seq<u8>) -> Result<Seq<u8>, DecodeFault> {
    match varint_parse(delta, 0) {
        None => Err(DecodeFault::Truncated),
        Some((inst_len, inst_start)) => if inst_start + inst_len > delta.len() {
            Err(DecodeFault::LengthExceedsDelta)
        } else {
            execute(
                delta,
                base,
                inst_start + inst_len,
                inst_start,
                inst_start + inst_len,
                Seq::<u8>::empty(),
            )
        },
    }
}

/// The reason that an `InvalidDelta` error gives for a fault.
pub open spec fn invalid_reason(fault: DecodeFault, base_len: nat) -> Seq<char> {
    match fault {
        DecodeFault::Truncated => Seq::<char>::empty(),
        DecodeFault::LengthExceedsDelta => "Instruction length exceeds delta size"@,
        DecodeFault::InstructionOverrun => "Instruction runs past the instruction stream"@,
        DecodeFault::CopyOutOfBounds { offset, length } => "Copy offset "@ + decimal_digits(
            offset as nat,
        ) + " + length "@ + decimal_digits(length as nat) + " exceeds base size "@
            + decimal_digits(base_len),
    }
}

/// Whether `error` is the error that reports `fault`: `UnexpectedEndOfData`
/// for a truncated delta, and `InvalidDelta` with its reason for any other
/// fault.
pub open spec fn reports(error: GDeltaError, fault: DecodeFault, base_len: nat) -> bool {
    match fault {
        DecodeFault::Truncated => error == GDeltaError::UnexpectedEndOfData,
        _ => error matches GDeltaError::InvalidDelta(reason) && reason@ == invalid_reason(
            fault,
            base_len,
        ),
    }
}

/// The error for a copy that reaches past the end of the base.
fn copy_out_of_bounds(offset: u64, length: u64, base_len: usize) -> (error: GDeltaError)
    ensures
        reports(error, DecodeFault::CopyOutOfBounds { offset, length }, base_len as nat),
{
    let mut reason = String::from_str("Copy offset ");
    let digits = decimal_string(offset);
    reason.append(digits.as_str());
    reason.append(" + length ");
    let digits = decimal_string(length);
    reason.append(digits.as_str());
    reason.append(" exceeds base size ");
    let digits = decimal_string(base_len as u64);
    reason.append(digits.as_str());
    GDeltaError::InvalidDelta(reason)
}

/// Decodes `delta` against `base_data`.
///
/// Returns the new blob, or the error for the first fault: the reader stops
/// there, and nothing of the output is handed out.
pub fn decode(delta: &[u8], base_data: &[u8]) -> (result: Result<Vec<u8>, GDeltaError>)
    ensures
        match decode_spec(delta@, base_data@) {
            Ok(new) => result matches Ok(output) && output@ == new,
            Err(fault) => result matches Err(error) && reports(
                error,
                fault,
                base_data@.len(),
            ),
        },
{
    assert(delta@.len() == delta.len() && base_data@.len() == base_data.len());
    let mut delta_stream = BufferStream::from_slice(delta);
    proof {
        varint_scan_end(delta@, 0);
    }
    let instruction_len = match read_varint(&mut delta_stream) {
        Ok(value) => value,
        Err(e) => {
            return Err(e);
        },
    };
    let inst_start = delta_stream.position();
    if instruction_len > (delta.len() - inst_start) as u64 {
        return Err(
            GDeltaError::InvalidDelta(String::from_str("Instruction length exceeds delta size")),
        );
    }
    let inst_end = inst_start + instruction_len as usize;
    let data_start = inst_end;
    let mut data_stream = BufferStream::from_slice(&delta[data_start..delta.len()]);
    let mut output = BufferStream::with_capacity(INIT_BUFFER_SIZE);
    let base_stream = BufferStream::from_slice(base_data);
    let ghost outcome = decode_spec(delta@, base_data@);

    while delta_stream.position() < inst_end
        invariant
            delta_stream@ == delta@,
            base_stream@ == base_data@,
            data_stream@ == delta@.subrange(data_start as int, delta@.len() as int),
            inst_start <= delta_stream.spec_position(),
            inst_end == data_start <= delta@.len() <= usize::MAX,
            base_data@.len() <= usize::MAX,
            data_stream.spec_position() <= data_stream@.len(),
            output.spec_position() <= output@.len(),
            outcome == decode_spec(delta@, base_data@),
            outcome == execute(
                delta@,
                base_data@,
                inst_end as int,
                delta_stream.spec_position() as int,
                data_start + data_stream.spec_position(),
                output@,
            ),
        decreases delta@.len() - delta_stream.spec_position(),
    {
        proof {
            unit_parse_end(delta@, delta_stream.spec_position() as int);
        }
        let unit = match read_delta_unit(&mut delta_stream) {
            Ok(unit) => unit,
            Err(e) => {
                return Err(e);
            },
        };
        if delta_stream.position() > inst_end {
            return Err(
                GDeltaError::InvalidDelta(
                    String::from_str("Instruction runs past the instruction stream"),
                ),
            );
        }
        if unit.is_copy {
            let base_len = base_data.len() as u64;
            if unit.offset > base_len || unit.length > base_len - unit.offset {
                return Err(copy_out_of_bounds(unit.offset, unit.length, base_data.len()));
            }
            match output.copy_from(&base_stream, unit.offset as usize, unit.length as usize) {
                Ok(()) => {},
                Err(e) => {
                    return Err(e);
                },
            }
        } else {
            if unit.length > usize::MAX as u64 {
                return Err(GDeltaError::UnexpectedEndOfData);
            }
            let ghost literal_cursor = data_start + data_stream.spec_position();
            match output.append_from_cursor(&mut data_stream, unit.length as usize) {
                Ok(()) => {},
                Err(e) => {
                    return Err(e);
                },
            }
            assert(data_stream@.subrange(
                literal_cursor - data_start,
                literal_cursor - data_start + unit.length,
            ) =~= delta@.subrange(literal_cursor, literal_cursor + unit.length));
        }
    }
    Ok(output.into_vec())
}

} // verus!
