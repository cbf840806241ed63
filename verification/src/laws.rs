//! What holds of every delta.
//!
//! The theorems of the codec, each proved from the definitions of the
//! encoder and the decoder alone: the units of a delta yield the new blob,
//! and decoding undoes encoding.

use crate::delta::{
    candidate, decode_spec, delta_bytes, encode_spec, encode_units, execute, hash_bits,
    hash_bits_from, is_match, match_length, max_hash_bits, prefix_length, scan_units,
    suffix_length, DecodeFault, MIN_MATCH_LENGTH,
};
use crate::gear::{fingerprint_index, WORD_SIZE};
use crate::run::{
    match_run, match_run_back_is_longest, match_run_bounded, match_run_is_longest,
    match_run_unique, min,
};
use crate::units::{
    copy_unit, literal_data, literal_data_concat, literal_unit, literals_apart,
    literals_apart_concat, optional_copy, optional_copy_data, optional_copy_yields,
    pending_literal, pending_literal_data, pending_literal_yields, single_unit, units_bytes,
    units_bytes_concat, units_span, units_span_concat, units_yield, units_yield_concat,
    units_yield_span,
};
use crate::varint::{
    unit_bytes, unit_bytes_len, unit_parse_of_bytes, varint_bytes, varint_bytes_short,
    varint_parse, varint_round_trip, varint_scan, varint_scan_of_bytes, varint_scan_of_prefix,
    DeltaUnit,
};
use vstd::arithmetic::power2::pow2;
use vstd::prelude::*;

verus! {

/// The units of a scan yield the part of `new` that the scan covers.
pub proof fn scan_units_yield(
    new: Seq<u8>,
    base: Seq<u8>,
    table: Seq<u32>,
    bits: u32,
    end: int,
    base_end: int,
    lit_start: int,
    pos: int,
)
    requires
        0 <= lit_start <= pos <= end <= new.len() <= u64::MAX,
        0 <= base_end <= base.len() <= u64::MAX,
    ensures
        units_yield(
            scan_units(new, base, table, bits, end, base_end, lit_start, pos),
            base,
            new,
            lit_start,
        ),
        units_span(scan_units(new, base, table, bits, end, base_end, lit_start, pos)) == end
            - lit_start,
    decreases end - pos,
{
    if pos + WORD_SIZE > end {
        pending_literal_yields(base, new, lit_start, end);
        pending_literal_data(new, lit_start, end);
    } else {
        let cand = candidate(new, table, bits, lit_start, pos);
        if is_match(new, base, pos, cand, base_end) {
            let limit = min(end - pos - WORD_SIZE, base_end - cand - WORD_SIZE);
            let length = match_length(new, base, pos, cand, end, base_end);
            let next = pos + length;
            match_run_is_longest(new, pos + WORD_SIZE, base, cand + WORD_SIZE, limit);
            let run = match_run(new, pos + WORD_SIZE, base, cand + WORD_SIZE, limit);
            assert(new.subrange(pos, next) =~= new.subrange(pos, pos + WORD_SIZE as int)
                + new.subrange(pos + WORD_SIZE, pos + WORD_SIZE + run));
            assert(base.subrange(cand, cand + length) =~= base.subrange(
                cand,
                cand + WORD_SIZE as int,
            ) + base.subrange(cand + WORD_SIZE, cand + WORD_SIZE + run));
            let literal = pending_literal(lit_start, pos);
            let copy = optional_copy(cand, length);
            let rest = scan_units(new, base, table, bits, end, base_end, next, next);
            assert(scan_units(new, base, table, bits, end, base_end, lit_start, pos) == literal
                + copy + rest);
            scan_units_yield(new, base, table, bits, end, base_end, next, next);
            pending_literal_yields(base, new, lit_start, pos);
            pending_literal_data(new, lit_start, pos);
            optional_copy_yields(base, new, pos, cand, length);
            optional_copy_data(new, pos, cand, length);
            units_yield_concat(literal, copy, base, new, lit_start);
            units_span_concat(literal, copy);
            units_yield_concat(literal + copy, rest, base, new, lit_start);
            units_span_concat(literal + copy, rest);
        } else {
            scan_units_yield(new, base, table, bits, end, base_end, lit_start, pos + 1);
        }
    }
}

/// Prefix and suffix overlap in neither blob, and each is a stretch that the
/// two blobs share.
pub proof fn prefix_and_suffix_shared(new: Seq<u8>, base: Seq<u8>)
    ensures
        0 <= prefix_length(new, base),
        0 <= suffix_length(new, base),
        prefix_length(new, base) + suffix_length(new, base) <= new.len(),
        prefix_length(new, base) + suffix_length(new, base) <= base.len(),
        new.subrange(0, prefix_length(new, base)) == base.subrange(0, prefix_length(new, base)),
        new.subrange(new.len() - suffix_length(new, base), new.len() as int) == base.subrange(
            base.len() - suffix_length(new, base),
            base.len() as int,
        ),
{
    let prefix = prefix_length(new, base);
    match_run_is_longest(new, 0, base, 0, min(new.len() as int, base.len() as int));
    match_run_back_is_longest(
        new,
        new.len() as int,
        base,
        base.len() as int,
        min(new.len() - prefix, base.len() - prefix),
    );
    assert(new.subrange(0, 0) =~= base.subrange(0, 0));
    assert(new.subrange(new.len() as int, new.len() as int) =~= base.subrange(
        base.len() as int,
        base.len() as int,
    ));
}

/// **The units of a delta yield the new blob**: in order, with every copy
/// inside the base, every unit at least one byte long, and lengths that add
/// up to the length of the new blob.
pub proof fn encode_units_yield(new: Seq<u8>, base: Seq<u8>)
    requires
        new.len() <= u64::MAX,
        base.len() <= u64::MAX,
    ensures
        units_yield(encode_units(new, base), base, new, 0),
        units_span(encode_units(new, base)) == new.len(),
{
    let prefix = prefix_length(new, base);
    let suffix = suffix_length(new, base);
    let middle_end = new.len() - suffix;
    let base_end = base.len() - suffix;
    prefix_and_suffix_shared(new, base);
    let head = optional_copy(0, prefix);
    let tail = optional_copy(base_end, suffix);
    let middle = if prefix + suffix >= base.len() {
        pending_literal(prefix, middle_end)
    } else {
        let bits = hash_bits((base.len() - prefix - suffix) as nat);
        scan_units(
            new,
            base,
            fingerprint_index(base, prefix, base_end, bits),
            bits,
            middle_end,
            base_end,
            prefix,
            prefix,
        )
    };
    assert(encode_units(new, base) == head + middle + tail);
    if prefix + suffix >= base.len() {
        pending_literal_yields(base, new, prefix, middle_end);
        pending_literal_data(new, prefix, middle_end);
    } else {
        let bits = hash_bits((base.len() - prefix - suffix) as nat);
        scan_units_yield(
            new,
            base,
            fingerprint_index(base, prefix, base_end, bits),
            bits,
            middle_end,
            base_end,
            prefix,
            prefix,
        );
    }
    optional_copy_yields(base, new, 0, 0, prefix);
    optional_copy_data(new, 0, 0, prefix);
    optional_copy_yields(base, new, middle_end, base_end, suffix);
    optional_copy_data(new, middle_end, base_end, suffix);
    units_yield_concat(head, middle, base, new, 0);
    units_span_concat(head, middle);
    units_yield_concat(head + middle, tail, base, new, 0);
    units_span_concat(head + middle, tail);
}

/// Executing the instruction stream of a row of units that yields `new`,
/// with the literal data of the row at the literal cursor, appends to the
/// output the part of `new` that the row yields.
pub proof fn execute_units(
    delta: Seq<u8>,
    base: Seq<u8>,
    new: Seq<u8>,
    inst_end: int,
    cursor: int,
    literal_cursor: int,
    output: Seq<u8>,
    units: Seq<DeltaUnit>,
    at: int,
)
    requires
        0 <= cursor <= inst_end <= delta.len(),
        delta.subrange(cursor, inst_end) == units_bytes(units),
        0 <= literal_cursor,
        literal_cursor + literal_data(units, new, at).len() <= delta.len(),
        delta.subrange(literal_cursor, literal_cursor + literal_data(units, new, at).len())
            == literal_data(units, new, at),
        0 <= at <= new.len(),
        units_yield(units, base, new, at),
    ensures
        execute(delta, base, inst_end, cursor, literal_cursor, output) == Ok::<
            Seq<u8>,
            DecodeFault,
        >(output + new.subrange(at, at + units_span(units))),
    decreases units.len(),
{
    if units.len() == 0 {
        assert(delta.subrange(cursor, inst_end).len() == 0);
        assert(output + new.subrange(at, at) =~= output);
    } else {
        let unit = units[0];
        let rest = units.drop_first();
        let encoding = unit_bytes(unit);
        let next = cursor + encoding.len();
        let literals = literal_data(units, new, at);
        let rest_literals = literal_data(rest, new, at + unit.length);
        unit_bytes_len(unit);
        units_yield_span(units, base, new, at);
        units_yield_span(rest, base, new, at + unit.length);
        assert(delta.subrange(cursor, inst_end).len() == encoding.len() + units_bytes(rest).len());
        assert(delta.subrange(cursor, next) =~= encoding) by {
            assert(delta.subrange(cursor, next) =~= delta.subrange(cursor, inst_end).subrange(
                0,
                encoding.len() as int,
            ));
        }
        assert(delta.subrange(next, inst_end) =~= units_bytes(rest)) by {
            assert(delta.subrange(next, inst_end) =~= delta.subrange(cursor, inst_end).subrange(
                encoding.len() as int,
                inst_end - cursor,
            ));
        }
        unit_parse_of_bytes(delta, cursor, unit);
        assert(unit.normalized() == unit);
        let piece = new.subrange(at, at + unit.length);
        assert(piece + new.subrange(at + unit.length, at + units_span(units)) =~= new.subrange(
            at,
            at + units_span(units),
        ));
        if unit.is_copy {
            assert(literals == rest_literals);
            execute_units(
                delta,
                base,
                new,
                inst_end,
                next,
                literal_cursor,
                output + piece,
                rest,
                at + unit.length,
            );
        } else {
            let after = literal_cursor + unit.length;
            assert(literals == piece + rest_literals);
            assert(delta.subrange(literal_cursor, after) =~= piece) by {
                assert(delta.subrange(literal_cursor, after) =~= delta.subrange(
                    literal_cursor,
                    literal_cursor + literals.len(),
                ).subrange(0, unit.length as int));
            }
            assert(delta.subrange(after, after + rest_literals.len()) =~= rest_literals) by {
                assert(delta.subrange(after, after + rest_literals.len()) =~= delta.subrange(
                    literal_cursor,
                    literal_cursor + literals.len(),
                ).subrange(unit.length as int, literals.len() as int));
            }
            execute_units(
                delta,
                base,
                new,
                inst_end,
                next,
                after,
                output + piece,
                rest,
                at + unit.length,
            );
        }
        assert(output + piece + new.subrange(at + unit.length, at + units_span(units)) =~= output
            + new.subrange(at, at + units_span(units)));
    }
}

/// **Round-trip law.** Decoding the delta from `base` to `new` against
/// `base` yields `new`.
///
/// The three blobs are byte slices, so their lengths fit in `usize`.
pub proof fn round_trip(new: Seq<u8>, base: Seq<u8>)
    requires
        new.len() <= usize::MAX,
        base.len() <= usize::MAX,
        encode_spec(new, base).len() <= usize::MAX,
    ensures
        decode_spec(encode_spec(new, base), base) == Ok::<Seq<u8>, DecodeFault>(new),
{
    let units = encode_units(new, base);
    let instructions = units_bytes(units);
    let literals = literal_data(units, new, 0);
    let delta = encode_spec(new, base);
    let length = instructions.len() as u64;
    let header = varint_bytes(length);
    assert(delta == header + instructions + literals);
    assert(length == instructions.len());
    encode_units_yield(new, base);
    assert(delta =~= Seq::<u8>::empty() + header + (instructions + literals));
    varint_round_trip(Seq::<u8>::empty(), length, instructions + literals);
    let inst_start = header.len() as int;
    let inst_end = inst_start + instructions.len();
    assert(varint_parse(delta, 0) == Some((length, inst_start)));
    assert(delta.subrange(inst_start, inst_end) =~= instructions);
    assert(delta.subrange(inst_end, inst_end + literals.len()) =~= literals);
    execute_units(delta, base, new, inst_end, inst_start, inst_end, Seq::<u8>::empty(), units, 0);
    assert(Seq::<u8>::empty() + new.subrange(0, new.len() as int) =~= new);
}

/// **Prefix recognition.** Where the two blobs share a prefix of at least
/// `MIN_MATCH_LENGTH` bytes, the first unit of the delta is the copy of that
/// prefix from the start of the base.
pub proof fn prefix_copy_emitted(new: Seq<u8>, base: Seq<u8>)
    requires
        match_run(new, 0, base, 0, min(new.len() as int, base.len() as int)) >= MIN_MATCH_LENGTH,
    ensures
        encode_units(new, base).len() > 0,
        encode_units(new, base).first() == copy_unit(
            0,
            match_run(new, 0, base, 0, min(new.len() as int, base.len() as int)) as int,
        ),
{
}

/// **Suffix recognition.** Where what the prefix leaves of the two blobs
/// ends in a common suffix of at least `MIN_MATCH_LENGTH` bytes, the last
/// unit of the delta is the copy of that suffix from the end of the base.
pub proof fn suffix_copy_emitted(new: Seq<u8>, base: Seq<u8>)
    requires
        suffix_length(new, base) >= MIN_MATCH_LENGTH,
    ensures
        encode_units(new, base).len() > 0,
        encode_units(new, base).last() == copy_unit(
            base.len() - suffix_length(new, base),
            suffix_length(new, base),
        ),
{
}

/// **Empty new blob.** The delta to an empty blob has no units: it is the
/// single byte 0, whatever the base.
pub proof fn empty_new_delta(base: Seq<u8>)
    ensures
        encode_units(Seq::<u8>::empty(), base) == Seq::<DeltaUnit>::empty(),
        encode_spec(Seq::<u8>::empty(), base) == seq![0u8],
        decode_spec(seq![0u8], base) == Ok::<Seq<u8>, DecodeFault>(Seq::<u8>::empty()),
{
    let new = Seq::<u8>::empty();
    assert(encode_units(new, base) =~= Seq::<DeltaUnit>::empty());
    assert(encode_spec(new, base) =~= seq![0u8]);
    assert(varint_scan(seq![0u8], 0) == Some((0nat, 1int)));
}

/// **Empty base.** The delta from an empty base is one literal with the
/// whole new blob, or nothing if the new blob is empty too.
pub proof fn empty_base_delta(new: Seq<u8>)
    requires
        new.len() <= usize::MAX,
    ensures
        encode_units(new, Seq::<u8>::empty()) == pending_literal(0, new.len() as int),
        literal_data(encode_units(new, Seq::<u8>::empty()), new, 0) == new,
        encode_spec(new, Seq::<u8>::empty()).len() <= usize::MAX ==> decode_spec(
            encode_spec(new, Seq::<u8>::empty()),
            Seq::<u8>::empty(),
        ) == Ok::<Seq<u8>, DecodeFault>(new),
{
    let base = Seq::<u8>::empty();
    if encode_spec(new, base).len() <= usize::MAX {
        round_trip(new, base);
    }
    assert(encode_units(new, base) =~= pending_literal(0, new.len() as int));
    pending_literal_data(new, 0, new.len() as int);
    assert(new.subrange(0, new.len() as int) =~= new);
}

/// In the units of a scan no two literals stand next to each other.
pub proof fn scan_units_literals_apart(
    new: Seq<u8>,
    base: Seq<u8>,
    table: Seq<u32>,
    bits: u32,
    end: int,
    base_end: int,
    lit_start: int,
    pos: int,
)
    requires
        pos <= end,
    ensures
        literals_apart(scan_units(new, base, table, bits, end, base_end, lit_start, pos)),
    decreases end - pos,
{
    if pos + WORD_SIZE <= end {
        let cand = candidate(new, table, bits, lit_start, pos);
        if is_match(new, base, pos, cand, base_end) {
            let next = pos + match_length(new, base, pos, cand, end, base_end);
            match_run_bounded(
                new,
                pos + WORD_SIZE,
                base,
                cand + WORD_SIZE,
                min(end - pos - WORD_SIZE, base_end - cand - WORD_SIZE),
            );
            let literal = pending_literal(lit_start, pos);
            let copy = seq![copy_unit(cand, next - pos)];
            let rest = scan_units(new, base, table, bits, end, base_end, next, next);
            scan_units_literals_apart(new, base, table, bits, end, base_end, next, next);
            literals_apart_concat(literal, copy);
            literals_apart_concat(literal + copy, rest);
        } else {
            scan_units_literals_apart(new, base, table, bits, end, base_end, lit_start, pos + 1);
        }
    }
}

/// **Literals are coalesced.** In the units of a delta no two literals stand
/// next to each other.
pub proof fn encode_units_literals_apart(new: Seq<u8>, base: Seq<u8>)
    ensures
        literals_apart(encode_units(new, base)),
{
    let prefix = prefix_length(new, base);
    let suffix = suffix_length(new, base);
    let middle_end = new.len() - suffix;
    let base_end = base.len() - suffix;
    prefix_and_suffix_shared(new, base);
    let head = optional_copy(0, prefix);
    let tail = optional_copy(base_end, suffix);
    if prefix + suffix >= base.len() {
        let middle = pending_literal(prefix, middle_end);
        literals_apart_concat(head, middle);
        literals_apart_concat(head + middle, tail);
    } else {
        let bits = hash_bits((base.len() - prefix - suffix) as nat);
        let table = fingerprint_index(base, prefix, base_end, bits);
        let middle = scan_units(new, base, table, bits, middle_end, base_end, prefix, prefix);
        scan_units_literals_apart(new, base, table, bits, middle_end, base_end, prefix, prefix);
        literals_apart_concat(head, middle);
        literals_apart_concat(head + middle, tail);
    }
}

/// The exponent found from `bits` on lies between `bits` and `limit`; its
/// power reaches `size + 10` unless it is `limit`, and the power before it
/// does not unless it is `bits`.
pub proof fn hash_bits_from_is_least(size: nat, bits: u32, limit: u32)
    requires
        bits <= limit,
    ensures
        bits <= hash_bits_from(size, bits, limit) <= limit,
        hash_bits_from(size, bits, limit) < limit ==> pow2(
            hash_bits_from(size, bits, limit) as nat,
        ) >= size + 10,
        hash_bits_from(size, bits, limit) > bits ==> pow2(
            (hash_bits_from(size, bits, limit) - 1) as nat,
        ) < size + 10,
    decreases limit - bits,
{
    if !(bits >= limit || pow2(bits as nat) >= size + 10) {
        hash_bits_from_is_least(size, (bits + 1) as u32, limit);
    }
}

/// **Size of the index.** The exponent of the index is the logarithm to
/// base 2 of `size + 10`, rounded up, unless that exceeds the largest
/// exponent: it is the least exponent whose power reaches `size + 10`.
pub proof fn hash_bits_is_rounded_log2(size: nat)
    ensures
        1 <= hash_bits(size) <= max_hash_bits(),
        hash_bits(size) < max_hash_bits() ==> pow2(hash_bits(size) as nat) >= size + 10,
        hash_bits(size) > 1 ==> pow2((hash_bits(size) - 1) as nat) < size + 10,
{
    hash_bits_from_is_least(size, 1, max_hash_bits());
}

/// Executing the instruction stream of a row of units that yields `new`
/// when the delta holds less literal data than the row asks for runs out of
/// data.
pub proof fn execute_short_of_literals(
    delta: Seq<u8>,
    base: Seq<u8>,
    new: Seq<u8>,
    inst_end: int,
    cursor: int,
    literal_cursor: int,
    output: Seq<u8>,
    units: Seq<DeltaUnit>,
    at: int,
)
    requires
        0 <= cursor <= inst_end <= delta.len(),
        delta.subrange(cursor, inst_end) == units_bytes(units),
        0 <= literal_cursor <= delta.len(),
        literal_cursor + literal_data(units, new, at).len() > delta.len(),
        0 <= at <= new.len(),
        units_yield(units, base, new, at),
    ensures
        execute(delta, base, inst_end, cursor, literal_cursor, output) == Err::<
            Seq<u8>,
            DecodeFault,
        >(DecodeFault::Truncated),
    decreases units.len(),
{
    if units.len() > 0 {
        let unit = units[0];
        let rest = units.drop_first();
        let encoding = unit_bytes(unit);
        let next = cursor + encoding.len();
        unit_bytes_len(unit);
        assert(delta.subrange(cursor, inst_end).len() == encoding.len() + units_bytes(rest).len());
        assert(delta.subrange(cursor, next) =~= encoding) by {
            assert(delta.subrange(cursor, next) =~= delta.subrange(cursor, inst_end).subrange(
                0,
                encoding.len() as int,
            ));
        }
        assert(delta.subrange(next, inst_end) =~= units_bytes(rest)) by {
            assert(delta.subrange(next, inst_end) =~= delta.subrange(cursor, inst_end).subrange(
                encoding.len() as int,
                inst_end - cursor,
            ));
        }
        unit_parse_of_bytes(delta, cursor, unit);
        assert(unit.normalized() == unit);
        if unit.is_copy {
            execute_short_of_literals(
                delta,
                base,
                new,
                inst_end,
                next,
                literal_cursor,
                output + base.subrange(unit.offset as int, unit.offset + unit.length),
                rest,
                at + unit.length,
            );
        } else if literal_cursor + unit.length <= delta.len() {
            execute_short_of_literals(
                delta,
                base,
                new,
                inst_end,
                next,
                literal_cursor + unit.length,
                output + delta.subrange(literal_cursor, literal_cursor + unit.length),
                rest,
                at + unit.length,
            );
        }
    }
}

/// Whether the first `keep` bytes of the delta from `base` to `new` hold
/// the whole length prefix but not the whole instruction stream.
pub open spec fn cut_is_within_instructions(new: Seq<u8>, base: Seq<u8>, keep: int) -> bool {
    let instructions = units_bytes(encode_units(new, base));
    let prefix = varint_bytes(instructions.len() as u64);
    prefix.len() <= keep < prefix.len() + instructions.len()
}

/// **A truncated delta is rejected.** Whatever is cut off the end of a
/// delta, what is left does not decode. Cut within the literal data or
/// within the length prefix, the fault is `Truncated`; cut within the
/// instruction stream, the length prefix exceeds what is left.
pub proof fn truncated_delta_rejected(new: Seq<u8>, base: Seq<u8>, keep: int)
    requires
        new.len() <= usize::MAX,
        base.len() <= usize::MAX,
        encode_spec(new, base).len() <= usize::MAX,
        0 <= keep < encode_spec(new, base).len(),
    ensures
        decode_spec(encode_spec(new, base).subrange(0, keep), base) == Err::<Seq<u8>, DecodeFault>(
            if cut_is_within_instructions(new, base, keep) {
                DecodeFault::LengthExceedsDelta
            } else {
                DecodeFault::Truncated
            },
        ),
{
    let units = encode_units(new, base);
    let instructions = units_bytes(units);
    let literals = literal_data(units, new, 0);
    let delta = encode_spec(new, base);
    let length = instructions.len() as u64;
    let header = varint_bytes(length);
    let cut = delta.subrange(0, keep);
    assert(delta == header + instructions + literals);
    assert(length == instructions.len());
    encode_units_yield(new, base);
    let inst_start = header.len() as int;
    let inst_end = inst_start + instructions.len();
    if keep < inst_start {
        assert(cut.subrange(0, cut.len() as int) =~= header.subrange(0, keep));
        varint_scan_of_prefix(cut, 0, length);
    } else {
        assert(cut.subrange(0, inst_start) =~= header);
        varint_scan_of_bytes(cut, 0, length);
        assert(varint_parse(cut, 0) == Some((length, inst_start)));
        if keep >= inst_end {
            assert(cut.subrange(inst_start, inst_end) =~= instructions);
            execute_short_of_literals(
                cut,
                base,
                new,
                inst_end,
                inst_start,
                inst_end,
                Seq::<u8>::empty(),
                units,
                0,
            );
        }
    }
}

/// While all lengths stay below 64 and all offsets below 128, the units of
/// a scan and their literal data take at most one byte more than the part of
/// the new blob that they yield.
pub proof fn small_scan_cost(
    new: Seq<u8>,
    base: Seq<u8>,
    table: Seq<u32>,
    bits: u32,
    end: int,
    base_end: int,
    lit_start: int,
    pos: int,
)
    requires
        0 <= lit_start <= pos <= end <= new.len(),
        end < 64,
        base_end <= 128,
    ensures
        units_bytes(scan_units(new, base, table, bits, end, base_end, lit_start, pos)).len()
            + literal_data(
            scan_units(new, base, table, bits, end, base_end, lit_start, pos),
            new,
            lit_start,
        ).len() <= end - lit_start + 1,
    decreases end - pos,
{
    varint_bytes_short(0);
    if pos + WORD_SIZE > end {
        pending_literal_data(new, lit_start, end);
        if lit_start < end {
            single_unit(literal_unit(end - lit_start), new, lit_start);
        }
    } else {
        let cand = candidate(new, table, bits, lit_start, pos);
        if is_match(new, base, pos, cand, base_end) {
            let length = match_length(new, base, pos, cand, end, base_end);
            let next = pos + length;
            match_run_bounded(
                new,
                pos + WORD_SIZE,
                base,
                cand + WORD_SIZE,
                min(end - pos - WORD_SIZE, base_end - cand - WORD_SIZE),
            );
            let literal = pending_literal(lit_start, pos);
            let copy = seq![copy_unit(cand, length)];
            let rest = scan_units(new, base, table, bits, end, base_end, next, next);
            small_scan_cost(new, base, table, bits, end, base_end, next, next);
            pending_literal_data(new, lit_start, pos);
            if lit_start < pos {
                single_unit(literal_unit(pos - lit_start), new, lit_start);
            }
            varint_bytes_short(cand as u64);
            single_unit(copy_unit(cand, length), new, pos);
            units_bytes_concat(literal, copy);
            units_bytes_concat(literal + copy, rest);
            units_span_concat(literal, copy);
            literal_data_concat(literal, copy, new, lit_start);
            literal_data_concat(literal + copy, rest, new, lit_start);
        } else {
            small_scan_cost(new, base, table, bits, end, base_end, lit_start, pos + 1);
        }
    }
}

/// **Identity.** The delta from a blob to itself takes at most 17 bytes,
/// however long the blob: a blob of 16 bytes or more is one copy of the whole
/// base.
pub proof fn identity_delta_is_short(data: Seq<u8>)
    requires
        data.len() <= usize::MAX,
    ensures
        encode_spec(data, data).len() <= 17,
        data.len() >= MIN_MATCH_LENGTH ==> encode_units(data, data) == seq![
            copy_unit(0, data.len() as int),
        ],
        decode_spec(encode_spec(data, data), data) == Ok::<Seq<u8>, DecodeFault>(data),
{
    identity_delta_fits(data);
    round_trip(data, data);
}

/// The size of the delta from a blob to itself, and its units.
proof fn identity_delta_fits(data: Seq<u8>)
    requires
        data.len() <= usize::MAX,
    ensures
        encode_spec(data, data).len() <= 17,
        data.len() >= MIN_MATCH_LENGTH ==> encode_units(data, data) == seq![
            copy_unit(0, data.len() as int),
        ],
{
    let len = data.len() as int;
    let units = encode_units(data, data);
    varint_bytes_short(0);
    match_run_is_longest(data, 0, data, 0, len);
    if len >= MIN_MATCH_LENGTH {
        match_run_unique(data, 0, data, 0, len, len);
        assert(prefix_length(data, data) == len);
        assert(suffix_length(data, data) == 0);
        assert(units =~= seq![copy_unit(0, len)]);
        single_unit(copy_unit(0, len), data, 0);
        varint_bytes_short((len / 64) as u64);
        varint_bytes_short(units_bytes(units).len() as u64);
    } else if len == 0 {
        empty_new_delta(data);
    } else {
        assert(prefix_length(data, data) == 0);
        match_run_back_is_longest(data, len, data, len, len);
        assert(suffix_length(data, data) == 0);
        let bits = hash_bits(len as nat);
        let table = fingerprint_index(data, 0, len, bits);
        let middle = scan_units(data, data, table, bits, len, len, 0, 0);
        assert(units =~= middle);
        small_scan_cost(data, data, table, bits, len, len, 0, 0);
        varint_bytes_short(units_bytes(units).len() as u64);
    }
}

/// Executing the instruction stream of a row of units that yields `new`,
/// followed by a copy that reaches past the end of the base, stops at that
/// copy.
pub proof fn execute_reaches_copy_beyond_base(
    delta: Seq<u8>,
    base: Seq<u8>,
    new: Seq<u8>,
    inst_end: int,
    cursor: int,
    literal_cursor: int,
    output: Seq<u8>,
    good: Seq<DeltaUnit>,
    bad: DeltaUnit,
    at: int,
)
    requires
        0 <= cursor,
        cursor + units_bytes(good).len() + unit_bytes(bad).len() <= inst_end <= delta.len(),
        delta.subrange(cursor, cursor + units_bytes(good).len() + unit_bytes(bad).len())
            == units_bytes(good) + unit_bytes(bad),
        0 <= literal_cursor,
        literal_cursor + literal_data(good, new, at).len() <= delta.len(),
        0 <= at <= new.len(),
        units_yield(good, base, new, at),
        bad.is_copy,
        bad.offset + bad.length > base.len(),
    ensures
        execute(delta, base, inst_end, cursor, literal_cursor, output) == Err::<
            Seq<u8>,
            DecodeFault,
        >(DecodeFault::CopyOutOfBounds { offset: bad.offset, length: bad.length }),
    decreases good.len(),
{
    let stretch = units_bytes(good) + unit_bytes(bad);
    let covered = delta.subrange(cursor, cursor + stretch.len());
    unit_bytes_len(bad);
    if good.len() == 0 {
        assert(covered =~= unit_bytes(bad));
        unit_parse_of_bytes(delta, cursor, bad);
        assert(bad.normalized() == bad);
    } else {
        let unit = good[0];
        let rest = good.drop_first();
        let encoding = unit_bytes(unit);
        let next = cursor + encoding.len();
        unit_bytes_len(unit);
        assert(delta.subrange(cursor, next) =~= encoding) by {
            assert(delta.subrange(cursor, next) =~= covered.subrange(0, encoding.len() as int));
        }
        assert(delta.subrange(next, next + units_bytes(rest).len() + unit_bytes(bad).len())
            =~= units_bytes(rest) + unit_bytes(bad)) by {
            assert(delta.subrange(next, next + units_bytes(rest).len() + unit_bytes(bad).len())
                =~= covered.subrange(encoding.len() as int, stretch.len() as int));
        }
        unit_parse_of_bytes(delta, cursor, unit);
        assert(unit.normalized() == unit);
        if unit.is_copy {
            execute_reaches_copy_beyond_base(
                delta,
                base,
                new,
                inst_end,
                next,
                literal_cursor,
                output + base.subrange(unit.offset as int, unit.offset + unit.length),
                rest,
                bad,
                at + unit.length,
            );
        } else {
            execute_reaches_copy_beyond_base(
                delta,
                base,
                new,
                inst_end,
                next,
                literal_cursor + unit.length,
                output + delta.subrange(literal_cursor, literal_cursor + unit.length),
                rest,
                bad,
                at + unit.length,
            );
        }
    }
}

/// **A length prefix beyond the delta is rejected.** A delta whose length
/// prefix announces more instruction bytes than follow it does not decode:
/// the fault is `LengthExceedsDelta`.
pub proof fn length_beyond_delta_rejected(length: u64, rest: Seq<u8>, base: Seq<u8>)
    requires
        rest.len() < length,
    ensures
        decode_spec(varint_bytes(length) + rest, base) == Err::<Seq<u8>, DecodeFault>(
            DecodeFault::LengthExceedsDelta,
        ),
{
    let delta = varint_bytes(length) + rest;
    assert(delta =~= Seq::<u8>::empty() + varint_bytes(length) + rest);
    varint_round_trip(Seq::<u8>::empty(), length, rest);
}

/// **A copy beyond the base is rejected.** A delta in which, after units
/// that execute well, a copy reaches past the end of the base does not
/// decode, whatever follows the copy: the fault is `CopyOutOfBounds` with the
/// offset and the length of that copy.
pub proof fn copy_beyond_base_rejected(
    new: Seq<u8>,
    base: Seq<u8>,
    good: Seq<DeltaUnit>,
    bad: DeltaUnit,
    more_instructions: Seq<u8>,
    more_literals: Seq<u8>,
)
    requires
        units_yield(good, base, new, 0),
        bad.is_copy,
        bad.offset + bad.length > base.len(),
        units_bytes(good).len() + unit_bytes(bad).len() + more_instructions.len() <= u64::MAX,
    ensures
        decode_spec(
            delta_bytes(
                units_bytes(good) + unit_bytes(bad) + more_instructions,
                literal_data(good, new, 0) + more_literals,
            ),
            base,
        ) == Err::<Seq<u8>, DecodeFault>(
            DecodeFault::CopyOutOfBounds { offset: bad.offset, length: bad.length },
        ),
{
    let instructions = units_bytes(good) + unit_bytes(bad) + more_instructions;
    let literals = literal_data(good, new, 0) + more_literals;
    let delta = delta_bytes(instructions, literals);
    let length = instructions.len() as u64;
    let header = varint_bytes(length);
    assert(delta =~= Seq::<u8>::empty() + header + (instructions + literals));
    varint_round_trip(Seq::<u8>::empty(), length, instructions + literals);
    let inst_start = header.len() as int;
    let inst_end = inst_start + instructions.len();
    assert(delta.subrange(inst_start, inst_start + units_bytes(good).len() + unit_bytes(bad).len())
        =~= units_bytes(good) + unit_bytes(bad));
    execute_reaches_copy_beyond_base(
        delta,
        base,
        new,
        inst_end,
        inst_start,
        inst_end,
        Seq::<u8>::empty(),
        good,
        bad,
        0,
    );
}

} // verus!
