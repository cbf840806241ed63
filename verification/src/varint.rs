//! Variable-length integers and delta units.
//!
//! A varint stores an unsigned 64-bit value least significant group first,
//! seven value bits to a byte; the top bit of a byte says that another byte
//! follows. A delta unit is a head byte with a kind flag, a continuation flag
//! and the six low bits of a length, followed by a varint with the rest of
//! the length where there is one and, for a copy, a varint with the offset.

use crate::buffer::BufferStream;
use crate::error::GDeltaError;
use vstd::prelude::*;

verus! {

/// The encoding of `v`: its seven-bit groups from the least significant up,
/// every byte but the last with its top bit set.
pub open spec fn varint_bytes(v: u64) -> Seq<u8>
    decreases v,
{
    if v < 128 {
        seq![v as u8]
    } else {
        seq![(v % 128 + 128) as u8] + varint_bytes(v / 128)
    }
}

/// Reads the varint that starts at `pos`: its value as a natural number,
/// however long the encoding, and the position after its last byte. `None`
/// when the bytes end before a byte with a clear top bit.
pub open spec fn varint_scan(s: Seq<u8>, pos: int) -> Option<(nat, int)>
    decreases s.len() - pos,
{
    if pos < 0 || pos >= s.len() {
        None
    } else if s[pos] < 128 {
        Some((s[pos] as nat, pos + 1))
    } else {
        match varint_scan(s, pos + 1) {
            Some((high, end)) => Some(((s[pos] - 128) as nat + 128 * high, end)),
            None => None,
        }
    }
}

/// Reads the varint that starts at `pos` as a `u64`: the low 64 bits of its
/// value, and the position after its last byte.
pub open spec fn varint_parse(s: Seq<u8>, pos: int) -> Option<(u64, int)> {
    match varint_scan(s, pos) {
        Some((value, end)) => Some(((value % 0x1_0000_0000_0000_0000) as u64, end)),
        None => None,
    }
}

/// An encoding is between one and ten bytes long.
pub proof fn varint_bytes_len(v: u64)
    ensures
        1 <= varint_bytes(v).len() <= 10,
{
    reveal_with_fuel(varint_bytes, 11);
}

/// A value below 128 takes one byte, and a value below 2^63 at most nine.
pub proof fn varint_bytes_short(v: u64)
    ensures
        v < 128 ==> varint_bytes(v).len() == 1,
        v < 0x8000_0000_0000_0000 ==> varint_bytes(v).len() <= 9,
{
    reveal_with_fuel(varint_bytes, 10);
}

/// A scan ends after its start and within the bytes.
pub proof fn varint_scan_end(s: Seq<u8>, pos: int)
    ensures
        varint_scan(s, pos) matches Some((_, end)) ==> pos < end <= s.len(),
    decreases s.len() - pos,
{
    if 0 <= pos < s.len() && s[pos] >= 128 {
        varint_scan_end(s, pos + 1);
    }
}

/// Where the bytes from `pos` on begin with the encoding of `v`, the scan at
/// `pos` yields `v` and ends right after the encoding.
pub proof fn varint_scan_of_bytes(s: Seq<u8>, pos: int, v: u64)
    requires
        0 <= pos,
        pos + varint_bytes(v).len() <= s.len(),
        s.subrange(pos, pos + varint_bytes(v).len()) == varint_bytes(v),
    ensures
        varint_scan(s, pos) == Some((v as nat, pos + varint_bytes(v).len())),
    decreases v,
{
    let enc = varint_bytes(v);
    assert(s[pos] == enc[0]);
    if v >= 128 {
        let rest = varint_bytes(v / 128);
        assert(enc == seq![(v % 128 + 128) as u8] + rest);
        assert(s.subrange(pos + 1, pos + 1 + rest.len()) =~= rest) by {
            assert forall|i: int| 0 <= i < rest.len() implies s[pos + 1 + i] == rest[i] by {
                assert(s[pos + 1 + i] == enc[1 + i]);
            }
        }
        varint_scan_of_bytes(s, pos + 1, v / 128);
    }
}

/// Where the bytes from `pos` on are a proper prefix of the encoding of `v`,
/// the scan at `pos` runs out of bytes.
pub proof fn varint_scan_of_prefix(s: Seq<u8>, pos: int, v: u64)
    requires
        0 <= pos <= s.len(),
        s.len() - pos < varint_bytes(v).len(),
        s.subrange(pos, s.len() as int) == varint_bytes(v).subrange(0, s.len() - pos),
    ensures
        varint_scan(s, pos) is None,
    decreases v,
{
    if pos < s.len() {
        let enc = varint_bytes(v);
        assert(s[pos] == s.subrange(pos, s.len() as int)[0]);
        assert(s[pos] == enc[0]);
        let rest = varint_bytes(v / 128);
        assert(enc == seq![(v % 128 + 128) as u8] + rest);
        assert(s.subrange(pos + 1, s.len() as int) =~= rest.subrange(0, s.len() - pos - 1)) by {
            assert forall|i: int| 0 <= i < s.len() - pos - 1 implies s[pos + 1 + i] == rest[i] by {
                assert(s[pos + 1 + i] == s.subrange(pos, s.len() as int)[1 + i]);
                assert(enc[1 + i] == rest[i]);
            }
        }
        varint_scan_of_prefix(s, pos + 1, v / 128);
    }
}

/// **Varint round trip.** Reading at the place where `v` was written yields
/// `v` and stops exactly after the bytes written, whatever precedes and
/// follows them.
pub proof fn varint_round_trip(before: Seq<u8>, v: u64, after: Seq<u8>)
    ensures
        varint_parse(before + varint_bytes(v) + after, before.len() as int) == Some(
            (v, (before.len() + varint_bytes(v).len()) as int),
        ),
{
    let s = before + varint_bytes(v) + after;
    let pos = before.len() as int;
    assert(s.subrange(pos, pos + varint_bytes(v).len()) =~= varint_bytes(v));
    varint_scan_of_bytes(s, pos, v);
}

proof fn group_facts(val: u64)
    by (bit_vector)
    ensures
        val & 0x7f == val % 128,
        val >> 7 == val / 128,
        (val & 0x7f) | 0x80 == (val % 128) + 128,
{
}

/// Appends the encoding of `value` to `buffer`.
pub fn write_varint(buffer: &mut BufferStream, value: u64)
    requires
        old(buffer).can_advance(varint_bytes(value).len()),
    ensures
        final(buffer)@ == old(buffer)@ + varint_bytes(value),
        final(buffer).spec_position() == old(buffer).spec_position() + varint_bytes(value).len(),
{
    let mut val = value;
    loop
        invariant_except_break
            buffer@ + varint_bytes(val) == old(buffer)@ + varint_bytes(value),
            buffer.spec_position() + varint_bytes(val).len() == old(buffer).spec_position()
                + varint_bytes(value).len(),
            buffer.can_advance(varint_bytes(val).len()),
        ensures
            buffer@ == old(buffer)@ + varint_bytes(value),
            buffer.spec_position() == old(buffer).spec_position() + varint_bytes(value).len(),
        decreases val,
    {
        proof {
            group_facts(val);
            varint_bytes_len(val);
        }
        let ghost before = buffer@;
        let low: u64 = val & 0x7f;
        let rest: u64 = val >> 7;
        if rest == 0 {
            buffer.write_u8(low as u8);
            assert(buffer@ =~= before + varint_bytes(val));
            assert(before + varint_bytes(val) == old(buffer)@ + varint_bytes(value));
            break ;
        }
        proof {
            varint_bytes_len(rest);
        }
        buffer.write_u8((low | 0x80) as u8);
        assert(buffer@ + varint_bytes(rest) =~= before + varint_bytes(val));
        val = rest;
    }
}

proof fn merge_facts(value: u64, low: u64, shift: u32)
    by (bit_vector)
    requires
        low < 128,
        shift <= 56,
        value < (1u64 << shift),
    ensures
        value | (low << shift) == value + low * (1u64 << shift),
        (1u64 << ((shift + 7) as u32)) == 128 * (1u64 << shift),
{
}

proof fn merge_top_facts(value: u64, low: u64)
    by (bit_vector)
    requires
        low < 128,
        value < 0x8000_0000_0000_0000,
    ensures
        value | (low << 63u32) == value + (low % 2) * 0x8000_0000_0000_0000,
{
}

proof fn shift_facts()
    by (bit_vector)
    ensures
        (1u64 << 63u32) == 0x8000_0000_0000_0000,
        (1u64 << 0u32) == 1,
{
}

proof fn byte_facts(byte: u8)
    by (bit_vector)
    ensures
        byte & 0x7f == byte % 128,
        (byte & 0x80 == 0) == (byte < 128),
        (byte & 0x40 != 0) == (byte % 128 >= 64),
        byte & 0x3f == byte % 64,
{
}

/// Where a failed read leaves a cursor that started at `pos` in `len` bytes:
/// at the end, or where it was if that is past the end.
pub open spec fn exhausted_position(pos: int, len: int) -> int {
    if pos <= len {
        len
    } else {
        pos
    }
}

/// Reads a varint at the cursor and moves the cursor past it.
///
/// The value is the low 64 bits of what the groups spell. Fails with
/// `UnexpectedEndOfData` when the bytes end inside the varint; the cursor is
/// then at the end.
pub fn read_varint(buffer: &mut BufferStream) -> (r: Result<u64, GDeltaError>)
    ensures
        final(buffer)@ == old(buffer)@,
        match varint_parse(old(buffer)@, old(buffer).spec_position() as int) {
            Some((value, end)) => {
                &&& r == Ok::<u64, GDeltaError>(value)
                &&& final(buffer).spec_position() == end
            },
            None => {
                &&& r == Err::<u64, GDeltaError>(GDeltaError::UnexpectedEndOfData)
                &&& final(buffer).spec_position() == exhausted_position(
                    old(buffer).spec_position() as int,
                    old(buffer)@.len() as int,
                )
            },
        },
{
    let ghost s = buffer@;
    let ghost start = buffer.spec_position() as int;
    let ghost mut acc: nat = 0;
    let ghost mut weight: nat = 1;
    let mut value: u64 = 0;
    let mut shift: u32 = 0;
    proof {
        shift_facts();
    }
    loop
        invariant
            buffer@ == s,
            start == old(buffer).spec_position(),
            s == old(buffer)@,
            start <= buffer.spec_position(),
            start <= s.len() ==> buffer.spec_position() <= s.len(),
            start > s.len() ==> buffer.spec_position() == start,
            varint_scan(s, start) == (match varint_scan(s, buffer.spec_position() as int) {
                Some((high, end)) => Some((acc + weight * high, end)),
                None => None,
            }),
            value == acc % 0x1_0000_0000_0000_0000,
            shift <= 63 || shift == 70,
            shift % 7 == 0,
            shift <= 63 ==> weight == (1u64 << shift) && acc < weight,
            shift == 70 ==> weight % 0x1_0000_0000_0000_0000 == 0,
        decreases s.len() + 1 - buffer.spec_position(),
    {
        let ghost pos = buffer.spec_position() as int;
        let byte = match buffer.read_u8() {
            Ok(byte) => byte,
            Err(e) => {
                return Err(e);
            },
        };
        let low: u64 = (byte & 0x7f) as u64;
        let ghost next_acc: nat = acc + weight * (low as nat);
        proof {
            byte_facts(byte);
            assert(weight * (low as nat) + acc == next_acc);
        }
        if shift < 64 {
            proof {
                let w = 1u64 << shift;
                assert(weight * (low as nat) == low * w) by (nonlinear_arith)
                    requires
                        weight == w,
                ;
                assert(value == acc);
                if shift <= 56 {
                    merge_facts(value, low, shift);
                    assert(low * w <= 127 * w) by (nonlinear_arith)
                        requires
                            low < 128,
                    ;
                    assert(next_acc < 0x1_0000_0000_0000_0000);
                } else {
                    shift_facts();
                    merge_top_facts(value, low);
                    assert(shift == 63);
                    assert(low * w == (low % 2) * 0x8000_0000_0000_0000 + 0x1_0000_0000_0000_0000
                        * (low / 2)) by (nonlinear_arith)
                        requires
                            w == 0x8000_0000_0000_0000,
                    ;
                    vstd::arithmetic::div_mod::lemma_mod_multiples_vanish(
                        (low / 2) as int,
                        acc + (low % 2) * 0x8000_0000_0000_0000,
                        0x1_0000_0000_0000_0000,
                    );
                }
            }
            value = value | (low << shift);
        } else {
            proof {
                let q = weight / 0x1_0000_0000_0000_0000;
                assert(weight * (low as nat) == 0x1_0000_0000_0000_0000 * (q * low))
                    by (nonlinear_arith)
                    requires
                        weight == 0x1_0000_0000_0000_0000 * q,
                ;
                vstd::arithmetic::div_mod::lemma_mod_multiples_vanish(
                    (q * low) as int,
                    acc as int,
                    0x1_0000_0000_0000_0000,
                );
            }
        }
        assert(value == next_acc % 0x1_0000_0000_0000_0000);
        if byte & 0x80 == 0 {
            return Ok(value);
        }
        proof {
            if let Some((high, end)) = varint_scan(s, pos + 1) {
                assert(acc + weight * ((byte - 128) as nat + 128 * high) == next_acc + (128
                    * weight) * high) by (nonlinear_arith)
                    requires
                        low == byte - 128,
                        next_acc == acc + weight * (low as nat),
                ;
            }
            if shift == 70 || shift == 63 {
                let q = weight / 0x1_0000_0000_0000_0000;
                assert((128 * weight) % 0x1_0000_0000_0000_0000 == 0) by {
                    if shift == 63 {
                        assert(128 * weight == 0x1_0000_0000_0000_0000 * 64);
                    } else {
                        assert(128 * weight == 0x1_0000_0000_0000_0000 * (128 * q))
                            by (nonlinear_arith)
                            requires
                                weight == 0x1_0000_0000_0000_0000 * q,
                        ;
                    }
                    vstd::arithmetic::div_mod::lemma_mod_multiples_basic(
                        if shift == 63 {
                            64
                        } else {
                            (128 * q) as int
                        },
                        0x1_0000_0000_0000_0000,
                    );
                }
            }
            acc = next_acc;
            weight = 128 * weight;
        }
        if shift < 63 {
            shift = shift + 7;
        } else {
            shift = 70;
        }
    }
}

/// One instruction of a delta: copy `length` bytes of the base from
/// `offset`, or take the next `length` bytes of literal data.
#[derive(Debug, Clone, Copy, PartialEq, Eq, Structural)]
pub struct DeltaUnit {
    /// Whether this is a copy; a literal otherwise.
    pub is_copy: bool,
    /// Number of bytes that the unit yields.
    pub length: u64,
    /// Where in the base a copy starts. It has no meaning in a literal.
    pub offset: u64,
}

impl DeltaUnit {
    /// A copy of `length` bytes of the base, starting at `offset`.
    pub fn copy(offset: u64, length: u64) -> (unit: Self)
        ensures
            unit == (DeltaUnit { is_copy: true, length, offset }),
    {
        DeltaUnit { is_copy: true, length, offset }
    }

    /// A literal of `length` bytes.
    pub fn literal(length: u64) -> (unit: Self)
        ensures
            unit == (DeltaUnit { is_copy: false, length, offset: 0 }),
    {
        DeltaUnit { is_copy: false, length, offset: 0 }
    }

    /// The unit as the wire keeps it: a literal carries no offset.
    pub open spec fn normalized(self) -> DeltaUnit {
        DeltaUnit {
            is_copy: self.is_copy,
            length: self.length,
            offset: if self.is_copy {
                self.offset
            } else {
                0
            },
        }
    }
}

/// The head byte of a unit: the kind in bit 7, whether the length goes on in
/// bit 6, and the six low bits of the length.
pub open spec fn unit_head(unit: DeltaUnit) -> u8 {
    ((if unit.is_copy {
        128int
    } else {
        0int
    }) + (if unit.length >= 64 {
        64int
    } else {
        0int
    }) + unit.length % 64) as u8
}

/// The encoding of a unit: the head byte, the rest of the length as a varint
/// where the length does not fit in six bits, and for a copy the offset as a
/// varint.
pub open spec fn unit_bytes(unit: DeltaUnit) -> Seq<u8> {
    seq![unit_head(unit)] + (if unit.length >= 64 {
        varint_bytes(unit.length / 64)
    } else {
        Seq::<u8>::empty()
    }) + (if unit.is_copy {
        varint_bytes(unit.offset)
    } else {
        Seq::<u8>::empty()
    })
}

/// The length of the unit whose head byte is at `pos`, and the position
/// after the length: the six low bits of the head byte alone, or those under
/// the varint that follows where the head byte announces one. The length is
/// the low 64 bits of the two put together. `None` when that varint is cut
/// short.
pub open spec fn unit_length_parse(s: Seq<u8>, pos: int) -> Option<(u64, int)> {
    let low = s[pos] % 64;
    if s[pos] % 128 >= 64 {
        match varint_parse(s, pos + 1) {
            Some((high, end)) => Some((((low + 64 * high) % 0x1_0000_0000_0000_0000) as u64, end)),
            None => None,
        }
    } else {
        Some((low as u64, pos + 1))
    }
}

/// Reads the unit that starts at `pos`, and the position after it. `None`
/// when the bytes end inside the unit. A literal is read with offset 0.
pub open spec fn unit_parse(s: Seq<u8>, pos: int) -> Option<(DeltaUnit, int)> {
    if pos < 0 || pos >= s.len() {
        None
    } else {
        match unit_length_parse(s, pos) {
            None => None,
            Some((length, after_length)) => if s[pos] >= 128 {
                match varint_parse(s, after_length) {
                    Some((offset, end)) => Some((DeltaUnit { is_copy: true, length, offset }, end)),
                    None => None,
                }
            } else {
                Some((DeltaUnit { is_copy: false, length, offset: 0 }, after_length))
            },
        }
    }
}

/// An encoded unit is between one and twenty bytes long.
pub proof fn unit_bytes_len(unit: DeltaUnit)
    ensures
        1 <= unit_bytes(unit).len() <= 20,
{
    varint_bytes_short((unit.length / 64) as u64);
    varint_bytes_len(unit.offset);
}

/// A unit ends after its start and within the bytes.
pub proof fn unit_parse_end(s: Seq<u8>, pos: int)
    ensures
        unit_parse(s, pos) matches Some((_, end)) ==> pos < end <= s.len(),
{
    if 0 <= pos < s.len() {
        varint_scan_end(s, pos + 1);
        if let Some((_, after_length)) = unit_length_parse(s, pos) {
            varint_scan_end(s, after_length);
        }
    }
}

/// What the fields of a head byte say of the unit it was made from.
proof fn unit_head_fields(unit: DeltaUnit)
    ensures
        unit_head(unit) >= 128 <==> unit.is_copy,
        unit_head(unit) % 128 >= 64 <==> unit.length >= 64,
        unit_head(unit) % 64 == unit.length % 64,
        (unit.length % 64 + 64 * (unit.length / 64)) % 0x1_0000_0000_0000_0000 == unit.length,
{
}

/// The parts of an encoded unit, as they lie in bytes that begin with it at
/// `pos`.
proof fn unit_bytes_parts(s: Seq<u8>, pos: int, unit: DeltaUnit)
    requires
        0 <= pos,
        pos + unit_bytes(unit).len() <= s.len(),
        s.subrange(pos, pos + unit_bytes(unit).len()) == unit_bytes(unit),
    ensures
        s[pos] == unit_head(unit),
        unit.length >= 64 ==> s.subrange(
            pos + 1,
            pos + 1 + varint_bytes((unit.length / 64) as u64).len(),
        ) == varint_bytes((unit.length / 64) as u64),
        unit.is_copy ==> s.subrange(
            pos + unit_bytes(unit).len() - varint_bytes(unit.offset).len(),
            pos + unit_bytes(unit).len(),
        ) == varint_bytes(unit.offset),
{
    let enc = unit_bytes(unit);
    let sub = s.subrange(pos, pos + enc.len());
    assert(s[pos] == sub[0]);
    if unit.length >= 64 {
        let part = varint_bytes((unit.length / 64) as u64);
        assert(s.subrange(pos + 1, pos + 1 + part.len()) =~= sub.subrange(
            1,
            1 + part.len() as int,
        ));
        assert(enc.subrange(1, 1 + part.len() as int) =~= part);
    }
    if unit.is_copy {
        let part = varint_bytes(unit.offset);
        assert(s.subrange(pos + enc.len() - part.len(), pos + enc.len()) =~= sub.subrange(
            enc.len() - part.len(),
            enc.len() as int,
        ));
        assert(enc.subrange(enc.len() - part.len(), enc.len() as int) =~= part);
    }
}

/// Where the bytes from `pos` on begin with the encoding of `unit`, the
/// unit read at `pos` is `unit` as the wire keeps it, and it ends right
/// after the encoding.
pub proof fn unit_parse_of_bytes(s: Seq<u8>, pos: int, unit: DeltaUnit)
    requires
        0 <= pos,
        pos + unit_bytes(unit).len() <= s.len(),
        s.subrange(pos, pos + unit_bytes(unit).len()) == unit_bytes(unit),
    ensures
        unit_parse(s, pos) == Some((unit.normalized(), pos + unit_bytes(unit).len())),
{
    let high = (unit.length / 64) as u64;
    unit_bytes_parts(s, pos, unit);
    unit_head_fields(unit);
    let after_length = if unit.length >= 64 {
        pos + 1 + varint_bytes(high).len()
    } else {
        pos + 1
    };
    if unit.length >= 64 {
        varint_scan_of_bytes(s, pos + 1, high);
        assert(varint_parse(s, pos + 1) == Some((high, after_length)));
    }
    assert(unit_length_parse(s, pos) == Some((unit.length, after_length)));
    if unit.is_copy {
        assert(after_length == pos + unit_bytes(unit).len() - varint_bytes(unit.offset).len());
        varint_scan_of_bytes(s, after_length, unit.offset);
        assert(varint_parse(s, after_length) == Some(
            (unit.offset, pos + unit_bytes(unit).len()),
        ));
    }
}

/// **Delta-unit round trip.** Reading at the place where a unit was written
/// yields that unit, with offset 0 if it is a literal, and stops exactly after
/// the bytes written, whatever precedes and follows them. A unit made by
/// [`DeltaUnit::copy`] or [`DeltaUnit::literal`] is read back unchanged.
pub proof fn unit_round_trip(before: Seq<u8>, unit: DeltaUnit, after: Seq<u8>)
    ensures
        unit_parse(before + unit_bytes(unit) + after, before.len() as int) == Some(
            (unit.normalized(), (before.len() + unit_bytes(unit).len()) as int),
        ),
        unit.is_copy || unit.offset == 0 ==> unit.normalized() == unit,
{
    let s = before + unit_bytes(unit) + after;
    let pos = before.len() as int;
    assert(s.subrange(pos, pos + unit_bytes(unit).len()) =~= unit_bytes(unit));
    unit_parse_of_bytes(s, pos, unit);
}

proof fn head_facts(length: u64, flag: u8, more: u8)
    by (bit_vector)
    requires
        flag <= 1,
        more <= 1,
    ensures
        length & 0x3f == length % 64,
        length >> 6u32 == length / 64,
        (flag << 7u32) | (more << 6u32) | ((length & 0x3f) as u8) == 128 * flag + 64 * more
            + length % 64,
{
}

proof fn length_facts(low: u64, high: u64)
    by (bit_vector)
    requires
        low < 64,
    ensures
        low | (high << 6u32) == (low + 64 * high) % 0x1_0000_0000_0000_0000,
{
}

/// Appends the encoding of `unit` to `buffer`.
pub fn write_delta_unit(buffer: &mut BufferStream, unit: &DeltaUnit)
    requires
        old(buffer).can_advance(unit_bytes(*unit).len()),
    ensures
        final(buffer)@ == old(buffer)@ + unit_bytes(*unit),
        final(buffer).spec_position() == old(buffer).spec_position() + unit_bytes(*unit).len(),
{
    let flag: u8 = if unit.is_copy {
        1
    } else {
        0
    };
    let head_length: u8 = (unit.length & 0x3f) as u8;
    let remaining_length: u64 = unit.length >> 6u32;
    let more: u8 = if remaining_length > 0 {
        1
    } else {
        0
    };
    proof {
        head_facts(unit.length, flag, more);
        varint_bytes_len(remaining_length);
        varint_bytes_len(unit.offset);
    }
    let head_byte: u8 = (flag << 7u32) | (more << 6u32) | head_length;
    assert(head_byte == unit_head(*unit));
    buffer.write_u8(head_byte);
    if remaining_length > 0 {
        write_varint(buffer, remaining_length);
    }
    if unit.is_copy {
        write_varint(buffer, unit.offset);
    }
    assert(buffer@ =~= old(buffer)@ + unit_bytes(*unit));
}

/// Reads a unit at the cursor and moves the cursor past it.
///
/// A literal is read with offset 0. Fails with `UnexpectedEndOfData` when
/// the bytes end inside the unit; the cursor is then at the end.
pub fn read_delta_unit(buffer: &mut BufferStream) -> (r: Result<DeltaUnit, GDeltaError>)
    ensures
        final(buffer)@ == old(buffer)@,
        match unit_parse(old(buffer)@, old(buffer).spec_position() as int) {
            Some((unit, end)) => {
                &&& r == Ok::<DeltaUnit, GDeltaError>(unit)
                &&& final(buffer).spec_position() == end
            },
            None => {
                &&& r == Err::<DeltaUnit, GDeltaError>(GDeltaError::UnexpectedEndOfData)
                &&& final(buffer).spec_position() == exhausted_position(
                    old(buffer).spec_position() as int,
                    old(buffer)@.len() as int,
                )
            },
        },
{
    let head_byte = match buffer.read_u8() {
        Ok(byte) => byte,
        Err(e) => {
            return Err(e);
        },
    };
    proof {
        byte_facts(head_byte);
    }
    let is_copy = (head_byte & 0x80) != 0;
    let more = (head_byte & 0x40) != 0;
    let mut length: u64 = (head_byte & 0x3f) as u64;
    if more {
        let remaining = match read_varint(buffer) {
            Ok(value) => value,
            Err(e) => {
                return Err(e);
            },
        };
        proof {
            length_facts(length, remaining);
        }
        length = length | (remaining << 6u32);
    }
    proof {
        varint_scan_end(buffer@, old(buffer).spec_position() + 1);
    }
    let offset = if is_copy {
        match read_varint(buffer) {
            Ok(value) => value,
            Err(e) => {
                return Err(e);
            },
        }
    } else {
        0
    };
    Ok(DeltaUnit { is_copy, length, offset })
}

} // verus!
