//! Rows of delta units.
//!
//! The instructions of a delta, seen as a sequence of units rather than as
//! bytes: what a row of units looks like on the wire, how many bytes it
//! yields, which bytes of the new blob go into the literal data, and what it
//! means for a row to yield the new blob when it is executed against the
//! base.

use crate::varint::{unit_bytes, DeltaUnit};
use vstd::prelude::*;

verus! {

/// A copy unit, from mathematical integers.
pub open spec fn copy_unit(offset: int, length: int) -> DeltaUnit {
    DeltaUnit { is_copy: true, length: length as u64, offset: offset as u64 }
}

/// A literal unit, from a mathematical integer.
pub open spec fn literal_unit(length: int) -> DeltaUnit {
    DeltaUnit { is_copy: false, length: length as u64, offset: 0 }
}

/// The literal that is due when the scan is at `pos` and nothing has been
/// emitted since `lit_start`: none if the two coincide.
pub open spec fn pending_literal(lit_start: int, pos: int) -> Seq<DeltaUnit> {
    if lit_start < pos {
        seq![literal_unit(pos - lit_start)]
    } else {
        Seq::<DeltaUnit>::empty()
    }
}

/// A copy of `length` bytes from `offset`, if `length` is positive.
pub open spec fn optional_copy(offset: int, length: int) -> Seq<DeltaUnit> {
    if length > 0 {
        seq![copy_unit(offset, length)]
    } else {
        Seq::<DeltaUnit>::empty()
    }
}

/// The instruction stream of a row of units: their encodings one after
/// another.
pub open spec fn units_bytes(units: Seq<DeltaUnit>) -> Seq<u8>
    decreases units.len(),
{
    if units.len() == 0 {
        Seq::<u8>::empty()
    } else {
        unit_bytes(units[0]) + units_bytes(units.drop_first())
    }
}

/// The number of bytes that a row of units yields.
pub open spec fn units_span(units: Seq<DeltaUnit>) -> int
    decreases units.len(),
{
    if units.len() == 0 {
        0
    } else {
        units[0].length + units_span(units.drop_first())
    }
}

/// The literal data of a row of units that yields `new` from `at` on: the
/// bytes of `new` that fall to the literals, in order.
pub open spec fn literal_data(units: Seq<DeltaUnit>, new: Seq<u8>, at: int) -> Seq<u8>
    decreases units.len(),
{
    if units.len() == 0 {
        Seq::<u8>::empty()
    } else {
        let unit = units[0];
        let rest = literal_data(units.drop_first(), new, at + unit.length);
        if unit.is_copy {
            rest
        } else {
            new.subrange(at, at + unit.length) + rest
        }
    }
}

/// The instruction stream of two rows of units in a row is the two
/// instruction streams in a row.
pub proof fn units_bytes_concat(a: Seq<DeltaUnit>, b: Seq<DeltaUnit>)
    ensures
        units_bytes(a + b) == units_bytes(a) + units_bytes(b),
    decreases a.len(),
{
    if a.len() == 0 {
        assert(a + b =~= b);
    } else {
        assert((a + b).drop_first() =~= a.drop_first() + b);
        units_bytes_concat(a.drop_first(), b);
    }
}

/// Two rows of units in a row yield as many bytes as the two together.
pub proof fn units_span_concat(a: Seq<DeltaUnit>, b: Seq<DeltaUnit>)
    ensures
        units_span(a + b) == units_span(a) + units_span(b),
    decreases a.len(),
{
    if a.len() == 0 {
        assert(a + b =~= b);
    } else {
        assert((a + b).drop_first() =~= a.drop_first() + b);
        units_span_concat(a.drop_first(), b);
    }
}

/// The literal data of two rows of units in a row is the literal data of the
/// first and then that of the second, taken where the first ends.
pub proof fn literal_data_concat(a: Seq<DeltaUnit>, b: Seq<DeltaUnit>, new: Seq<u8>, at: int)
    ensures
        literal_data(a + b, new, at) == literal_data(a, new, at) + literal_data(
            b,
            new,
            at + units_span(a),
        ),
    decreases a.len(),
{
    if a.len() == 0 {
        assert(a + b =~= b);
    } else {
        assert((a + b).drop_first() =~= a.drop_first() + b);
        literal_data_concat(a.drop_first(), b, new, at + a[0].length);
    }
}

/// A row of one unit.
pub proof fn single_unit(unit: DeltaUnit, new: Seq<u8>, at: int)
    ensures
        units_bytes(seq![unit]) == unit_bytes(unit),
        units_span(seq![unit]) == unit.length,
        literal_data(seq![unit], new, at) == if unit.is_copy {
            Seq::<u8>::empty()
        } else {
            new.subrange(at, at + unit.length)
        },
{
    let row = seq![unit];
    reveal_with_fuel(units_bytes, 2);
    reveal_with_fuel(units_span, 2);
    reveal_with_fuel(literal_data, 2);
    assert(row.drop_first() =~= Seq::<DeltaUnit>::empty());
    assert(units_bytes(row) =~= unit_bytes(unit));
    assert(literal_data(row, new, at) =~= if unit.is_copy {
        Seq::<u8>::empty()
    } else {
        new.subrange(at, at + unit.length)
    });
}

/// What a pending literal yields and holds.
pub proof fn pending_literal_data(new: Seq<u8>, lit_start: int, pos: int)
    requires
        0 <= lit_start <= pos <= new.len(),
        pos <= u64::MAX,
    ensures
        units_span(pending_literal(lit_start, pos)) == pos - lit_start,
        literal_data(pending_literal(lit_start, pos), new, lit_start) == new.subrange(
            lit_start,
            pos,
        ),
{
    if lit_start < pos {
        single_unit(literal_unit(pos - lit_start), new, lit_start);
    } else {
        assert(new.subrange(lit_start, pos) =~= Seq::<u8>::empty());
    }
}

/// What an optional copy yields and holds.
pub proof fn optional_copy_data(new: Seq<u8>, at: int, offset: int, length: int)
    requires
        0 <= length <= u64::MAX,
    ensures
        units_span(optional_copy(offset, length)) == length,
        literal_data(optional_copy(offset, length), new, at) == Seq::<u8>::empty(),
{
    if length > 0 {
        single_unit(copy_unit(offset, length), new, at);
    }
}

/// Whether a row of units, executed against `base`, yields `new` from `at`
/// on: every unit yields at least one byte and stays within `new`, a literal
/// carries no offset, and a copy lies within `base` and copies the very bytes
/// that `new` has at that place.
pub open spec fn units_yield(units: Seq<DeltaUnit>, base: Seq<u8>, new: Seq<u8>, at: int) -> bool
    decreases units.len(),
{
    units.len() == 0 || {
        let unit = units[0];
        &&& unit.length >= 1
        &&& at + unit.length <= new.len()
        &&& unit.is_copy || unit.offset == 0
        &&& unit.is_copy ==> unit.offset + unit.length <= base.len() && base.subrange(
            unit.offset as int,
            unit.offset + unit.length,
        ) == new.subrange(at, at + unit.length)
        &&& units_yield(units.drop_first(), base, new, at + unit.length)
    }
}

/// Two rows of units in a row yield `new` if the first does and the second
/// does from where the first ends.
pub proof fn units_yield_concat(
    a: Seq<DeltaUnit>,
    b: Seq<DeltaUnit>,
    base: Seq<u8>,
    new: Seq<u8>,
    at: int,
)
    requires
        units_yield(a, base, new, at),
        units_yield(b, base, new, at + units_span(a)),
    ensures
        units_yield(a + b, base, new, at),
    decreases a.len(),
{
    if a.len() == 0 {
        assert(a + b =~= b);
    } else {
        assert((a + b).drop_first() =~= a.drop_first() + b);
        units_yield_concat(a.drop_first(), b, base, new, at + a[0].length);
    }
}

/// A row of units that yields `new` from `at` on ends within `new`.
pub proof fn units_yield_span(units: Seq<DeltaUnit>, base: Seq<u8>, new: Seq<u8>, at: int)
    requires
        0 <= at <= new.len(),
        units_yield(units, base, new, at),
    ensures
        units_span(units) >= 0,
        at + units_span(units) <= new.len(),
    decreases units.len(),
{
    if units.len() > 0 {
        units_yield_span(units.drop_first(), base, new, at + units[0].length);
    }
}

/// A pending literal yields the bytes that it stands for.
pub proof fn pending_literal_yields(base: Seq<u8>, new: Seq<u8>, lit_start: int, pos: int)
    requires
        0 <= lit_start <= pos <= new.len() <= u64::MAX,
    ensures
        units_yield(pending_literal(lit_start, pos), base, new, lit_start),
{
    reveal_with_fuel(units_yield, 2);
    if lit_start < pos {
        assert(pending_literal(lit_start, pos).drop_first() =~= Seq::<DeltaUnit>::empty());
    }
}

/// An optional copy yields the bytes of `new` at `at` if the base has the
/// same bytes at the offset of the copy.
pub proof fn optional_copy_yields(base: Seq<u8>, new: Seq<u8>, at: int, offset: int, length: int)
    requires
        0 <= at,
        0 <= length,
        at + length <= new.len(),
        0 <= offset,
        offset + length <= base.len() <= u64::MAX,
        base.subrange(offset, offset + length) == new.subrange(at, at + length),
    ensures
        units_yield(optional_copy(offset, length), base, new, at),
{
    reveal_with_fuel(units_yield, 2);
    if length > 0 {
        assert(optional_copy(offset, length).drop_first() =~= Seq::<DeltaUnit>::empty());
    }
}

/// Whether no two literals stand next to each other in a row of units.
pub open spec fn literals_apart(units: Seq<DeltaUnit>) -> bool {
    forall|i: int|
        #![trigger units[i]]
        0 <= i < units.len() - 1 ==> units[i].is_copy || units[i + 1].is_copy
}

/// Two rows in which literals are apart make a row in which literals are
/// apart, unless the first ends and the second begins with a literal.
pub proof fn literals_apart_concat(a: Seq<DeltaUnit>, b: Seq<DeltaUnit>)
    requires
        literals_apart(a),
        literals_apart(b),
        a.len() == 0 || b.len() == 0 || a.last().is_copy || b.first().is_copy,
    ensures
        literals_apart(a + b),
{
    let row = a + b;
    assert forall|i: int| 0 <= i < row.len() - 1 implies #[trigger] row[i].is_copy || row[i
        + 1].is_copy by {
        if i + 1 < a.len() {
            assert(row[i] == a[i] && row[i + 1] == a[i + 1]);
        } else if i >= a.len() {
            assert(row[i] == b[i - a.len()] && row[i + 1] == b[i - a.len() + 1]);
        } else {
            assert(row[i] == a.last() && row[i + 1] == b.first());
        }
    }
}

} // verus!
