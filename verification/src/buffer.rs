//! A growable byte buffer with a cursor, for sequential reading and writing.

use crate::error::GDeltaError;
use vstd::prelude::*;
use vstd::slice::slice_to_vec;

verus! {

/// Initial capacity of the encoder's and decoder's working buffers.
pub const INIT_BUFFER_SIZE: usize = 131072;

/// A byte vector with a cursor.
///
/// Writes append to the vector and move the cursor forward by the number of
/// bytes written. Reads take bytes at the cursor and fail, without moving it,
/// when fewer bytes remain than were asked for.
pub struct BufferStream {
    buffer: Vec<u8>,
    cursor: usize,
}

impl View for BufferStream {
    type V = Seq<u8>;

    /// The bytes held by the stream.
    closed spec fn view(&self) -> Seq<u8> {
        self.buffer@
    }
}

impl BufferStream {
    /// The cursor.
    pub closed spec fn spec_position(&self) -> usize {
        self.cursor
    }

    /// Whether the cursor can move forward by `n` without leaving `usize`.
    ///
    /// A cursor inside the buffer always can: the buffer has grown by `n`
    /// bytes by the time the cursor moves.
    pub open spec fn can_advance(&self, n: nat) -> bool {
        self.spec_position() <= self@.len() || self.spec_position() + n <= usize::MAX
    }

    /// The bytes between the cursor and the end: none when the cursor is past
    /// the end.
    pub open spec fn spec_remaining(&self) -> nat {
        if self.spec_position() <= self@.len() {
            (self@.len() - self.spec_position()) as nat
        } else {
            0
        }
    }

    /// Creates an empty stream with room for `capacity` bytes.
    pub fn with_capacity(capacity: usize) -> (s: Self)
        ensures
            s@ == Seq::<u8>::empty(),
            s.spec_position() == 0,
    {
        BufferStream { buffer: Vec::with_capacity(capacity), cursor: 0 }
    }

    /// Wraps an existing vector, with the cursor at its start.
    pub fn from_vec(buffer: Vec<u8>) -> (s: Self)
        ensures
            s@ == buffer@,
            s.spec_position() == 0,
    {
        BufferStream { buffer, cursor: 0 }
    }

    /// Copies a slice into a new stream, with the cursor at its start.
    pub fn from_slice(data: &[u8]) -> (s: Self)
        ensures
            s@ == data@,
            s.spec_position() == 0,
    {
        BufferStream { buffer: slice_to_vec(data), cursor: 0 }
    }

    /// The cursor.
    #[verifier::when_used_as_spec(spec_position)]
    pub fn position(&self) -> (pos: usize)
        ensures
            pos == self.spec_position(),
    {
        self.cursor
    }

    /// Moves the cursor to `pos`, which may lie past the end.
    pub fn set_position(&mut self, pos: usize)
        ensures
            final(self).spec_position() == pos,
            final(self)@ == old(self)@,
    {
        self.cursor = pos;
    }

    /// The bytes held by the stream.
    pub fn as_slice(&self) -> (s: &[u8])
        ensures
            s@ == self@,
    {
        self.buffer.as_slice()
    }

    /// Gives up the stream for its bytes.
    pub fn into_vec(self) -> (v: Vec<u8>)
        ensures
            v@ == self@,
    {
        self.buffer
    }

    /// The number of bytes held.
    pub fn len(&self) -> (n: usize)
        ensures
            n == self@.len(),
    {
        self.buffer.len()
    }

    /// Whether the stream holds no bytes.
    pub fn is_empty(&self) -> (b: bool)
        ensures
            b == (self@.len() == 0),
    {
        self.buffer.len() == 0
    }

    /// The number of bytes between the cursor and the end.
    pub fn remaining(&self) -> (n: usize)
        ensures
            n == self.spec_remaining(),
    {
        if self.cursor <= self.buffer.len() {
            self.buffer.len() - self.cursor
        } else {
            0
        }
    }

    /// Appends one byte and moves the cursor forward by one.
    pub fn write_u8(&mut self, value: u8)
        requires
            old(self).can_advance(1),
        ensures
            final(self)@ == old(self)@.push(value),
            final(self).spec_position() == old(self).spec_position() + 1,
    {
        self.buffer.push(value);
        assert(self.buffer.len() == self.buffer@.len());
        self.cursor += 1;
    }

    /// Appends `data` and moves the cursor forward by its length.
    pub fn write_bytes(&mut self, data: &[u8])
        requires
            old(self).can_advance(data@.len()),
        ensures
            final(self)@ == old(self)@ + data@,
            final(self).spec_position() == old(self).spec_position() + data@.len(),
    {
        self.buffer.extend_from_slice(data);
        assert(self.buffer.len() == self.buffer@.len());
        assert(self.buffer@ =~= old(self).buffer@ + data@);
        self.cursor += data.len();
    }

    /// Reads the byte at the cursor and moves the cursor past it.
    ///
    /// Fails with `UnexpectedEndOfData`, leaving the cursor where it was,
    /// when the cursor is at or past the end.
    pub fn read_u8(&mut self) -> (r: Result<u8, GDeltaError>)
        ensures
            final(self)@ == old(self)@,
            old(self).spec_position() < old(self)@.len() ==> {
                &&& r == Ok::<u8, GDeltaError>(old(self)@[old(self).spec_position() as int])
                &&& final(self).spec_position() == old(self).spec_position() + 1
            },
            old(self).spec_position() >= old(self)@.len() ==> {
                &&& r == Err::<u8, GDeltaError>(GDeltaError::UnexpectedEndOfData)
                &&& final(self).spec_position() == old(self).spec_position()
            },
    {
        if self.cursor >= self.buffer.len() {
            return Err(GDeltaError::UnexpectedEndOfData);
        }
        let value = self.buffer[self.cursor];
        self.cursor += 1;
        Ok(value)
    }

    /// Reads `len` bytes at the cursor and moves the cursor past them.
    ///
    /// Fails with `UnexpectedEndOfData`, leaving the cursor where it was,
    /// when fewer than `len` bytes remain.
    pub fn read_bytes(&mut self, len: usize) -> (r: Result<&[u8], GDeltaError>)
        ensures
            final(self)@ == old(self)@,
            old(self).spec_position() + len <= old(self)@.len() ==> {
                &&& r matches Ok(bytes)
                &&& bytes@ == old(self)@.subrange(
                    old(self).spec_position() as int,
                    old(self).spec_position() + len,
                )
                &&& final(self).spec_position() == old(self).spec_position() + len
            },
            old(self).spec_position() + len > old(self)@.len() ==> {
                &&& r == Err::<&[u8], GDeltaError>(GDeltaError::UnexpectedEndOfData)
                &&& final(self).spec_position() == old(self).spec_position()
            },
    {
        if self.cursor > self.buffer.len() || len > self.buffer.len() - self.cursor {
            return Err(GDeltaError::UnexpectedEndOfData);
        }
        let start = self.cursor;
        self.cursor += len;
        Ok(&self.buffer[start..self.cursor])
    }

    /// The `len` bytes at `position`, without regard to the cursor.
    ///
    /// Fails with `UnexpectedEndOfData` when the range runs past the end.
    pub fn peek_at(&self, position: usize, len: usize) -> (r: Result<&[u8], GDeltaError>)
        ensures
            position + len <= self@.len() ==> {
                &&& r matches Ok(bytes)
                &&& bytes@ == self@.subrange(position as int, position + len)
            },
            position + len > self@.len() ==> r == Err::<&[u8], GDeltaError>(
                GDeltaError::UnexpectedEndOfData,
            ),
    {
        if position > self.buffer.len() || len > self.buffer.len() - position {
            return Err(GDeltaError::UnexpectedEndOfData);
        }
        Ok(&self.buffer[position..position + len])
    }

    /// Appends the `len` bytes that `other` holds at `position`.
    ///
    /// Fails with `UnexpectedEndOfData`, changing nothing, when the range
    /// runs past the end of `other`.
    pub fn copy_from(&mut self, other: &BufferStream, position: usize, len: usize) -> (r: Result<
        (),
        GDeltaError,
    >)
        requires
            position + len <= other@.len() ==> old(self).can_advance(len as nat),
        ensures
            position + len <= other@.len() ==> {
                &&& r is Ok
                &&& final(self)@ == old(self)@ + other@.subrange(position as int, position + len)
                &&& final(self).spec_position() == old(self).spec_position() + len
            },
            position + len > other@.len() ==> {
                &&& r == Err::<(), GDeltaError>(GDeltaError::UnexpectedEndOfData)
                &&& final(self)@ == old(self)@
                &&& final(self).spec_position() == old(self).spec_position()
            },
    {
        match other.peek_at(position, len) {
            Ok(data) => {
                self.write_bytes(data);
                Ok(())
            },
            Err(e) => Err(e),
        }
    }

    /// Moves the next `len` bytes of `other`, from its cursor, to the end of
    /// this stream.
    ///
    /// Fails with `UnexpectedEndOfData`, changing neither stream, when
    /// `other` has fewer than `len` bytes left.
    pub fn append_from_cursor(&mut self, other: &mut BufferStream, len: usize) -> (r: Result<
        (),
        GDeltaError,
    >)
        requires
            old(other).spec_position() + len <= old(other)@.len() ==> old(self).can_advance(
                len as nat,
            ),
        ensures
            final(other)@ == old(other)@,
            old(other).spec_position() + len <= old(other)@.len() ==> {
                &&& r is Ok
                &&& final(self)@ == old(self)@ + old(other)@.subrange(
                    old(other).spec_position() as int,
                    old(other).spec_position() + len,
                )
                &&& final(self).spec_position() == old(self).spec_position() + len
                &&& final(other).spec_position() == old(other).spec_position() + len
            },
            old(other).spec_position() + len > old(other)@.len() ==> {
                &&& r == Err::<(), GDeltaError>(GDeltaError::UnexpectedEndOfData)
                &&& final(self)@ == old(self)@
                &&& final(self).spec_position() == old(self).spec_position()
                &&& final(other).spec_position() == old(other).spec_position()
            },
    {
        match other.read_bytes(len) {
            Ok(data) => {
                self.write_bytes(data);
                Ok(())
            },
            Err(e) => Err(e),
        }
    }

    /// Makes room for at least `additional` more bytes.
    pub fn reserve(&mut self, additional: usize)
        ensures
            final(self)@ == old(self)@,
            final(self).spec_position() == old(self).spec_position(),
    {
        self.buffer.reserve(additional);
    }
}

} // verus!
