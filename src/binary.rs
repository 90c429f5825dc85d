use crate::codec::{
    be_bytes, be_value, bool_byte, groups_to_u128, i16_from_bits, i16_to_bits, i32_from_bits,
    i32_to_bits, i64_from_bits, i64_to_bits, le_bytes, le_value, lemma_be_bytes_len,
    lemma_be_value_bound, lemma_byte_powers, lemma_continued, lemma_le_bytes_len,
    lemma_le_value_bound, push_be, push_le, signed_of, twos_of, uint_from_be, uint_from_le,
    unzigzag, unzigzag_u32, unzigzag_u64, var_encode, var_read, zigzag, zigzag_i32, zigzag_i64,
    VarRead,
};
use vstd::arithmetic::power::*;
use vstd::prelude::*;

verus! {

/// Why a read or a repositioning of a [`Stream`] failed.
#[derive(Clone, Copy, Debug, PartialEq, Eq, Structural)]
pub enum StreamError {
    /// A fixed-size read would run past the end of the buffer.
    OutOfRange,
    /// The operation needs at least one unread byte and the cursor is at the end.
    EndOfStream,
    /// A new cursor position lies past the end of the buffer.
    InvalidOffset,
    /// A variable-length integer did not end within its maximum byte count.
    MalformedVarInt,
}

/// A byte buffer with a read cursor. Reads advance the cursor; writes append
/// to the buffer and leave the cursor where it is.
pub struct Stream {
    buffer: Vec<u8>,
    offset: u32,
}

impl Stream {
    /// The bytes held by the stream.
    pub closed spec fn bytes(&self) -> Seq<u8> {
        self.buffer@
    }

    /// The index of the next byte to be read.
    pub closed spec fn pos(&self) -> nat {
        self.offset as nat
    }

    /// The cursor lies within the buffer, and every position of the buffer
    /// can be named by the 32-bit cursor.
    pub open spec fn wf(&self) -> bool {
        &&& self.pos() <= self.bytes().len()
        &&& self.bytes().len() <= u32::MAX
    }

    /// Creates a stream over `buffer` with the cursor at `offset`.
    pub fn new(buffer: Vec<u8>, offset: u32) -> (s: Self)
        requires
            offset <= buffer@.len(),
            buffer@.len() <= u32::MAX,
        ensures
            s.wf(),
            s.bytes() == buffer@,
            s.pos() == offset,
    {
        Stream { buffer, offset }
    }

    /// Creates an empty stream, with room reserved for `capacity` bytes.
    pub fn with_capacity(capacity: usize) -> (s: Self)
        ensures
            s.wf(),
            s.bytes() == Seq::<u8>::empty(),
            s.pos() == 0,
    {
        Stream { buffer: Vec::with_capacity(capacity), offset: 0 }
    }

    /// The bytes from the cursor to the end.
    pub open spec fn unread(&self) -> Seq<u8> {
        self.bytes().skip(self.pos() as int)
    }

    /// At least `n` bytes lie past the cursor.
    pub open spec fn has(&self, n: nat) -> bool {
        self.pos() + n <= self.bytes().len()
    }

    /// The `n` bytes that start at the cursor.
    pub open spec fn peek(&self, n: nat) -> Seq<u8> {
        self.bytes().subrange(self.pos() as int, (self.pos() + n) as int)
    }

    /// `n` more bytes can be appended without leaving the cursor's range.
    pub open spec fn room(&self, n: nat) -> bool {
        self.bytes().len() + n <= u32::MAX
    }

    /// `after` is `self` after a read of `n` bytes: the cursor moved on by `n`
    /// when they were there and stayed put when they were not.
    pub open spec fn read_step(&self, after: Stream, n: nat) -> bool {
        &&& after.wf()
        &&& after.bytes() == self.bytes()
        &&& after.pos() == if self.has(n) { self.pos() + n } else { self.pos() }
    }

    /// `after` is `self` with `tail` appended and the cursor unmoved.
    pub open spec fn write_step(&self, after: Stream, tail: Seq<u8>) -> bool {
        &&& after.wf()
        &&& after.bytes() == self.bytes() + tail
        &&& after.pos() == self.pos()
    }

    /// Moves the cursor back to the start of the buffer.
    pub fn rewind(&mut self)
        requires
            old(self).wf(),
        ensures
            final(self).wf(),
            final(self).bytes() == old(self).bytes(),
            final(self).pos() == 0,
    {
        self.offset = 0;
    }

    /// Whether the cursor has reached the end of the buffer.
    pub fn feof(&self) -> (r: bool)
        requires
            self.wf(),
        ensures
            r == (self.pos() == self.bytes().len()),
    {
        self.offset as usize >= self.buffer.len()
    }

    /// Moves the cursor to `offset`, which must not lie past the end.
    pub fn set_offset(&mut self, offset: u32) -> (r: Result<(), StreamError>)
        requires
            old(self).wf(),
        ensures
            final(self).wf(),
            final(self).bytes() == old(self).bytes(),
            offset <= old(self).bytes().len() ==> r == Ok::<(), StreamError>(()) && final(self).pos()
                == offset,
            offset > old(self).bytes().len() ==> r == Err::<(), StreamError>(
                StreamError::InvalidOffset,
            ) && final(self).pos() == old(self).pos(),
    {
        if offset as usize <= self.buffer.len() {
            self.offset = offset;
            Ok(())
        } else {
            Err(StreamError::InvalidOffset)
        }
    }

    /// The index of the next byte to be read.
    pub fn get_offset(&self) -> (r: u32)
        ensures
            r == self.pos(),
    {
        self.offset
    }

    /// The whole buffer, read and unread alike.
    pub fn get_buffer(&self) -> (r: &[u8])
        ensures
            r@ == self.bytes(),
    {
        self.buffer.as_slice()
    }

    /// Reads the next `length` bytes and moves the cursor past them. Fails,
    /// leaving the cursor where it was, when fewer than `length` remain.
    pub fn get(&mut self, length: u32) -> (r: Result<Vec<u8>, StreamError>)
        requires
            old(self).wf(),
        ensures
            old(self).read_step(*final(self), length as nat),
            match r {
                Ok(v) => old(self).has(length as nat) && v@ == old(self).peek(length as nat),
                Err(e) => !old(self).has(length as nat) && e == StreamError::OutOfRange,
            },
    {
        let start = self.offset as usize;
        if length as usize > self.buffer.len() - start {
            return Err(StreamError::OutOfRange);
        }
        let end = start + length as usize;
        let mut out: Vec<u8> = Vec::with_capacity(length as usize);
        let mut i: usize = start;
        while i < end
            invariant
                start <= i <= end <= self.buffer@.len(),
                out@ == self.buffer@.subrange(start as int, i as int),
            decreases end - i,
        {
            out.push(self.buffer[i]);
            i = i + 1;
        }
        self.offset = end as u32;
        Ok(out)
    }

    /// The bytes from the cursor to the end, leaving the cursor where it is.
    /// Fails when nothing is left to read.
    pub fn get_remaining(&self) -> (r: Result<Vec<u8>, StreamError>)
        requires
            self.wf(),
        ensures
            match r {
                Ok(v) => self.pos() < self.bytes().len() && v@ == self.unread(),
                Err(e) => self.pos() == self.bytes().len() && e == StreamError::EndOfStream,
            },
    {
        let start = self.offset as usize;
        if start >= self.buffer.len() {
            return Err(StreamError::EndOfStream);
        }
        let mut out: Vec<u8> = Vec::with_capacity(self.buffer.len() - start);
        let mut i: usize = start;
        while i < self.buffer.len()
            invariant
                start <= i <= self.buffer@.len(),
                out@ == self.buffer@.subrange(start as int, i as int),
            decreases self.buffer@.len() - i,
        {
            out.push(self.buffer[i]);
            i = i + 1;
        }
        Ok(out)
    }

    /// Appends `value` to the buffer.
    pub fn put(&mut self, value: Vec<u8>)
        requires
            old(self).wf(),
            old(self).room(value@.len()),
        ensures
            old(self).write_step(*final(self), value@),
    {
        let mut value = value;
        self.buffer.append(&mut value);
    }
    // ----- byte-order plumbing shared by the fixed-width accessors -----

    /// Reads `n` bytes as an unsigned big-endian value.
    fn read_be(&mut self, n: u32) -> (r: Result<u64, StreamError>)
        requires
            old(self).wf(),
            n <= 8,
        ensures
            old(self).read_step(*final(self), n as nat),
            r == if old(self).has(n as nat) {
                Ok::<u64, StreamError>(be_value(old(self).peek(n as nat)) as u64)
            } else {
                Err::<u64, StreamError>(StreamError::OutOfRange)
            },
            old(self).has(n as nat) ==> be_value(old(self).peek(n as nat)) < pow(256, n as nat),
    {
        match self.get(n) {
            Ok(b) => {
                proof {
                    lemma_be_value_bound(b@);
                }
                Ok(uint_from_be(&b))
            },
            Err(e) => Err(e),
        }
    }

    /// Reads `n` bytes as an unsigned little-endian value.
    fn read_le(&mut self, n: u32) -> (r: Result<u64, StreamError>)
        requires
            old(self).wf(),
            n <= 8,
        ensures
            old(self).read_step(*final(self), n as nat),
            r == if old(self).has(n as nat) {
                Ok::<u64, StreamError>(le_value(old(self).peek(n as nat)) as u64)
            } else {
                Err::<u64, StreamError>(StreamError::OutOfRange)
            },
            old(self).has(n as nat) ==> le_value(old(self).peek(n as nat)) < pow(256, n as nat),
    {
        match self.get(n) {
            Ok(b) => {
                proof {
                    lemma_le_value_bound(b@);
                }
                Ok(uint_from_le(&b))
            },
            Err(e) => Err(e),
        }
    }

    /// Appends the low `n` bytes of `v`, most-significant first.
    fn write_be(&mut self, v: u64, n: usize)
        requires
            old(self).wf(),
            old(self).room(n as nat),
        ensures
            old(self).write_step(*final(self), be_bytes(v as nat, n as nat)),
    {
        proof {
            lemma_be_bytes_len(v as nat, n as nat);
        }
        push_be(&mut self.buffer, v, n);
    }

    /// Appends the low `n` bytes of `v`, least-significant first.
    fn write_le(&mut self, v: u64, n: usize)
        requires
            old(self).wf(),
            old(self).room(n as nat),
        ensures
            old(self).write_step(*final(self), le_bytes(v as nat, n as nat)),
    {
        proof {
            lemma_le_bytes_len(v as nat, n as nat);
        }
        push_le(&mut self.buffer, v, n);
    }

    // ----- single bytes -----

    /// Reads one byte: `false` when it is zero, `true` otherwise.
    pub fn get_bool(&mut self) -> (r: Result<bool, StreamError>)
        requires
            old(self).wf(),
        ensures
            old(self).read_step(*final(self), 1),
            r == if old(self).has(1) {
                Ok::<bool, StreamError>(old(self).peek(1)[0] != 0)
            } else {
                Err::<bool, StreamError>(StreamError::OutOfRange)
            },
    {
        match self.get(1) {
            Ok(b) => Ok(b[0] != 0),
            Err(e) => Err(e),
        }
    }

    /// Writes `0x01` for `true` and `0x00` for `false`.
    pub fn put_bool(&mut self, value: bool)
        requires
            old(self).wf(),
            old(self).room(1),
        ensures
            old(self).write_step(*final(self), seq![bool_byte(value)]),
    {
        self.buffer.push(if value { 0x01 } else { 0x00 });
        assert(self.buffer@ =~= old(self).bytes() + seq![bool_byte(value)]);
    }

    /// Reads one byte.
    pub fn get_byte(&mut self) -> (r: Result<u8, StreamError>)
        requires
            old(self).wf(),
        ensures
            old(self).read_step(*final(self), 1),
            r == if old(self).has(1) {
                Ok::<u8, StreamError>(old(self).peek(1)[0])
            } else {
                Err::<u8, StreamError>(StreamError::OutOfRange)
            },
    {
        match self.get(1) {
            Ok(b) => Ok(b[0]),
            Err(e) => Err(e),
        }
    }

    /// Writes one byte.
    pub fn put_byte(&mut self, value: u8)
        requires
            old(self).wf(),
            old(self).room(1),
        ensures
            old(self).write_step(*final(self), seq![value]),
    {
        self.buffer.push(value);
        assert(self.buffer@ =~= old(self).bytes() + seq![value]);
    }

    // ----- 16-bit integers -----

    /// Reads an unsigned 16-bit integer (big-endian).
    pub fn get_u16_be(&mut self) -> (r: Result<u16, StreamError>)
        requires
            old(self).wf(),
        ensures
            old(self).read_step(*final(self), 2),
            r == if old(self).has(2) {
                Ok::<u16, StreamError>(be_value(old(self).peek(2)) as u16)
            } else {
                Err::<u16, StreamError>(StreamError::OutOfRange)
            },
    {
        proof {
            lemma_byte_powers();
        }
        match self.read_be(2) {
            Ok(v) => Ok(v as u16),
            Err(e) => Err(e),
        }
    }

    /// Writes an unsigned 16-bit integer (big-endian).
    pub fn put_u16_be(&mut self, value: u16)
        requires
            old(self).wf(),
            old(self).room(2),
        ensures
            old(self).write_step(*final(self), be_bytes(value as nat, 2)),
    {
        self.write_be(value as u64, 2);
    }

    /// Reads a signed 16-bit integer (big-endian).
    pub fn get_i16_be(&mut self) -> (r: Result<i16, StreamError>)
        requires
            old(self).wf(),
        ensures
            old(self).read_step(*final(self), 2),
            r == if old(self).has(2) {
                Ok::<i16, StreamError>(signed_of(be_value(old(self).peek(2)), 0x1_0000) as i16)
            } else {
                Err::<i16, StreamError>(StreamError::OutOfRange)
            },
    {
        proof {
            lemma_byte_powers();
        }
        match self.read_be(2) {
            Ok(v) => Ok(i16_from_bits(v as u16)),
            Err(e) => Err(e),
        }
    }

    /// Writes a signed 16-bit integer (big-endian).
    pub fn put_i16_be(&mut self, value: i16)
        requires
            old(self).wf(),
            old(self).room(2),
        ensures
            old(self).write_step(*final(self), be_bytes(twos_of(value as int, 0x1_0000), 2)),
    {
        self.write_be(i16_to_bits(value) as u64, 2);
    }

    /// Reads an unsigned 16-bit integer (little-endian).
    pub fn get_u16_le(&mut self) -> (r: Result<u16, StreamError>)
        requires
            old(self).wf(),
        ensures
            old(self).read_step(*final(self), 2),
            r == if old(self).has(2) {
                Ok::<u16, StreamError>(le_value(old(self).peek(2)) as u16)
            } else {
                Err::<u16, StreamError>(StreamError::OutOfRange)
            },
    {
        proof {
            lemma_byte_powers();
        }
        match self.read_le(2) {
            Ok(v) => Ok(v as u16),
            Err(e) => Err(e),
        }
    }

    /// Writes an unsigned 16-bit integer (little-endian).
    pub fn put_u16_le(&mut self, value: u16)
        requires
            old(self).wf(),
            old(self).room(2),
        ensures
            old(self).write_step(*final(self), le_bytes(value as nat, 2)),
    {
        self.write_le(value as u64, 2);
    }

    /// Reads a signed 16-bit integer (little-endian).
    pub fn get_i16_le(&mut self) -> (r: Result<i16, StreamError>)
        requires
            old(self).wf(),
        ensures
            old(self).read_step(*final(self), 2),
            r == if old(self).has(2) {
                Ok::<i16, StreamError>(signed_of(le_value(old(self).peek(2)), 0x1_0000) as i16)
            } else {
                Err::<i16, StreamError>(StreamError::OutOfRange)
            },
    {
        proof {
            lemma_byte_powers();
        }
        match self.read_le(2) {
            Ok(v) => Ok(i16_from_bits(v as u16)),
            Err(e) => Err(e),
        }
    }

    /// Writes a signed 16-bit integer (little-endian).
    pub fn put_i16_le(&mut self, value: i16)
        requires
            old(self).wf(),
            old(self).room(2),
        ensures
            old(self).write_step(*final(self), le_bytes(twos_of(value as int, 0x1_0000), 2)),
    {
        self.write_le(i16_to_bits(value) as u64, 2);
    }

    // ----- 24-bit integers (triads), held in the low bits of a `u32` -----

    /// Reads an unsigned 24-bit integer; writing keeps only the low 24 bits (big-endian).
    pub fn get_u24_be(&mut self) -> (r: Result<u32, StreamError>)
        requires
            old(self).wf(),
        ensures
            old(self).read_step(*final(self), 3),
            r == if old(self).has(3) {
                Ok::<u32, StreamError>(be_value(old(self).peek(3)) as u32)
            } else {
                Err::<u32, StreamError>(StreamError::OutOfRange)
            },
    {
        proof {
            lemma_byte_powers();
        }
        match self.read_be(3) {
            Ok(v) => Ok(v as u32),
            Err(e) => Err(e),
        }
    }

    /// Writes an unsigned 24-bit integer; writing keeps only the low 24 bits (big-endian).
    pub fn put_u24_be(&mut self, value: u32)
        requires
            old(self).wf(),
            old(self).room(3),
        ensures
            old(self).write_step(*final(self), be_bytes(value as nat, 3)),
    {
        self.write_be(value as u64, 3);
    }

    /// Reads an unsigned 24-bit integer; writing keeps only the low 24 bits (little-endian).
    pub fn get_u24_le(&mut self) -> (r: Result<u32, StreamError>)
        requires
            old(self).wf(),
        ensures
            old(self).read_step(*final(self), 3),
            r == if old(self).has(3) {
                Ok::<u32, StreamError>(le_value(old(self).peek(3)) as u32)
            } else {
                Err::<u32, StreamError>(StreamError::OutOfRange)
            },
    {
        proof {
            lemma_byte_powers();
        }
        match self.read_le(3) {
            Ok(v) => Ok(v as u32),
            Err(e) => Err(e),
        }
    }

    /// Writes an unsigned 24-bit integer; writing keeps only the low 24 bits (little-endian).
    pub fn put_u24_le(&mut self, value: u32)
        requires
            old(self).wf(),
            old(self).room(3),
        ensures
            old(self).write_step(*final(self), le_bytes(value as nat, 3)),
    {
        self.write_le(value as u64, 3);
    }

    // ----- 32-bit integers -----

    /// Reads an unsigned 32-bit integer (big-endian).
    pub fn get_u32_be(&mut self) -> (r: Result<u32, StreamError>)
        requires
            old(self).wf(),
        ensures
            old(self).read_step(*final(self), 4),
            r == if old(self).has(4) {
                Ok::<u32, StreamError>(be_value(old(self).peek(4)) as u32)
            } else {
                Err::<u32, StreamError>(StreamError::OutOfRange)
            },
    {
        proof {
            lemma_byte_powers();
        }
        match self.read_be(4) {
            Ok(v) => Ok(v as u32),
            Err(e) => Err(e),
        }
    }

    /// Writes an unsigned 32-bit integer (big-endian).
    pub fn put_u32_be(&mut self, value: u32)
        requires
            old(self).wf(),
            old(self).room(4),
        ensures
            old(self).write_step(*final(self), be_bytes(value as nat, 4)),
    {
        self.write_be(value as u64, 4);
    }

    /// Reads a signed 32-bit integer (big-endian).
    pub fn get_i32_be(&mut self) -> (r: Result<i32, StreamError>)
        requires
            old(self).wf(),
        ensures
            old(self).read_step(*final(self), 4),
            r == if old(self).has(4) {
                Ok::<i32, StreamError>(signed_of(be_value(old(self).peek(4)), 0x1_0000_0000) as i32)
            } else {
                Err::<i32, StreamError>(StreamError::OutOfRange)
            },
    {
        proof {
            lemma_byte_powers();
        }
        match self.read_be(4) {
            Ok(v) => Ok(i32_from_bits(v as u32)),
            Err(e) => Err(e),
        }
    }

    /// Writes a signed 32-bit integer (big-endian).
    pub fn put_i32_be(&mut self, value: i32)
        requires
            old(self).wf(),
            old(self).room(4),
        ensures
            old(self).write_step(*final(self), be_bytes(twos_of(value as int, 0x1_0000_0000), 4)),
    {
        self.write_be(i32_to_bits(value) as u64, 4);
    }

    /// Reads an unsigned 32-bit integer (little-endian).
    pub fn get_u32_le(&mut self) -> (r: Result<u32, StreamError>)
        requires
            old(self).wf(),
        ensures
            old(self).read_step(*final(self), 4),
            r == if old(self).has(4) {
                Ok::<u32, StreamError>(le_value(old(self).peek(4)) as u32)
            } else {
                Err::<u32, StreamError>(StreamError::OutOfRange)
            },
    {
        proof {
            lemma_byte_powers();
        }
        match self.read_le(4) {
            Ok(v) => Ok(v as u32),
            Err(e) => Err(e),
        }
    }

    /// Writes an unsigned 32-bit integer (little-endian).
    pub fn put_u32_le(&mut self, value: u32)
        requires
            old(self).wf(),
            old(self).room(4),
        ensures
            old(self).write_step(*final(self), le_bytes(value as nat, 4)),
    {
        self.write_le(value as u64, 4);
    }

    /// Reads a signed 32-bit integer (little-endian).
    pub fn get_i32_le(&mut self) -> (r: Result<i32, StreamError>)
        requires
            old(self).wf(),
        ensures
            old(self).read_step(*final(self), 4),
            r == if old(self).has(4) {
                Ok::<i32, StreamError>(signed_of(le_value(old(self).peek(4)), 0x1_0000_0000) as i32)
            } else {
                Err::<i32, StreamError>(StreamError::OutOfRange)
            },
    {
        proof {
            lemma_byte_powers();
        }
        match self.read_le(4) {
            Ok(v) => Ok(i32_from_bits(v as u32)),
            Err(e) => Err(e),
        }
    }

    /// Writes a signed 32-bit integer (little-endian).
    pub fn put_i32_le(&mut self, value: i32)
        requires
            old(self).wf(),
            old(self).room(4),
        ensures
            old(self).write_step(*final(self), le_bytes(twos_of(value as int, 0x1_0000_0000), 4)),
    {
        self.write_le(i32_to_bits(value) as u64, 4);
    }

    // ----- 64-bit integers -----

    /// Reads a signed 64-bit integer (big-endian).
    pub fn get_i64_be(&mut self) -> (r: Result<i64, StreamError>)
        requires
            old(self).wf(),
        ensures
            old(self).read_step(*final(self), 8),
            r == if old(self).has(8) {
                Ok::<i64, StreamError>(signed_of(be_value(old(self).peek(8)), 0x1_0000_0000_0000_0000) as i64)
            } else {
                Err::<i64, StreamError>(StreamError::OutOfRange)
            },
    {
        proof {
            lemma_byte_powers();
        }
        match self.read_be(8) {
            Ok(v) => Ok(i64_from_bits(v as u64)),
            Err(e) => Err(e),
        }
    }

    /// Writes a signed 64-bit integer (big-endian).
    pub fn put_i64_be(&mut self, value: i64)
        requires
            old(self).wf(),
            old(self).room(8),
        ensures
            old(self).write_step(*final(self), be_bytes(twos_of(value as int, 0x1_0000_0000_0000_0000), 8)),
    {
        self.write_be(i64_to_bits(value) as u64, 8);
    }

    /// Reads an unsigned 64-bit integer (big-endian).
    pub fn get_u64_be(&mut self) -> (r: Result<u64, StreamError>)
        requires
            old(self).wf(),
        ensures
            old(self).read_step(*final(self), 8),
            r == if old(self).has(8) {
                Ok::<u64, StreamError>(be_value(old(self).peek(8)) as u64)
            } else {
                Err::<u64, StreamError>(StreamError::OutOfRange)
            },
    {
        proof {
            lemma_byte_powers();
        }
        match self.read_be(8) {
            Ok(v) => Ok(v as u64),
            Err(e) => Err(e),
        }
    }

    /// Writes an unsigned 64-bit integer (big-endian).
    pub fn put_u64_be(&mut self, value: u64)
        requires
            old(self).wf(),
            old(self).room(8),
        ensures
            old(self).write_step(*final(self), be_bytes(value as nat, 8)),
    {
        self.write_be(value as u64, 8);
    }

    /// Reads a signed 64-bit integer (little-endian).
    pub fn get_i64_le(&mut self) -> (r: Result<i64, StreamError>)
        requires
            old(self).wf(),
        ensures
            old(self).read_step(*final(self), 8),
            r == if old(self).has(8) {
                Ok::<i64, StreamError>(signed_of(le_value(old(self).peek(8)), 0x1_0000_0000_0000_0000) as i64)
            } else {
                Err::<i64, StreamError>(StreamError::OutOfRange)
            },
    {
        proof {
            lemma_byte_powers();
        }
        match self.read_le(8) {
            Ok(v) => Ok(i64_from_bits(v as u64)),
            Err(e) => Err(e),
        }
    }

    /// Writes a signed 64-bit integer (little-endian).
    pub fn put_i64_le(&mut self, value: i64)
        requires
            old(self).wf(),
            old(self).room(8),
        ensures
            old(self).write_step(*final(self), le_bytes(twos_of(value as int, 0x1_0000_0000_0000_0000), 8)),
    {
        self.write_le(i64_to_bits(value) as u64, 8);
    }

    /// Reads an unsigned 64-bit integer (little-endian).
    pub fn get_u64_le(&mut self) -> (r: Result<u64, StreamError>)
        requires
            old(self).wf(),
        ensures
            old(self).read_step(*final(self), 8),
            r == if old(self).has(8) {
                Ok::<u64, StreamError>(le_value(old(self).peek(8)) as u64)
            } else {
                Err::<u64, StreamError>(StreamError::OutOfRange)
            },
    {
        proof {
            lemma_byte_powers();
        }
        match self.read_le(8) {
            Ok(v) => Ok(v as u64),
            Err(e) => Err(e),
        }
    }

    /// Writes an unsigned 64-bit integer (little-endian).
    pub fn put_u64_le(&mut self, value: u64)
        requires
            old(self).wf(),
            old(self).room(8),
        ensures
            old(self).write_step(*final(self), le_bytes(value as nat, 8)),
    {
        self.write_le(value as u64, 8);
    }

    // ----- variable-length integers -----

    /// `after` is `self` after reading a variable-length integer of at most
    /// `max` bytes: the cursor moved past it when it was read whole, and
    /// stayed put on either failure.
    pub open spec fn var_step(&self, after: Stream, max: nat) -> bool {
        &&& after.wf()
        &&& after.bytes() == self.bytes()
        &&& after.pos() == match var_read(self.unread(), max) {
            VarRead::Value { len, .. } => self.pos() + len,
            _ => self.pos(),
        }
    }

    /// Reads a variable-length integer of at most `max` bytes, one byte at a
    /// time, and returns the full value of its groups.
    fn read_var(&mut self, max: usize) -> (r: Result<u128, StreamError>)
        requires
            old(self).wf(),
            1 <= max <= 10,
        ensures
            old(self).var_step(*final(self), max as nat),
            r == match var_read(old(self).unread(), max as nat) {
                VarRead::Value { value, .. } => Ok::<u128, StreamError>(value as u128),
                VarRead::Truncated => Err::<u128, StreamError>(StreamError::OutOfRange),
                VarRead::Unterminated => Err::<u128, StreamError>(StreamError::MalformedVarInt),
            },
            var_read(old(self).unread(), max as nat) matches VarRead::Value { value, .. } ==> value
                <= u128::MAX,
    {
        let start = self.offset;
        let ghost s = old(self).unread();
        let mut groups: Vec<u8> = Vec::new();
        let mut i: usize = 0;
        while i < max
            invariant
                i <= max <= 10,
                self.wf(),
                self.bytes() == old(self).bytes(),
                start == old(self).pos(),
                s == old(self).unread(),
                self.pos() == start + i,
                i <= s.len(),
                groups@ == s.take(i as int),
                forall|j: int| 0 <= j < i ==> s[j] >= 0x80,
            decreases max - i,
        {
            match self.get_byte() {
                Err(_) => {
                    proof {
                        lemma_continued(s, i as nat);
                    }
                    self.offset = start;
                    return Err(StreamError::OutOfRange);
                },
                Ok(b) => {
                    assert(b == s[i as int]);
                    groups.push(b);
                    assert(groups@ =~= s.take(i + 1));
                    if b < 0x80 {
                        proof {
                            lemma_continued(s, i as nat);
                        }
                        return Ok(groups_to_u128(&groups));
                    }
                    i = i + 1;
                }
            }
        }
        proof {
            lemma_continued(s, max as nat);
        }
        self.offset = start;
        Err(StreamError::MalformedVarInt)
    }

    /// Appends the variable-length encoding of `value`.
    fn write_var(&mut self, value: u64)
        requires
            old(self).wf(),
            old(self).room(var_encode(value as nat).len()),
        ensures
            old(self).write_step(*final(self), var_encode(value as nat)),
    {
        let mut v = value;
        while v >= 0x80
            invariant
                self.bytes() + var_encode(v as nat) == old(self).bytes() + var_encode(value as nat),
                self.pos() == old(self).pos(),
            decreases v,
        {
            let b: u8 = (v % 0x80) as u8 + 0x80;
            self.buffer.push(b);
            assert(var_encode(v as nat) == seq![b] + var_encode((v / 0x80) as nat));
            assert(self.bytes() + var_encode((v / 0x80) as nat) =~= old(self).bytes() + var_encode(
                value as nat,
            ));
            v = v / 0x80;
        }
        self.buffer.push(v as u8);
        assert(self.bytes() =~= old(self).bytes() + var_encode(value as nat));
    }

    /// Reads an unsigned variable-length integer of at most five bytes. Groups
    /// beyond the low 32 bits are dropped.
    pub fn get_var_u32(&mut self) -> (r: Result<u32, StreamError>)
        requires
            old(self).wf(),
        ensures
            old(self).var_step(*final(self), 5),
            r == match var_read(old(self).unread(), 5) {
                VarRead::Value { value, .. } => Ok::<u32, StreamError>(
                    (value % 0x1_0000_0000) as u32,
                ),
                VarRead::Truncated => Err::<u32, StreamError>(StreamError::OutOfRange),
                VarRead::Unterminated => Err::<u32, StreamError>(StreamError::MalformedVarInt),
            },
    {
        match self.read_var(5) {
            Ok(v) => Ok((v % 0x1_0000_0000) as u32),
            Err(e) => Err(e),
        }
    }

    /// Writes `value` as an unsigned variable-length integer.
    pub fn put_var_u32(&mut self, value: u32)
        requires
            old(self).wf(),
            old(self).room(var_encode(value as nat).len()),
        ensures
            old(self).write_step(*final(self), var_encode(value as nat)),
    {
        self.write_var(value as u64);
    }

    /// Reads a ZigZag-coded signed variable-length integer of at most five bytes.
    pub fn get_var_i32(&mut self) -> (r: Result<i32, StreamError>)
        requires
            old(self).wf(),
        ensures
            old(self).var_step(*final(self), 5),
            r == match var_read(old(self).unread(), 5) {
                VarRead::Value { value, .. } => Ok::<i32, StreamError>(
                    unzigzag(value % 0x1_0000_0000) as i32,
                ),
                VarRead::Truncated => Err::<i32, StreamError>(StreamError::OutOfRange),
                VarRead::Unterminated => Err::<i32, StreamError>(StreamError::MalformedVarInt),
            },
    {
        match self.read_var(5) {
            Ok(v) => Ok(unzigzag_u32((v % 0x1_0000_0000) as u32)),
            Err(e) => Err(e),
        }
    }

    /// Writes `value` ZigZag-coded as a variable-length integer.
    pub fn put_var_i32(&mut self, value: i32)
        requires
            old(self).wf(),
            old(self).room(var_encode(zigzag(value as int)).len()),
        ensures
            old(self).write_step(*final(self), var_encode(zigzag(value as int))),
    {
        self.write_var(zigzag_i32(value) as u64);
    }

    /// Reads an unsigned variable-length integer of at most ten bytes. Groups
    /// beyond the low 64 bits are dropped.
    pub fn get_var_u64(&mut self) -> (r: Result<u64, StreamError>)
        requires
            old(self).wf(),
        ensures
            old(self).var_step(*final(self), 10),
            r == match var_read(old(self).unread(), 10) {
                VarRead::Value { value, .. } => Ok::<u64, StreamError>(
                    (value % 0x1_0000_0000_0000_0000) as u64,
                ),
                VarRead::Truncated => Err::<u64, StreamError>(StreamError::OutOfRange),
                VarRead::Unterminated => Err::<u64, StreamError>(StreamError::MalformedVarInt),
            },
    {
        match self.read_var(10) {
            Ok(v) => Ok((v % 0x1_0000_0000_0000_0000) as u64),
            Err(e) => Err(e),
        }
    }

    /// Writes `value` as an unsigned variable-length integer.
    pub fn put_var_u64(&mut self, value: u64)
        requires
            old(self).wf(),
            old(self).room(var_encode(value as nat).len()),
        ensures
            old(self).write_step(*final(self), var_encode(value as nat)),
    {
        self.write_var(value);
    }

    /// Reads a ZigZag-coded signed variable-length integer of at most ten bytes.
    pub fn get_var_i64(&mut self) -> (r: Result<i64, StreamError>)
        requires
            old(self).wf(),
        ensures
            old(self).var_step(*final(self), 10),
            r == match var_read(old(self).unread(), 10) {
                VarRead::Value { value, .. } => Ok::<i64, StreamError>(
                    unzigzag(value % 0x1_0000_0000_0000_0000) as i64,
                ),
                VarRead::Truncated => Err::<i64, StreamError>(StreamError::OutOfRange),
                VarRead::Unterminated => Err::<i64, StreamError>(StreamError::MalformedVarInt),
            },
    {
        match self.read_var(10) {
            Ok(v) => Ok(unzigzag_u64((v % 0x1_0000_0000_0000_0000) as u64)),
            Err(e) => Err(e),
        }
    }

    /// Writes `value` ZigZag-coded as a variable-length integer.
    pub fn put_var_i64(&mut self, value: i64)
        requires
            old(self).wf(),
            old(self).room(var_encode(zigzag(value as int)).len()),
        ensures
            old(self).write_step(*final(self), var_encode(zigzag(value as int))),
    {
        self.write_var(zigzag_i64(value));
    }
}

} // verus!
