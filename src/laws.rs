//! Facts that relate several operations of a `Stream` to one another.
use crate::binary::Stream;
use crate::codec::{
    be_bytes, be_value, bool_byte, le_bytes, le_value, lemma_be_bytes_len, lemma_be_round_trip,
    lemma_le_bytes_len, lemma_le_round_trip, lemma_var_encode_max_len,
    lemma_var_encode_shape, lemma_var_round_trip, lemma_zigzag, signed_of, twos_of, unzigzag,
    var_encode, var_read, zigzag, VarRead,
};
use vstd::arithmetic::power::*;
use vstd::prelude::*;

verus! {

/// Once `s1` is `s0` with some bytes appended and `s2` holds the same bytes
/// with its cursor where the append began, the unread part of `s2` starts
/// with exactly the appended bytes.
proof fn lemma_unread_after_append(s0: Stream, s1: Stream, s2: Stream, tail: Seq<u8>)
    requires
        s0.write_step(s1, tail),
        s2.bytes() == s1.bytes(),
        s2.pos() == s0.bytes().len(),
    ensures
        s2.unread() == tail,
        s2.has(tail.len()),
        s2.peek(tail.len()) == tail,
{
    assert(s2.unread() =~= tail);
    assert(s2.peek(tail.len()) =~= tail);
}

/// A big-endian put of `n` bytes is read back by the matching get, for every
/// value that fits in `n` bytes, once the cursor is where the put began (after
/// a rewind, when the stream was empty).
pub proof fn lemma_be_put_get(s0: Stream, s1: Stream, s2: Stream, v: nat, n: nat)
    requires
        v < pow(256, n),
        s0.write_step(s1, be_bytes(v, n)),
        s2.bytes() == s1.bytes(),
        s2.pos() == s0.bytes().len(),
    ensures
        s2.has(n),
        be_value(s2.peek(n)) == v,
{
    lemma_be_bytes_len(v, n);
    lemma_unread_after_append(s0, s1, s2, be_bytes(v, n));
    lemma_be_round_trip(v, n);
}

/// A little-endian put of `n` bytes is read back by the matching get, for
/// every value that fits in `n` bytes, once the cursor is where the put began.
pub proof fn lemma_le_put_get(s0: Stream, s1: Stream, s2: Stream, v: nat, n: nat)
    requires
        v < pow(256, n),
        s0.write_step(s1, le_bytes(v, n)),
        s2.bytes() == s1.bytes(),
        s2.pos() == s0.bytes().len(),
    ensures
        s2.has(n),
        le_value(s2.peek(n)) == v,
{
    lemma_le_bytes_len(v, n);
    lemma_unread_after_append(s0, s1, s2, le_bytes(v, n));
    lemma_le_round_trip(v, n);
}

/// The signed getters undo the signed putters: a signed value in range,
/// written in two's complement modulo `m`, reads back as itself.
pub proof fn lemma_signed_put_get(v: int, m: nat)
    requires
        m % 2 == 0,
        -(m / 2) <= v < m / 2,
    ensures
        twos_of(v, m) < m,
        signed_of(twos_of(v, m), m) == v,
{
}

/// `get_bool` reads back what `put_bool` wrote.
pub proof fn lemma_bool_put_get(b: bool)
    ensures
        (bool_byte(b) != 0) == b,
{
}

/// A variable-length put is read back whole by the matching get, which then
/// stands just past it, once the cursor is where the put began, and whatever
/// was appended after it.
pub proof fn lemma_var_put_get(
    s0: Stream,
    s1: Stream,
    s2: Stream,
    v: nat,
    rest: Seq<u8>,
    max: nat,
)
    requires
        var_encode(v).len() <= max,
        s0.write_step(s1, var_encode(v)),
        s2.bytes() == s1.bytes() + rest,
        s2.pos() == s0.bytes().len(),
    ensures
        var_read(s2.unread(), max) == (VarRead::Value { value: v, len: var_encode(v).len() }),
{
    assert(s2.unread() =~= var_encode(v) + rest);
    lemma_var_round_trip(v, rest, max);
}

/// Every `u32` fits the five bytes that `get_var_u32` allows, and reads back
/// unchanged; every `i32` does so through ZigZag in `get_var_i32`.
pub proof fn lemma_var32_values(u: u32, i: i32)
    ensures
        var_encode(u as nat).len() <= 5,
        (u as nat) % 0x1_0000_0000 == u,
        var_encode(zigzag(i as int)).len() <= 5,
        unzigzag(zigzag(i as int) % 0x1_0000_0000) == i,
{
    lemma_zigzag(i as int, 0);
    lemma_var_encode_max_len(u as nat);
    lemma_var_encode_max_len(zigzag(i as int));
}

/// Every `u64` fits the ten bytes that `get_var_u64` allows, and reads back
/// unchanged; every `i64` does so through ZigZag in `get_var_i64`.
pub proof fn lemma_var64_values(u: u64, i: i64)
    ensures
        var_encode(u as nat).len() <= 10,
        (u as nat) % 0x1_0000_0000_0000_0000 == u,
        var_encode(zigzag(i as int)).len() <= 10,
        unzigzag(zigzag(i as int) % 0x1_0000_0000_0000_0000) == i,
{
    lemma_zigzag(i as int, 0);
    lemma_var_encode_max_len(u as nat);
    lemma_var_encode_max_len(zigzag(i as int));
}

/// The number of binary digits of `v`; zero has none.
pub open spec fn bit_length(v: nat) -> nat
    decreases v,
{
    if v == 0 {
        0
    } else {
        1 + bit_length(v / 2)
    }
}

proof fn lemma_bit_length_small(v: nat)
    requires
        0 < v < 0x80,
    ensures
        1 <= bit_length(v) <= 7,
{
    reveal_with_fuel(bit_length, 8);
}

proof fn lemma_bit_length_shift(v: nat)
    requires
        v >= 0x80,
    ensures
        bit_length(v) == 7 + bit_length(v / 0x80),
{
    reveal_with_fuel(bit_length, 8);
    assert(v / 2 / 2 / 2 / 2 / 2 / 2 / 2 == v / 0x80);
}

/// The variable-length encoding of `v` takes `ceil(bit_length(v) / 7)` bytes,
/// and one byte for zero; its last byte has the continuation bit clear.
pub proof fn lemma_var_encode_minimal(v: nat)
    ensures
        var_encode(v).len() == if v == 0 {
            1
        } else {
            (bit_length(v) + 6) / 7
        },
        var_encode(v).last() < 0x80,
    decreases v,
{
    lemma_var_encode_shape(v);
    if v >= 0x80 {
        lemma_bit_length_shift(v);
        lemma_var_encode_minimal(v / 0x80);
        assert(var_encode(v).len() == 1 + var_encode(v / 0x80).len());
    } else if v > 0 {
        lemma_bit_length_small(v);
    }
}

/// A stream whose cursor has reached the end says so, has nothing left to
/// read, and fails every read of one byte or more.
pub proof fn lemma_end_of_stream(s: Stream, n: nat)
    requires
        s.wf(),
        s.pos() == s.bytes().len(),
        n >= 1,
    ensures
        !s.has(n),
        s.unread().len() == 0,
{
}

} // verus!
