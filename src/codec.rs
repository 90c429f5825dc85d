//! The byte layouts that a `Stream` reads and writes, stated over sequences,
//! with the facts that tie each encoding to its decoding.
use vstd::arithmetic::power::*;
use vstd::prelude::*;

verus! {

// ---------------------------------------------------------------------------
// Fixed-width unsigned integers
// ---------------------------------------------------------------------------

/// Unsigned value of `s` read most-significant byte first.
pub open spec fn be_value(s: Seq<u8>) -> nat
    decreases s.len(),
{
    if s.len() == 0 {
        0
    } else {
        256 * be_value(s.drop_last()) + s.last() as nat
    }
}

/// Unsigned value of `s` read least-significant byte first.
pub open spec fn le_value(s: Seq<u8>) -> nat
    decreases s.len(),
{
    if s.len() == 0 {
        0
    } else {
        s[0] as nat + 256 * le_value(s.skip(1))
    }
}

/// The low `n` bytes of `v`, most-significant first.
pub open spec fn be_bytes(v: nat, n: nat) -> Seq<u8>
    decreases n,
{
    if n == 0 {
        Seq::empty()
    } else {
        be_bytes(v / 256, (n - 1) as nat).push((v % 256) as u8)
    }
}

/// The low `n` bytes of `v`, least-significant first.
pub open spec fn le_bytes(v: nat, n: nat) -> Seq<u8>
    decreases n,
{
    if n == 0 {
        Seq::empty()
    } else {
        seq![(v % 256) as u8] + le_bytes(v / 256, (n - 1) as nat)
    }
}

/// `be_bytes` yields exactly `n` bytes.
pub proof fn lemma_be_bytes_len(v: nat, n: nat)
    ensures
        be_bytes(v, n).len() == n,
    decreases n,
{
    if n > 0 {
        lemma_be_bytes_len(v / 256, (n - 1) as nat);
    }
}

/// `le_bytes` yields exactly `n` bytes.
pub proof fn lemma_le_bytes_len(v: nat, n: nat)
    ensures
        le_bytes(v, n).len() == n,
    decreases n,
{
    if n > 0 {
        lemma_le_bytes_len(v / 256, (n - 1) as nat);
    }
}

/// `n` bytes hold values below `256^n`.
pub proof fn lemma_be_value_bound(s: Seq<u8>)
    ensures
        be_value(s) < pow(256, s.len()),
    decreases s.len(),
{
    reveal(pow);
    if s.len() > 0 {
        lemma_be_value_bound(s.drop_last());
    }
}

/// `n` bytes hold values below `256^n`.
pub proof fn lemma_le_value_bound(s: Seq<u8>)
    ensures
        le_value(s) < pow(256, s.len()),
    decreases s.len(),
{
    reveal(pow);
    if s.len() > 0 {
        lemma_le_value_bound(s.skip(1));
    }
}

/// Reading back the big-endian bytes of a value that fits in them gives the value.
pub proof fn lemma_be_round_trip(v: nat, n: nat)
    requires
        v < pow(256, n),
    ensures
        be_value(be_bytes(v, n)) == v,
    decreases n,
{
    reveal(pow);
    if n > 0 {
        let s = be_bytes(v, n);
        assert(s.drop_last() == be_bytes(v / 256, (n - 1) as nat));
        assert(v / 256 < pow(256, (n - 1) as nat));
        lemma_be_round_trip(v / 256, (n - 1) as nat);
    } else {
        assert(v == 0);
    }
}

/// Reading back the little-endian bytes of a value that fits in them gives the value.
pub proof fn lemma_le_round_trip(v: nat, n: nat)
    requires
        v < pow(256, n),
    ensures
        le_value(le_bytes(v, n)) == v,
    decreases n,
{
    reveal(pow);
    if n > 0 {
        let s = le_bytes(v, n);
        assert(s.skip(1) =~= le_bytes(v / 256, (n - 1) as nat));
        assert(v / 256 < pow(256, (n - 1) as nat));
        lemma_le_round_trip(v / 256, (n - 1) as nat);
    } else {
        assert(v == 0);
    }
}

/// The powers of 256 that the fixed widths use.
pub proof fn lemma_byte_powers()
    ensures
        pow(256, 1) == 0x100,
        pow(256, 2) == 0x1_0000,
        pow(256, 3) == 0x100_0000,
        pow(256, 4) == 0x1_0000_0000,
        pow(256, 7) == 0x100_0000_0000_0000,
        pow(256, 8) == 0x1_0000_0000_0000_0000,
{
    reveal_with_fuel(pow, 9);
}

/// The unsigned value of at most eight bytes, most-significant first.
pub fn uint_from_be(b: &Vec<u8>) -> (r: u64)
    requires
        b@.len() <= 8,
    ensures
        r == be_value(b@),
{
    let mut acc: u64 = 0;
    let mut i: usize = 0;
    while i < b.len()
        invariant
            i <= b@.len() <= 8,
            acc == be_value(b@.take(i as int)),
        decreases b@.len() - i,
    {
        proof {
            lemma_be_value_bound(b@.take(i as int));
            lemma_byte_powers();
            lemma_pow_increases(256, i as nat, 7);
            assert(b@.take(i as int + 1).drop_last() =~= b@.take(i as int));
        }
        acc = acc * 256 + b[i] as u64;
        i = i + 1;
    }
    assert(b@.take(i as int) =~= b@);
    acc
}

/// The unsigned value of at most eight bytes, least-significant first.
pub fn uint_from_le(b: &Vec<u8>) -> (r: u64)
    requires
        b@.len() <= 8,
    ensures
        r == le_value(b@),
{
    let mut acc: u64 = 0;
    let mut i: usize = b.len();
    while i > 0
        invariant
            i <= b@.len() <= 8,
            acc == le_value(b@.skip(i as int)),
        decreases i,
    {
        proof {
            lemma_le_value_bound(b@.skip(i as int));
            lemma_byte_powers();
            lemma_pow_increases(256, (b@.len() - i) as nat, 7);
            assert(b@.skip(i as int - 1).skip(1) =~= b@.skip(i as int));
        }
        i = i - 1;
        acc = acc * 256 + b[i] as u64;
    }
    assert(b@.skip(0) =~= b@);
    acc
}

/// Appends the low `n` bytes of `v`, most-significant first.
pub fn push_be(buf: &mut Vec<u8>, v: u64, n: usize)
    ensures
        final(buf)@ == old(buf)@ + be_bytes(v as nat, n as nat),
    decreases n,
{
    if n > 0 {
        push_be(buf, v / 256, n - 1);
        buf.push((v % 256) as u8);
        assert(final(buf)@ =~= old(buf)@ + be_bytes(v as nat, n as nat));
    } else {
        assert(old(buf)@ + be_bytes(v as nat, 0) =~= old(buf)@);
    }
}

/// Appends the low `n` bytes of `v`, least-significant first.
pub fn push_le(buf: &mut Vec<u8>, v: u64, n: usize)
    ensures
        final(buf)@ == old(buf)@ + le_bytes(v as nat, n as nat),
    decreases n,
{
    if n > 0 {
        buf.push((v % 256) as u8);
        push_le(buf, v / 256, n - 1);
        assert(final(buf)@ =~= old(buf)@ + le_bytes(v as nat, n as nat));
    } else {
        assert(old(buf)@ + le_bytes(v as nat, 0) =~= old(buf)@);
    }
}

/// The byte that encodes a boolean.
pub open spec fn bool_byte(b: bool) -> u8 {
    if b {
        1
    } else {
        0
    }
}

// ---------------------------------------------------------------------------
// Two's complement
// ---------------------------------------------------------------------------

/// The signed value whose two's complement, modulo `m`, is `u`.
pub open spec fn signed_of(u: nat, m: nat) -> int {
    if u < m / 2 {
        u as int
    } else {
        u - m
    }
}

/// The two's complement of `v` modulo `m`.
pub open spec fn twos_of(v: int, m: nat) -> nat {
    if v >= 0 {
        v as nat
    } else {
        (v + m) as nat
    }
}

/// The `i16` whose two's complement bits are `u`.
pub fn i16_from_bits(u: u16) -> (r: i16)
    ensures
        r == signed_of(u as nat, 0x1_0000),
{
    if u < 0x8000 {
        u as i16
    } else {
        (u as i32 - 0x1_0000) as i16
    }
}

/// The two's complement bits of `v`.
pub fn i16_to_bits(v: i16) -> (r: u16)
    ensures
        r == twos_of(v as int, 0x1_0000),
{
    if v >= 0 {
        v as u16
    } else {
        (v as i32 + 0x1_0000) as u16
    }
}

/// The `i32` whose two's complement bits are `u`.
pub fn i32_from_bits(u: u32) -> (r: i32)
    ensures
        r == signed_of(u as nat, 0x1_0000_0000),
{
    if u < 0x8000_0000 {
        u as i32
    } else {
        (u as i64 - 0x1_0000_0000) as i32
    }
}

/// The two's complement bits of `v`.
pub fn i32_to_bits(v: i32) -> (r: u32)
    ensures
        r == twos_of(v as int, 0x1_0000_0000),
{
    if v >= 0 {
        v as u32
    } else {
        (v as i64 + 0x1_0000_0000) as u32
    }
}

/// The `i64` whose two's complement bits are `u`.
pub fn i64_from_bits(u: u64) -> (r: i64)
    ensures
        r == signed_of(u as nat, 0x1_0000_0000_0000_0000),
{
    if u < 0x8000_0000_0000_0000 {
        u as i64
    } else {
        (u as i128 - 0x1_0000_0000_0000_0000) as i64
    }
}

/// The two's complement bits of `v`.
pub fn i64_to_bits(v: i64) -> (r: u64)
    ensures
        r == twos_of(v as int, 0x1_0000_0000_0000_0000),
{
    if v >= 0 {
        v as u64
    } else {
        (v as i128 + 0x1_0000_0000_0000_0000) as u64
    }
}

// ---------------------------------------------------------------------------
// Variable-length integers: 7 data bits per byte, least-significant group
// first, high bit set on every byte but the last
// ---------------------------------------------------------------------------

/// The variable-length encoding of `v`.
pub open spec fn var_encode(v: nat) -> Seq<u8>
    decreases v,
{
    if v < 0x80 {
        seq![v as u8]
    } else {
        seq![(v % 0x80 + 0x80) as u8] + var_encode(v / 0x80)
    }
}

/// How many bytes at the front of `s` have the continuation bit set.
pub open spec fn continued(s: Seq<u8>) -> nat
    decreases s.len(),
{
    if s.len() == 0 || s[0] < 0x80 {
        0
    } else {
        1 + continued(s.skip(1))
    }
}

/// The number whose 7-bit groups, least significant first, are the low
/// seven bits of the bytes of `s`.
pub open spec fn groups_value(s: Seq<u8>) -> nat
    decreases s.len(),
{
    if s.len() == 0 {
        0
    } else {
        (s[0] % 0x80) as nat + 0x80 * groups_value(s.skip(1))
    }
}

/// What decoding a variable-length integer from the front of some bytes
/// comes to, when at most `max` bytes may be used.
pub enum VarRead {
    /// It ends in the byte at index `len - 1`, and its groups make `value`.
    Value { value: nat, len: nat },
    /// The bytes ran out before a byte with the continuation bit clear.
    Truncated,
    /// `max` bytes were read and each had the continuation bit set.
    Unterminated,
}

/// Decoding a variable-length integer of at most `max` bytes from the front of `s`.
pub open spec fn var_read(s: Seq<u8>, max: nat) -> VarRead {
    let k = continued(s);
    if k >= max {
        VarRead::Unterminated
    } else if k == s.len() {
        VarRead::Truncated
    } else {
        VarRead::Value { value: groups_value(s.take(k + 1 as int)), len: k + 1 }
    }
}

/// When the first `i` bytes all carry the continuation bit, the run of such
/// bytes is at least `i` long, and exactly `i` when the next one does not or
/// there is none.
pub proof fn lemma_continued(s: Seq<u8>, i: nat)
    requires
        i <= s.len(),
        forall|j: int| 0 <= j < i ==> s[j] >= 0x80,
    ensures
        continued(s) >= i,
        i == s.len() || s[i as int] < 0x80 ==> continued(s) == i,
    decreases i,
{
    if i > 0 {
        let t = s.skip(1);
        assert forall|j: int| 0 <= j < i - 1 implies t[j] >= 0x80 by {
            assert(t[j] == s[j + 1]);
        }
        lemma_continued(t, (i - 1) as nat);
    }
}

/// `groups_value` of `n` bytes is below `128^n`.
pub proof fn lemma_groups_value_bound(s: Seq<u8>)
    ensures
        groups_value(s) < pow(128, s.len()),
    decreases s.len(),
{
    reveal(pow);
    if s.len() > 0 {
        lemma_groups_value_bound(s.skip(1));
    }
}

/// The encoding is at least one byte long; every byte but the last has the
/// continuation bit set and the last has it clear; its groups make `v`; and
/// it uses the fewest 7-bit groups that can hold `v`:
/// `128^(len - 1) <= v < 128^len`, or `len == 1` for `v < 128`.
pub proof fn lemma_var_encode_shape(v: nat)
    ensures
        var_encode(v).len() >= 1,
        var_encode(v).last() < 0x80,
        forall|j: int| 0 <= j < var_encode(v).len() - 1 ==> var_encode(v)[j] >= 0x80,
        groups_value(var_encode(v)) == v,
        v < pow(128, var_encode(v).len()),
        var_encode(v).len() == 1 || pow(128, (var_encode(v).len() - 1) as nat) <= v,
    decreases v,
{
    reveal(pow);
    let e = var_encode(v);
    if v < 0x80 {
        assert(e.skip(1) =~= Seq::<u8>::empty());
        assert(groups_value(e) == (e[0] % 0x80) as nat + 0x80 * groups_value(e.skip(1)));
        lemma_pow1(128);
    } else {
        let t = var_encode(v / 0x80);
        lemma_var_encode_shape(v / 0x80);
        assert(e.skip(1) =~= t);
        assert(e[0] % 0x80 == v % 0x80);
        assert(groups_value(e) == (e[0] % 0x80) as nat + 0x80 * groups_value(t));
        assert forall|j: int| 0 <= j < e.len() - 1 implies e[j] >= 0x80 by {
            if j > 0 {
                assert(e[j] == t[j - 1]);
            }
        }
        assert(pow(128, e.len()) == 0x80 * pow(128, t.len()));
        assert(pow(128, (e.len() - 1) as nat) == pow(128, t.len()));
        if t.len() > 1 {
            assert(pow(128, t.len()) == 0x80 * pow(128, (t.len() - 1) as nat));
        }
    }
}

/// Decoding what `var_encode(v)` wrote, whatever follows it, gives back `v`
/// and consumes exactly the encoding, provided `max` bytes are enough for it.
pub proof fn lemma_var_round_trip(v: nat, rest: Seq<u8>, max: nat)
    requires
        var_encode(v).len() <= max,
    ensures
        var_read(var_encode(v) + rest, max) == (VarRead::Value { value: v, len: var_encode(v).len() }),
{
    let e = var_encode(v);
    let s = e + rest;
    lemma_var_encode_shape(v);
    lemma_continued(s, (e.len() - 1) as nat);
    assert(s.take(e.len() as int) =~= e);
}

/// Values below `2^32` take at most five bytes, and values below `2^64` at most ten.
pub proof fn lemma_var_encode_max_len(v: nat)
    ensures
        v < 0x1_0000_0000 ==> var_encode(v).len() <= 5,
        v < 0x1_0000_0000_0000_0000 ==> var_encode(v).len() <= 10,
{
    lemma_var_encode_shape(v);
    let n = var_encode(v).len();
    reveal_with_fuel(pow, 11);
    if n > 5 {
        lemma_pow_increases(128, 5, (n - 1) as nat);
    }
    if n > 10 {
        lemma_pow_increases(128, 10, (n - 1) as nat);
    }
}

/// The value of at most ten 7-bit groups, least significant first.
pub fn groups_to_u128(g: &Vec<u8>) -> (r: u128)
    requires
        g@.len() <= 10,
    ensures
        r == groups_value(g@),
{
    let mut acc: u128 = 0;
    let mut i: usize = g.len();
    while i > 0
        invariant
            i <= g@.len() <= 10,
            acc == groups_value(g@.skip(i as int)),
        decreases i,
    {
        proof {
            lemma_groups_value_bound(g@.skip(i as int));
            reveal_with_fuel(pow, 11);
            lemma_pow_increases(128, (g@.len() - i) as nat, 10);
            assert(g@.skip(i as int - 1).skip(1) =~= g@.skip(i as int));
        }
        i = i - 1;
        acc = acc * 0x80 + (g[i] % 0x80) as u128;
    }
    assert(g@.skip(0) =~= g@);
    acc
}

// ---------------------------------------------------------------------------
// ZigZag: signed values folded onto unsigned ones, 0, -1, 1, -2, ... to
// 0, 1, 2, 3, ...
// ---------------------------------------------------------------------------

/// The unsigned code of `v`.
pub open spec fn zigzag(v: int) -> nat {
    if v >= 0 {
        (2 * v) as nat
    } else {
        (-2 * v - 1) as nat
    }
}

/// The signed value whose code is `u`.
pub open spec fn unzigzag(u: nat) -> int {
    if u % 2 == 0 {
        (u / 2) as int
    } else {
        -((u + 1) / 2)
    }
}

/// ZigZag is a bijection between the integers and the naturals, and keeps
/// each signed width within the unsigned width of the same size.
pub proof fn lemma_zigzag(v: int, u: nat)
    ensures
        unzigzag(zigzag(v)) == v,
        zigzag(unzigzag(u)) == u,
        -0x8000_0000 <= v < 0x8000_0000 <==> zigzag(v) < 0x1_0000_0000,
        -0x8000_0000_0000_0000 <= v < 0x8000_0000_0000_0000 <==> zigzag(v)
            < 0x1_0000_0000_0000_0000,
{
}

/// The ZigZag code of `v`.
pub fn zigzag_i32(v: i32) -> (r: u32)
    ensures
        r == zigzag(v as int),
{
    if v >= 0 {
        (v as u32) * 2
    } else {
        (-(v + 1)) as u32 * 2 + 1
    }
}

/// The value whose ZigZag code is `u`.
pub fn unzigzag_u32(u: u32) -> (r: i32)
    ensures
        r == unzigzag(u as nat),
{
    if u % 2 == 0 {
        (u / 2) as i32
    } else {
        -((u / 2) as i32) - 1
    }
}

/// The ZigZag code of `v`.
pub fn zigzag_i64(v: i64) -> (r: u64)
    ensures
        r == zigzag(v as int),
{
    if v >= 0 {
        (v as u64) * 2
    } else {
        (-(v + 1)) as u64 * 2 + 1
    }
}

/// The value whose ZigZag code is `u`.
pub fn unzigzag_u64(u: u64) -> (r: i64)
    ensures
        r == unzigzag(u as nat),
{
    if u % 2 == 0 {
        (u / 2) as i64
    } else {
        -((u / 2) as i64) - 1
    }
}

} // verus!
