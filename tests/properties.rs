use binary_utils::binary::{Stream, StreamError};

fn var_u32_bytes(v: u32) -> Vec<u8> {
    let mut s = Stream::with_capacity(5);
    s.put_var_u32(v);
    s.get_buffer().to_vec()
}

#[test]
fn fixed_width_round_trips_both_orders() {
    let mut s = Stream::with_capacity(64);
    s.put_bool(true);
    s.put_bool(false);
    s.put_byte(0xAB);
    s.put_u16_be(0xBEEF);
    s.put_u16_le(0xBEEF);
    s.put_i16_be(-2);
    s.put_i16_le(i16::MIN);
    s.put_u32_be(0xDEADBEEF);
    s.put_u32_le(0xDEADBEEF);
    s.put_i32_be(i32::MIN);
    s.put_i32_le(-123456);
    s.put_u64_be(u64::MAX);
    s.put_u64_le(0x0102030405060708);
    s.put_i64_be(i64::MIN);
    s.put_i64_le(-1);
    s.rewind();
    assert_eq!(s.get_bool(), Ok(true));
    assert_eq!(s.get_bool(), Ok(false));
    assert_eq!(s.get_byte(), Ok(0xAB));
    assert_eq!(s.get_u16_be(), Ok(0xBEEF));
    assert_eq!(s.get_u16_le(), Ok(0xBEEF));
    assert_eq!(s.get_i16_be(), Ok(-2));
    assert_eq!(s.get_i16_le(), Ok(i16::MIN));
    assert_eq!(s.get_u32_be(), Ok(0xDEADBEEF));
    assert_eq!(s.get_u32_le(), Ok(0xDEADBEEF));
    assert_eq!(s.get_i32_be(), Ok(i32::MIN));
    assert_eq!(s.get_i32_le(), Ok(-123456));
    assert_eq!(s.get_u64_be(), Ok(u64::MAX));
    assert_eq!(s.get_u64_le(), Ok(0x0102030405060708));
    assert_eq!(s.get_i64_be(), Ok(i64::MIN));
    assert_eq!(s.get_i64_le(), Ok(-1));
    assert!(s.feof());
}

#[test]
fn byte_layouts_are_exact() {
    let mut s = Stream::with_capacity(32);
    s.put_u16_be(0x0102);
    s.put_u16_le(0x0102);
    s.put_u32_be(0x01020304);
    s.put_u32_le(0x01020304);
    s.put_i16_be(-2);
    assert_eq!(
        s.get_buffer(),
        &[1, 2, 2, 1, 1, 2, 3, 4, 4, 3, 2, 1, 0xFF, 0xFE][..]
    );
    let mut t = Stream::with_capacity(16);
    t.put_u64_be(0x0102030405060708);
    t.put_u64_le(0x0102030405060708);
    assert_eq!(
        t.get_buffer(),
        &[1, 2, 3, 4, 5, 6, 7, 8, 8, 7, 6, 5, 4, 3, 2, 1][..]
    );
}

#[test]
fn decoding_reads_given_bytes() {
    let mut s = Stream::new(vec![0x12, 0x34, 0x56, 0x78, 0x9A, 0xBC, 0xDE, 0xF0], 0);
    assert_eq!(s.get_u32_be(), Ok(0x12345678));
    assert_eq!(s.get_u32_le(), Ok(0xF0DEBC9A));
    s.rewind();
    assert_eq!(s.get_u64_be(), Ok(0x123456789ABCDEF0));
    s.rewind();
    assert_eq!(s.get_u64_le(), Ok(0xF0DEBC9A78563412));
    s.rewind();
    assert_eq!(s.get_i16_be(), Ok(0x1234));
    assert_eq!(s.get_i16_le(), Ok(0x7856));
    assert_eq!(s.get_i32_be(), Ok(0x9ABCDEF0u32 as i32));
}

#[test]
fn bool_decoding_is_permissive() {
    let mut s = Stream::new(vec![0x00, 0x01, 0x05, 0xFF], 0);
    assert_eq!(s.get_bool(), Ok(false));
    assert_eq!(s.get_bool(), Ok(true));
    assert_eq!(s.get_bool(), Ok(true));
    assert_eq!(s.get_bool(), Ok(true));
    let mut t = Stream::with_capacity(2);
    t.put_bool(true);
    t.put_bool(false);
    assert_eq!(t.get_buffer(), &[1, 0][..]);
}

#[test]
fn var_u32_uses_fewest_bytes() {
    let cases: [(u32, usize); 10] = [
        (0, 1),
        (1, 1),
        (127, 1),
        (128, 2),
        (300, 2),
        (16383, 2),
        (16384, 3),
        (0x1F_FFFF, 3),
        (0x20_0000, 4),
        (0xFFFF_FFFF, 5),
    ];
    for (v, n) in cases {
        let b = var_u32_bytes(v);
        assert_eq!(b.len(), n, "value {}", v);
        assert!(b[n - 1] < 0x80);
        for x in &b[..n - 1] {
            assert!(*x >= 0x80);
        }
    }
    assert_eq!(var_u32_bytes(300), vec![0xAC, 0x02]);
}

#[test]
fn var_u32_max_takes_five_bytes() {
    let mut s = Stream::with_capacity(5);
    s.put_var_u32(0xFFFF_FFFF);
    assert_eq!(s.get_buffer(), &[0xFF, 0xFF, 0xFF, 0xFF, 0x0F][..]);
    s.rewind();
    assert_eq!(s.get_var_u32(), Ok(0xFFFF_FFFF));
    assert_eq!(s.get_offset(), 5);
    assert!(s.feof());
}

#[test]
fn var_u32_sixth_continuation_byte_is_malformed() {
    let mut s = Stream::new(vec![0xFF, 0xFF, 0xFF, 0xFF, 0xFF, 0x01], 0);
    assert_eq!(s.get_var_u32(), Err(StreamError::MalformedVarInt));
    assert_eq!(s.get_offset(), 0);
}

#[test]
fn var_u64_eleventh_continuation_byte_is_malformed() {
    let mut bytes = vec![0x80; 10];
    bytes.push(0x00);
    let mut s = Stream::new(bytes, 0);
    assert_eq!(s.get_var_u64(), Err(StreamError::MalformedVarInt));
    assert_eq!(s.get_var_i64(), Err(StreamError::MalformedVarInt));
    assert_eq!(s.get_offset(), 0);
}

#[test]
fn truncated_var_int_is_out_of_range() {
    let mut s = Stream::new(vec![0x80, 0x80], 0);
    assert_eq!(s.get_var_u32(), Err(StreamError::OutOfRange));
    assert_eq!(s.get_var_i32(), Err(StreamError::OutOfRange));
    assert_eq!(s.get_offset(), 0);
}

#[test]
fn var_u32_drops_bits_past_thirty_two() {
    let mut s = Stream::new(vec![0xFF, 0xFF, 0xFF, 0xFF, 0x7F], 0);
    assert_eq!(s.get_var_u32(), Ok(0xFFFF_FFFF));
}

#[test]
fn var_u64_round_trips_and_decodes() {
    for v in [0u64, 1, 127, 128, 1 << 35, u64::MAX - 1, u64::MAX] {
        let mut s = Stream::with_capacity(10);
        s.put_var_u64(v);
        s.rewind();
        assert_eq!(s.get_var_u64(), Ok(v));
    }
    let mut s = Stream::with_capacity(10);
    s.put_var_u64(u64::MAX);
    assert_eq!(s.get_buffer().len(), 10);
    let mut t = Stream::new(vec![0xAC, 0x02], 0);
    assert_eq!(t.get_var_u64(), Ok(300));
}

#[test]
fn zigzag_round_trips_and_stays_compact() {
    for v in [0, -1, 1, -100, 100, i32::MIN, i32::MAX] {
        let mut s = Stream::with_capacity(5);
        s.put_var_i32(v);
        s.rewind();
        assert_eq!(s.get_var_i32(), Ok(v));
    }
    let mut s = Stream::with_capacity(5);
    s.put_var_i32(-1);
    assert_eq!(s.get_buffer(), &[1][..]);
    let mut t = Stream::with_capacity(5);
    t.put_var_i32(1);
    assert_eq!(t.get_buffer(), &[2][..]);
    let mut u = Stream::with_capacity(5);
    u.put_var_i32(i32::MIN);
    assert_eq!(u.get_buffer(), &[0xFF, 0xFF, 0xFF, 0xFF, 0x0F][..]);
}

#[test]
fn zigzag_i64_extremes() {
    for v in [0, -1, 1, -1000, 1000, i64::MIN, i64::MAX] {
        let mut s = Stream::with_capacity(10);
        s.put_var_i64(v);
        s.rewind();
        assert_eq!(s.get_var_i64(), Ok(v));
    }
    let mut s = Stream::with_capacity(10);
    s.put_var_i64(-2);
    assert_eq!(s.get_buffer(), &[3][..]);
}

#[test]
fn short_buffer_read_fails_without_consuming() {
    let mut s = Stream::new(vec![1, 2, 3], 0);
    assert_eq!(s.get_u32_be(), Err(StreamError::OutOfRange));
    assert_eq!(s.get_offset(), 0);
    assert_eq!(s.get_u24_be(), Ok(0x010203));
}

#[test]
fn triad_uses_three_bytes() {
    let mut s = Stream::with_capacity(4);
    s.put_u24_be(0xFFFFFF);
    assert_eq!(s.get_buffer(), &[0xFF, 0xFF, 0xFF][..]);
    s.rewind();
    assert_eq!(s.get_u24_be(), Ok(0xFFFFFF));
    assert!(s.feof());
    let mut t = Stream::with_capacity(8);
    t.put_u24_be(0x12345678);
    t.put_u24_le(0x12345678);
    assert_eq!(t.get_buffer(), &[0x34, 0x56, 0x78, 0x78, 0x56, 0x34][..]);
    t.rewind();
    assert_eq!(t.get_u24_be(), Ok(0x345678));
    assert_eq!(t.get_u24_le(), Ok(0x345678));
}

#[test]
fn consumed_stream_is_at_end_and_reads_fail() {
    let mut s = Stream::new(vec![7, 8], 0);
    assert!(!s.feof());
    assert_eq!(s.get_u16_be(), Ok(0x0708));
    assert!(s.feof());
    assert_eq!(s.get_byte(), Err(StreamError::OutOfRange));
    assert_eq!(s.get_bool(), Err(StreamError::OutOfRange));
    assert_eq!(s.get_u64_le(), Err(StreamError::OutOfRange));
    assert_eq!(s.get_var_u32(), Err(StreamError::OutOfRange));
    assert_eq!(s.get_remaining(), Err(StreamError::EndOfStream));
    assert_eq!(s.get_offset(), 2);
}

#[test]
fn raw_get_and_remaining() {
    let mut s = Stream::new(vec![1, 2, 3, 4, 5], 1);
    assert_eq!(s.get_remaining(), Ok(vec![2, 3, 4, 5]));
    assert_eq!(s.get_offset(), 1);
    assert_eq!(s.get(2), Ok(vec![2, 3]));
    assert_eq!(s.get_offset(), 3);
    assert_eq!(s.get(3), Err(StreamError::OutOfRange));
    assert_eq!(s.get_offset(), 3);
    assert_eq!(s.get(0), Ok(vec![]));
    assert_eq!(s.get_buffer(), &[1, 2, 3, 4, 5][..]);
}

#[test]
fn writes_append_and_leave_cursor() {
    let mut s = Stream::new(vec![9], 1);
    s.put(vec![1, 2]);
    s.put_byte(3);
    assert_eq!(s.get_offset(), 1);
    assert_eq!(s.get_buffer(), &[9, 1, 2, 3][..]);
    assert_eq!(s.get_remaining(), Ok(vec![1, 2, 3]));
}

#[test]
fn set_offset_checks_bounds() {
    let mut s = Stream::new(vec![1, 2, 3], 0);
    assert_eq!(s.set_offset(3), Ok(()));
    assert_eq!(s.get_offset(), 3);
    assert!(s.feof());
    assert_eq!(s.set_offset(4), Err(StreamError::InvalidOffset));
    assert_eq!(s.get_offset(), 3);
    assert_eq!(s.set_offset(1), Ok(()));
    assert_eq!(s.get_byte(), Ok(2));
    s.rewind();
    assert_eq!(s.get_offset(), 0);
}

#[test]
fn empty_stream() {
    let s = Stream::with_capacity(0);
    assert!(s.feof());
    assert_eq!(s.get_offset(), 0);
    assert!(s.get_buffer().is_empty());
    assert_eq!(s.get_remaining(), Err(StreamError::EndOfStream));
}
