use bcdb_types::error::BCDBError;
use bcdb_types::types::{Offset, U24, OFFSET_MAX, PAGE_SIZE, U24_MAX};

#[test]
fn offset_new_accepts_up_to_bound() {
    assert_eq!(Offset::new(0).unwrap().as_u64(), 0);
    assert_eq!(Offset::new(1).unwrap().as_u64(), 1);
    assert_eq!(Offset::new(OFFSET_MAX).unwrap().as_u64(), OFFSET_MAX);
}

#[test]
fn offset_new_rejects_above_bound() {
    assert_eq!(Offset::new(OFFSET_MAX + 1), Err(BCDBError::InvalidOffset));
    assert_eq!(Offset::new(u64::MAX), Err(BCDBError::InvalidOffset));
}

#[test]
fn u24_new_accepts_up_to_bound() {
    assert_eq!(U24::new(0).unwrap().as_usize(), 0);
    assert_eq!(U24::new(U24_MAX).unwrap().as_usize(), U24_MAX);
}

#[test]
fn u24_new_rejects_above_bound() {
    assert_eq!(U24::new(U24_MAX + 1), Err(BCDBError::InvalidOffset));
    assert_eq!(U24::new(usize::MAX), Err(BCDBError::InvalidOffset));
}

#[test]
fn offset_parse_rejects_wrong_lengths() {
    assert_eq!(Offset::from_slice(&[]), Err(BCDBError::InvalidOffset));
    assert_eq!(Offset::from_slice(&[1, 2, 3, 4, 5]), Err(BCDBError::InvalidOffset));
    assert_eq!(
        Offset::from_slice(&[1, 2, 3, 4, 5, 6, 7]),
        Err(BCDBError::InvalidOffset)
    );
}

#[test]
fn u24_parse_rejects_wrong_lengths() {
    assert_eq!(U24::from_slice(&[]), Err(BCDBError::InvalidOffset));
    assert_eq!(U24::from_slice(&[1, 2]), Err(BCDBError::InvalidOffset));
    assert_eq!(U24::from_slice(&[1, 2, 3, 4]), Err(BCDBError::InvalidOffset));
}

#[test]
fn offset_serialize_big_endian() {
    let o = Offset::new(0x0102030405).unwrap();
    let mut buf = vec![0u8; 6];
    o.serialize(&mut buf);
    assert_eq!(buf, vec![0x00, 0x01, 0x02, 0x03, 0x04, 0x05]);
    let back = Offset::from_slice(&buf).unwrap();
    assert_eq!(back.as_u64(), 0x0102030405);
    assert_eq!(back, o);
}

#[test]
fn u24_serialize_big_endian() {
    let s = U24::new(0x010203).unwrap();
    let mut buf = vec![0u8; 3];
    s.serialize(&mut buf);
    assert_eq!(buf, vec![0x01, 0x02, 0x03]);
    let back = U24::from_slice(&buf).unwrap();
    assert_eq!(back.as_usize(), 0x010203);
    assert_eq!(back, s);
}

#[test]
fn offset_round_trip_many_values() {
    for v in [0u64, 1, 255, 256, 4095, 4096, 0x0102030405, OFFSET_MAX - 1, OFFSET_MAX] {
        let o = Offset::new(v).unwrap();
        let mut buf = vec![0u8; 6];
        o.serialize(&mut buf);
        assert_eq!(Offset::from_slice(&buf).unwrap().as_u64(), v);
    }
}

#[test]
fn u24_round_trip_many_values() {
    for v in [0usize, 1, 255, 256, 65535, 65536, U24_MAX - 1, U24_MAX] {
        let s = U24::new(v).unwrap();
        let mut buf = vec![0u8; 3];
        s.serialize(&mut buf);
        assert_eq!(U24::from_slice(&buf).unwrap().as_usize(), v);
    }
}

#[test]
fn offset_parse_all_six_byte_inputs_succeed() {
    assert_eq!(
        Offset::from_slice(&[0xFF; 6]).unwrap().as_u64(),
        OFFSET_MAX
    );
    assert_eq!(Offset::from_slice(&[0x00; 6]).unwrap().as_u64(), 0);
}

#[test]
fn u24_parse_all_three_byte_inputs_succeed() {
    assert_eq!(U24::from_slice(&[0xFF; 3]).unwrap().as_usize(), U24_MAX);
    assert_eq!(U24::from_slice(&[0x00; 3]).unwrap().as_usize(), 0);
}

#[test]
fn page_arithmetic_scenario() {
    let o = Offset::new(5000).unwrap();
    assert_eq!(o.page_number(), 1);
    assert_eq!(o.in_page_pos(), 904);
    assert_eq!(o.this_page().as_u64(), 4096);
    assert_eq!(o.next_page().unwrap().as_u64(), 8192);
}

#[test]
fn page_arithmetic_holds_for_samples() {
    for v in [0u64, 1, 4095, 4096, 4097, 5000, 0x0102030405, OFFSET_MAX] {
        let o = Offset::new(v).unwrap();
        let start = o.this_page().as_u64();
        let pos = o.in_page_pos() as u64;
        assert!(start <= v);
        assert!(v < start + PAGE_SIZE as u64);
        assert_eq!(pos, v - start);
        assert_eq!(o.page_number() * PAGE_SIZE as u64 + pos, v);
    }
}

#[test]
fn next_page_near_top_of_range() {
    // The last page that still starts within the 6-byte range.
    let o = Offset::new(OFFSET_MAX - 2 * PAGE_SIZE as u64).unwrap();
    let n = o.next_page().unwrap();
    assert_eq!(n.as_u64(), o.this_page().as_u64() + PAGE_SIZE as u64);

    // One past the top page would start at 2^48, outside the range.
    let top = Offset::new(OFFSET_MAX).unwrap();
    assert_eq!(top.next_page(), Err(BCDBError::InvalidOffset));
}

#[test]
fn default_values_are_zero() {
    assert_eq!(Offset::default().as_u64(), 0);
    assert_eq!(U24::default().as_usize(), 0);
}

#[test]
fn value_semantics() {
    let a = Offset::new(42).unwrap();
    let b = Offset::new(42).unwrap();
    let c = Offset::new(43).unwrap();
    assert_eq!(a, b);
    assert_ne!(a, c);
    let d = a;
    assert_eq!(d.as_u64(), 42);
}
