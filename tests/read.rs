use erlang_cnode::{be_i32, be_u16, be_u32, be_u64, be_u8, take, Error};

#[test]
fn take_splits_front() {
    let input = [1u8, 2, 3, 4];
    let (rest, head) = take(&input, 3).unwrap();
    assert_eq!(head, &[1, 2, 3]);
    assert_eq!(rest, &[4]);
}

#[test]
fn take_too_much_is_truncated() {
    assert!(matches!(take(&[1u8, 2], 3), Err(Error::TruncatedInput)));
}

#[test]
fn be_u8_reads_one_byte() {
    let (rest, v) = be_u8(&[7u8, 9]).unwrap();
    assert_eq!(v, 7);
    assert_eq!(rest, &[9]);
    assert!(matches!(be_u8(&[]), Err(Error::TruncatedInput)));
}

#[test]
fn be_u16_is_big_endian() {
    let (rest, v) = be_u16(&[1u8, 2, 3]).unwrap();
    assert_eq!(v, 258);
    assert_eq!(rest, &[3]);
    assert!(matches!(be_u16(&[1u8]), Err(Error::TruncatedInput)));
}

#[test]
fn be_u32_is_big_endian() {
    let (rest, v) = be_u32(&[0x12u8, 0x34, 0x56, 0x78]).unwrap();
    assert_eq!(v, 0x1234_5678);
    assert!(rest.is_empty());
    assert!(matches!(be_u32(&[1u8, 2, 3]), Err(Error::TruncatedInput)));
}

#[test]
fn be_i32_reinterprets_the_bits() {
    let (_, v) = be_i32(&[0xffu8, 0xff, 0xff, 0xfe]).unwrap();
    assert_eq!(v, -2);
}

#[test]
fn be_u64_is_big_endian() {
    let (rest, v) = be_u64(&[1u8, 2, 3, 4, 5, 6, 7, 8, 9]).unwrap();
    assert_eq!(v, 0x0102_0304_0506_0708);
    assert_eq!(rest, &[9]);
    assert!(matches!(be_u64(&[1u8; 7]), Err(Error::TruncatedInput)));
}
