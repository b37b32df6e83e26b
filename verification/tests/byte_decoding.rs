use cpp_test_runner::bytes::{get_u16, get_u32, get_u64, get_u8};

#[test]
fn little_endian_words_decode_least_significant_first() {
    let data = [0x01u8, 0x02, 0x03, 0x04, 0x05, 0x06, 0x07, 0x08, 0xff];
    assert_eq!(get_u64(&data, 0, true), Some(0x0807060504030201));
    assert_eq!(get_u32(&data, 0, true), Some(0x04030201));
    assert_eq!(get_u16(&data, 0, true), Some(0x0201));
    assert_eq!(get_u8(&data, 0, true), Some(0x01));
    assert_eq!(get_u16(&data, 7, true), Some(0xff08));
}

#[test]
fn big_endian_words_decode_most_significant_first() {
    let data = [0x01u8, 0x02, 0x03, 0x04, 0x05, 0x06, 0x07, 0x08];
    assert_eq!(get_u64(&data, 0, false), Some(0x0102030405060708));
    assert_eq!(get_u32(&data, 4, false), Some(0x05060708));
    assert_eq!(get_u16(&data, 2, false), Some(0x0304));
    assert_eq!(get_u8(&data, 7, false), Some(0x08));
}

#[test]
fn out_of_range_reads_return_nothing() {
    let data = [0u8; 4];
    assert_eq!(get_u64(&data, 0, true), None);
    assert_eq!(get_u32(&data, 1, true), None);
    assert_eq!(get_u16(&data, 3, false), None);
    assert_eq!(get_u8(&data, 4, true), None);
    assert_eq!(get_u8(&data, u64::MAX, true), None);
}
