use sha256::bytes::{add_bytes_to_bits, read_u32_be, read_u32v_be, to_hex, write_u32_be, ToBits};

#[test]
fn write_u32_be_at_offset() {
    let mut dst = [0u8; 8];
    write_u32_be(&mut dst, 2, 0x0102_0304);
    assert_eq!(dst, [0, 0, 1, 2, 3, 4, 0, 0]);
}

#[test]
fn read_u32_be_first_four_bytes() {
    assert_eq!(read_u32_be(&[0xde, 0xad, 0xbe, 0xef, 0x55]), 0xdead_beef);
}

#[test]
fn read_u32v_be_words_and_rest_unchanged() {
    let mut dst = [7u32; 3];
    read_u32v_be(&mut dst, &[0, 0, 0, 1, 0x80, 0, 0, 2]);
    assert_eq!(dst, [1, 0x8000_0002, 7]);
}

#[test]
fn to_bits_splits_bit_count() {
    assert_eq!(5u64.to_bits(), (0, 40));
    assert_eq!(0x2000_0000_0000_0001u64.to_bits(), (1, 8));
}

#[test]
fn add_bytes_to_bits_adds_eight_per_byte() {
    assert_eq!(add_bytes_to_bits(16, 3), 40);
    assert_eq!(add_bytes_to_bits(0, 0), 0);
}

#[test]
fn to_hex_lower_case_two_digits_per_byte() {
    assert_eq!(to_hex(&[0x00, 0x0f, 0xa5, 0xff]), "000fa5ff");
    assert_eq!(to_hex(&[]), "");
}
