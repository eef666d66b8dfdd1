use tudelft_serial_upload::crc::{calc_crc16, calc_crc16_default, CRC16_DEFAULT_SEED};

#[test]
fn checksum_of_nothing_is_the_seed() {
    assert_eq!(calc_crc16_default(&[]), 0xffff);
    assert_eq!(calc_crc16(&[], Some(0x1234)), 0x1234);
    assert_eq!(CRC16_DEFAULT_SEED, 0xffff);
}

#[test]
fn checksum_sample_vectors() {
    assert_eq!(calc_crc16_default(b"123456789"), 0x29b1);
    assert_eq!(calc_crc16_default(&[0x00]), 0xe1f0);
    assert_eq!(calc_crc16_default(&[0x01]), 0xf1d1);
    assert_eq!(calc_crc16_default(b"hello"), 0xd26e);
    assert_eq!(calc_crc16(b"abc", Some(0)), 0x9dd6);
}

#[test]
fn checksum_without_start_uses_default_seed() {
    assert_eq!(calc_crc16(b"123456789", None), 0x29b1);
    assert_eq!(calc_crc16(b"123456789", Some(0xffff)), calc_crc16_default(b"123456789"));
}

#[test]
fn checksum_is_deterministic() {
    let data: Vec<u8> = (0..=255u8).collect();
    assert_eq!(calc_crc16_default(&data), calc_crc16_default(&data));
    assert_eq!(calc_crc16(&data, Some(7)), calc_crc16(&data, Some(7)));
}

#[test]
fn checksum_continues_from_a_seed() {
    let head = calc_crc16_default(b"1234");
    assert_eq!(calc_crc16(b"56789", Some(head)), 0x29b1);
}

#[test]
fn checksum_changes_with_any_single_byte() {
    assert_eq!(calc_crc16_default(b"hellp"), 0x31b0);
    let data: Vec<u8> = (0..64u8).collect();
    let reference = calc_crc16_default(&data);
    for at in 0..data.len() {
        for flip in [0x01u8, 0x80, 0xff] {
            let mut changed = data.clone();
            changed[at] ^= flip;
            assert_ne!(calc_crc16_default(&changed), reference);
        }
    }
}
