use saberrs::sabertooth2x32::packetserial::checksum::checksum;
use saberrs::sabertooth2x32::packetserial::crc::{crc14, crc7};

#[test]
fn test_checksum() {
    assert_eq!(0x15, checksum(b"\x80\x81\x04\x07\x09"));
}

#[test]
fn test_crc7() {
    assert_eq!(0x12, crc7(&[0]));
    assert_eq!(0x09, crc7(&[255]));
    assert_eq!(0x40, crc7(&[14]));
    assert_eq!(0x7f, crc7(&[127]));
    assert_eq!(0x64, crc7(&[128]));
    assert_eq!(0x7C, crc7(&[203]));
}

#[test]
fn test_crc14() {
    assert_eq!(0x3bb7, crc14(&[0, 255]));
    assert_eq!(0x1aa7, crc14(&[255, 0]));
    assert_eq!(0x2080, crc14(&[14, 127]));
    assert_eq!(0x20ee, crc14(&[203, 128]));
}
