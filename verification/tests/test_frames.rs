use saberrs::sabertooth2x32::packetserial::checksum;
use saberrs::sabertooth2x32::packetserial::crc;
use saberrs::sabertooth2x32::packetserial::{
    encode_datum, pack_data_value, unpack_data_value, CommandGet, CommandSet, PacketFrame,
};
use saberrs::sabertooth2x32::{PacketType, DEFAULT_ADDRESS, DEFAULT_PACKET_TYPE};
use saberrs::utils::{channel_digit, decimal_string, signed_decimal_string};
use saberrs::Error;

#[test]
fn defaults() {
    assert_eq!(DEFAULT_ADDRESS, 128);
    assert_eq!(DEFAULT_PACKET_TYPE, PacketType::CRC);
    assert_eq!(checksum::PACKET_SET_SIZE, 9);
    assert_eq!(checksum::PACKET_GET_SIZE, 7);
    assert_eq!(checksum::PACKET_REPLY_SIZE, 9);
    assert_eq!(crc::PACKET_SET_SIZE, 10);
    assert_eq!(crc::PACKET_GET_SIZE, 8);
    assert_eq!(crc::PACKET_REPLY_SIZE, 10);
    assert_eq!(crc::PACKET_ADDR_OFFSET, 112);
}

#[test]
fn command_codes() {
    assert_eq!(CommandSet::Value.code(), 0);
    assert_eq!(CommandSet::KeepAlive.code(), 16);
    assert_eq!(CommandSet::Shutdown.code(), 32);
    assert_eq!(CommandSet::Timeout.code(), 64);
    assert_eq!(CommandGet::Value.code(), 0);
    assert_eq!(CommandGet::Battery.code(), 16);
    assert_eq!(CommandGet::Current.code(), 32);
    assert_eq!(CommandGet::Temperature.code(), 64);
}

#[test]
fn packing_splits_fourteen_bits() {
    assert_eq!(pack_data_value(0), [0, 0]);
    assert_eq!(pack_data_value(2047), [0x7f, 0x0f]);
    assert_eq!(pack_data_value(16383), [0x7f, 0x7f]);
    assert_eq!(pack_data_value(16384), [0, 0]);
    assert_eq!(pack_data_value(0xffff), [0x7f, 0x7f]);
    assert_eq!(unpack_data_value(&[0x7f, 0x0f]), 2047);
    assert_eq!(unpack_data_value(&[0xff, 0x8f]), 2047);
    assert_eq!(unpack_data_value(&[0x2e, 0x08, 0xff]), 1070);
    for value in 0..16384u16 {
        assert_eq!(unpack_data_value(&pack_data_value(value)), value);
    }
}

#[test]
fn a_negative_datum_is_its_magnitude_under_the_next_code() {
    assert_eq!(encode_datum(CommandSet::Value, 5), (0, [5, 0]));
    assert_eq!(encode_datum(CommandSet::Value, -5), (1, [5, 0]));
    assert_eq!(encode_datum(CommandSet::Shutdown, -2047), (33, [0x7f, 0x0f]));
    assert_eq!(encode_datum(CommandSet::Timeout, 0), (64, [0, 0]));
    assert_eq!(encode_datum(CommandSet::KeepAlive, -1), (17, [1, 0]));
    assert_eq!(encode_datum(CommandSet::Value, 16384 + 5), (0, [5, 0]));
    assert_eq!(encode_datum(CommandSet::Value, i32::MAX), (0, [0x7f, 0x7f]));
    assert_eq!(encode_datum(CommandSet::Value, i32::MIN), (1, [0, 0]));
}

#[test]
fn checksum_set_frame_for_startup() {
    let frame = checksum::PacketSet::new(128, CommandSet::Shutdown, 0, [0x4d, 0x31]).unwrap();
    assert_eq!(frame.as_ref(), b"\x80\x28\x20\x48\x00\x00\x4d\x31\x7e");
    let frame = checksum::PacketSet::new(128, CommandSet::Shutdown, 0, [0x4d, 0x32]).unwrap();
    assert_eq!(frame.as_ref(), b"\x80\x28\x20\x48\x00\x00\x4d\x32\x7f");
    let frame = checksum::PacketGet::new(128, CommandGet::Battery, [0x4d, 0x31]).unwrap();
    assert_eq!(frame.as_ref(), b"\x80\x29\x10\x39\x4D\x31\x7E");
}

#[test]
fn crc_frames() {
    let frame = crc::PacketSet::new(128, CommandSet::Value, -2047, [0x4d, 0x31]).unwrap();
    assert_eq!(frame.as_ref(), b"\xf0\x28\x01\x20\x7f\x0f\x4d\x31\x51\x3b");
    let frame = crc::PacketGet::new(128, CommandGet::Value, [77, 49]).unwrap();
    assert_eq!(frame.as_ref(), &[240, 41, 0, 109, 77, 49, 6, 36]);
    assert!(matches!(
        crc::PacketSet::new(144, CommandSet::Value, 0, [0x4d, 0x31]),
        Err(Error::InvalidInput(_))
    ));
    assert!(matches!(
        crc::PacketGet::new(255, CommandGet::Value, [0x4d, 0x31]),
        Err(Error::InvalidInput(_))
    ));
    assert!(crc::PacketGet::new(143, CommandGet::Value, [0x4d, 0x31]).is_ok());
    assert_eq!(crc::crc14_to_buf(&[0, 255]), [0x37, 0x77]);
}

#[test]
fn frames_of_either_protection() {
    let frame =
        PacketFrame::new_set_frame(PacketType::Checksum, 128, CommandSet::Value, 511, [0x52, 0x31])
            .unwrap();
    assert!(matches!(frame, PacketFrame::ChecksumSet(_)));
    assert_eq!(frame.as_ref(), b"\x80\x28\x00\x28\x7f\x03\x52\x31\x05");
    let frame =
        PacketFrame::new_set_frame(PacketType::CRC, 128, CommandSet::Value, 511, [0x52, 0x31])
            .unwrap();
    assert!(matches!(frame, PacketFrame::CRCSet(_)));
    assert_eq!(frame.as_ref(), b"\xf0\x28\x00\x0c\x7f\x03\x52\x31\x0a\x6e");
    let frame =
        PacketFrame::new_get_frame(PacketType::Checksum, 128, CommandGet::Current, [0x4d, 0x32])
            .unwrap();
    assert!(matches!(frame, PacketFrame::ChecksumGet(_)));
    assert_eq!(frame.as_ref(), b"\x80\x29\x20\x49\x4D\x32\x7F");
    assert!(PacketFrame::new_get_frame(PacketType::CRC, 200, CommandGet::Value, [0, 0]).is_err());
    assert!(
        PacketFrame::new_get_frame(PacketType::Checksum, 200, CommandGet::Value, [0, 0]).is_ok()
    );
}

#[test]
fn empty_and_long_inputs_of_the_codes() {
    assert_eq!(checksum::checksum(&[]), 0);
    assert_eq!(checksum::checksum(&[0xff; 1000]), ((255u32 * 1000) % 128) as u8);
    assert_eq!(crc::crc7(&[]), 0);
    assert_eq!(crc::crc14(&[]), 0);
    assert_eq!(crc::crc7(&[0xf0, 0x29, 0x00]), 0x6d);
    assert_eq!(crc::crc14(&[0x4d, 0x31]), 0x06 | (0x24 << 7));
}

#[test]
fn decimal_text() {
    assert_eq!(decimal_string(0), "0");
    assert_eq!(decimal_string(7), "7");
    assert_eq!(decimal_string(10), "10");
    assert_eq!(decimal_string(1234567890), "1234567890");
    assert_eq!(decimal_string(u128::MAX), u128::MAX.to_string());
    assert_eq!(signed_decimal_string(0), "0");
    assert_eq!(signed_decimal_string(-1), "-1");
    assert_eq!(signed_decimal_string(2047), "2047");
    assert_eq!(signed_decimal_string(i32::MIN), "-2147483648");
    assert_eq!(signed_decimal_string(i32::MAX), "2147483647");
}

#[test]
fn channels() {
    assert_eq!(channel_digit(1).unwrap(), 0x31);
    assert_eq!(channel_digit(2).unwrap(), 0x32);
    assert!(matches!(channel_digit(0), Err(Error::InvalidInput(_))));
}

#[test]
fn errors_describe_themselves() {
    assert_eq!(
        Error::InvalidInput("bad".to_string()).to_string(),
        "Invalid input: bad"
    );
    assert_eq!(
        Error::Response("invalid source".to_string()).to_string(),
        "Invalid response from Sabertooth: invalid source"
    );
    assert_eq!(Error::Other.to_string(), "Other saberrs error");
    let io = std::io::Error::new(std::io::ErrorKind::TimedOut, "timed out");
    assert_eq!(Error::Io(io).to_string(), "IO error: timed out");
    let serial = saberrs::error::SerialError {
        kind: saberrs::error::SerialErrorKind::NoDevice,
        description: "no such port".to_string(),
    };
    assert_eq!(
        Error::Serial(serial).to_string(),
        "serialport error: no such port"
    );
}
