use std::cell::RefCell;
use std::collections::VecDeque;
use std::rc::Rc;
use std::time::Duration;

use saberrs::sabertooth2x32::packetserial::{checksum, crc, CommandGet, ParseError};
use saberrs::sabertooth2x32::{PacketSerial, PacketType, PlainText, Sabertooth2x32};
use saberrs::{Binary32, Error, Recorded, SabertoothSerial};

/// A serial device that records what it is given and answers from a queue.
#[derive(Clone)]
struct Link {
    written: Rc<RefCell<Vec<u8>>>,
    incoming: Rc<RefCell<VecDeque<u8>>>,
}

impl Link {
    fn new() -> Link {
        Link {
            written: Rc::new(RefCell::new(Vec::new())),
            incoming: Rc::new(RefCell::new(VecDeque::new())),
        }
    }

    /// What was written since the last call.
    fn take_written(&self) -> Vec<u8> {
        self.written.borrow_mut().drain(..).collect()
    }

    fn set_response(&self, response: &[u8]) {
        let mut incoming = self.incoming.borrow_mut();
        incoming.clear();
        incoming.extend(response.iter().copied());
    }
}

impl SabertoothSerial for Link {
    fn set_timeout(&mut self, _timeout: Duration) -> Result<(), Error> {
        Ok(())
    }

    fn timeout(&self) -> Duration {
        Duration::from_millis(100)
    }

    fn set_baud_rate(&mut self, _baud_rate: u32) -> Result<(), Error> {
        Ok(())
    }

    fn baud_rate(&self) -> Result<u32, Error> {
        Ok(9600)
    }

    fn clear_all(&self) -> Result<(), Error> {
        Ok(())
    }

    fn write_all(&mut self, buf: &[u8]) -> Result<(), Error> {
        self.written.borrow_mut().extend_from_slice(buf);
        Ok(())
    }

    fn read_exact(&mut self, buf: &mut [u8]) -> Result<(), Error> {
        let mut incoming = self.incoming.borrow_mut();
        if incoming.len() < buf.len() {
            return Err(Error::Io(std::io::Error::new(
                std::io::ErrorKind::TimedOut,
                "timed out",
            )));
        }
        for byte in buf.iter_mut() {
            *byte = incoming.pop_front().unwrap();
        }
        Ok(())
    }

    fn read(&mut self, buf: &mut [u8]) -> Result<usize, Error> {
        let mut incoming = self.incoming.borrow_mut();
        let mut count = 0;
        while count < buf.len() {
            match incoming.pop_front() {
                Some(byte) => {
                    buf[count] = byte;
                    count += 1;
                }
                None => break,
            }
        }
        Ok(count)
    }
}

fn ratio(x: f32) -> Binary32 {
    Binary32::from_bits(x.to_bits())
}

fn is_invalid_input<R>(r: Result<R, Error>) -> bool {
    matches!(r, Err(Error::InvalidInput(_)))
}

fn response_text<R>(r: Result<R, Error>) -> String {
    match r {
        Err(Error::Response(msg)) => msg,
        _ => panic!("no response error"),
    }
}

const CHECKSUM_REPLY: &[u8] = b"\x80\x49\x01\x4A\x2E\x08\x4D\x32\x35";
const CRC_REPLY: &[u8] = b"\xF0\x49\x01\x39\x6B\x05\x4D\x32\x4C\x58";

#[test]
fn every_per_channel_setter_refuses_other_channels_and_writes_nothing() {
    for packet_type in [PacketType::Checksum, PacketType::CRC] {
        let link = Link::new();
        let mut saber = PacketSerial::from(&link).with_packet_type(packet_type);
        for channel in [0usize, 3, 4, 17, usize::MAX] {
            assert!(is_invalid_input(saber.startup(channel)));
            assert!(is_invalid_input(saber.shutdown(channel)));
            assert!(is_invalid_input(saber.set_speed(channel, ratio(0.5))));
            assert!(is_invalid_input(saber.set_power(channel, ratio(0.5))));
            assert!(is_invalid_input(saber.set_ramp(channel, ratio(0.5))));
            assert!(is_invalid_input(saber.set_aux(channel, ratio(0.5))));
            assert!(is_invalid_input(saber.get_speed(channel)));
            assert!(is_invalid_input(saber.get_power(channel)));
            assert!(is_invalid_input(saber.get_voltage(channel)));
            assert!(is_invalid_input(saber.get_current(channel)));
            assert!(is_invalid_input(saber.get_temperature(channel)));
        }
        assert_eq!(0, link.take_written().len());
    }
    let link = Link::new();
    let mut saber = PlainText::from(&link);
    for channel in [0usize, 3, 4, 17, usize::MAX] {
        assert!(is_invalid_input(saber.startup(channel)));
        assert!(is_invalid_input(saber.shutdown(channel)));
        assert!(is_invalid_input(saber.set_speed(channel, ratio(0.5))));
        assert!(is_invalid_input(saber.set_power(channel, ratio(0.5))));
        assert!(is_invalid_input(saber.set_ramp(channel, ratio(0.5))));
        assert!(is_invalid_input(saber.set_aux(channel, ratio(0.5))));
        assert!(is_invalid_input(saber.get_speed(channel)));
        assert!(is_invalid_input(saber.get_voltage(channel)));
    }
    assert_eq!(0, link.take_written().len());
}

#[test]
fn the_refusal_names_the_channel() {
    let link = Link::new();
    let mut saber = PacketSerial::from(&link);
    match saber.startup(1234567) {
        Err(Error::InvalidInput(msg)) => {
            assert_eq!(msg, "channel should be 1 or 2 (was 1234567)")
        }
        _ => panic!("no refusal"),
    }
    match saber.set_speed(0, ratio(2.0)) {
        Err(Error::InvalidInput(msg)) => assert_eq!(msg, "channel should be 1 or 2 (was 0)"),
        _ => panic!("no refusal"),
    }
    match saber.set_speed(1, ratio(2.0)) {
        Err(Error::InvalidInput(msg)) => assert_eq!(msg, "value out of range -1.0~1.0"),
        _ => panic!("no refusal"),
    }
}

#[test]
fn no_inverted_bit_survives_the_crc() {
    assert_eq!(crc::packet_is_valid(CRC_REPLY, 128), Ok(()));
    for index in 0..CRC_REPLY.len() {
        for bit in 0..8 {
            let mut reply = CRC_REPLY.to_vec();
            reply[index] ^= 1 << bit;
            assert!(crc::packet_is_valid(&reply, 128).is_err(), "{} {}", index, bit);
        }
    }
}

#[test]
fn only_unseen_bits_survive_the_checksum() {
    assert_eq!(checksum::packet_is_valid(CHECKSUM_REPLY, 128), Ok(()));
    for index in 0..CHECKSUM_REPLY.len() {
        for bit in 0..8 {
            let mut reply = CHECKSUM_REPLY.to_vec();
            reply[index] ^= 1 << bit;
            let unseen = bit == 7 && index != 0 && index != 3 && index != 8;
            assert_eq!(
                checksum::packet_is_valid(&reply, 128).is_err(),
                !unseen,
                "{} {}",
                index,
                bit
            );
        }
    }
}

#[test]
fn an_inverted_bit_is_refused_or_changes_nothing() {
    let link = Link::new();
    let saberchecksum = PacketSerial::from(&link).with_packet_type(PacketType::Checksum);
    let sabercrc = PacketSerial::from(&link).with_packet_type(PacketType::CRC);
    let source = [0x4d, 0x32];
    assert_eq!(
        saberchecksum
            .parse_response(CHECKSUM_REPLY, CommandGet::Value, source)
            .unwrap(),
        -1070
    );
    assert_eq!(
        sabercrc
            .parse_response(CRC_REPLY, CommandGet::Value, source)
            .unwrap(),
        -747
    );
    for index in 0..CHECKSUM_REPLY.len() {
        for bit in 0..8 {
            let mut reply = CHECKSUM_REPLY.to_vec();
            reply[index] ^= 1 << bit;
            let r = saberchecksum.parse_response(&reply, CommandGet::Value, source);
            if bit == 7 && (index == 4 || index == 5) {
                assert_eq!(r.unwrap(), -1070);
            } else {
                assert!(r.is_err(), "{} {}", index, bit);
            }
        }
    }
    for index in 0..CRC_REPLY.len() {
        for bit in 0..8 {
            let mut reply = CRC_REPLY.to_vec();
            reply[index] ^= 1 << bit;
            let r = sabercrc.parse_response(&reply, CommandGet::Value, source);
            assert!(r.is_err(), "{} {}", index, bit);
        }
    }
}

#[test]
fn an_intact_reply_from_another_address_is_an_address_error() {
    assert_eq!(
        checksum::packet_is_valid(CHECKSUM_REPLY, 129),
        Err(ParseError::AddressError)
    );
    assert_eq!(
        crc::packet_is_valid(CRC_REPLY, 129),
        Err(ParseError::AddressError)
    );
    assert_eq!(
        crc::packet_is_valid(CRC_REPLY, 255),
        Err(ParseError::AddressError)
    );
    let mut damaged = CHECKSUM_REPLY.to_vec();
    damaged[4] ^= 1;
    assert_eq!(
        checksum::packet_is_valid(&damaged, 129),
        Err(ParseError::ChecksumError)
    );
    let link = Link::new();
    for packet_type in [PacketType::Checksum, PacketType::CRC] {
        let reply = match packet_type {
            PacketType::Checksum => CHECKSUM_REPLY,
            PacketType::CRC => CRC_REPLY,
        };
        let saber = PacketSerial::from(&link)
            .with_packet_type(packet_type)
            .with_address(129);
        let r = saber.parse_response(reply, CommandGet::Value, [0x4d, 0x32]);
        assert_eq!(response_text(r), "invalid address");
    }
}

#[test]
fn every_fault_of_a_reply_has_its_own_description() {
    let link = Link::new();
    let saber = PacketSerial::from(&link).with_packet_type(PacketType::Checksum);
    let source = [0x4d, 0x32];
    let read = |reply: &[u8], cmd: CommandGet, source: [u8; 2]| {
        response_text(saber.parse_response(reply, cmd, source))
    };
    assert_eq!(read(&CHECKSUM_REPLY[..8], CommandGet::Value, source), "invalid packet size");
    assert_eq!(read(&[], CommandGet::Value, source), "invalid packet size");
    let mut reply = CHECKSUM_REPLY.to_vec();
    reply[8] ^= 2;
    assert_eq!(read(&reply, CommandGet::Value, source), "invalid checksum or CRC");
    let mut reply = CHECKSUM_REPLY.to_vec();
    reply[0] = 0x81;
    reply[3] = 0x4B;
    assert_eq!(read(&reply, CommandGet::Value, source), "invalid address");
    let mut reply = CHECKSUM_REPLY.to_vec();
    reply[1] = 0x48;
    reply[3] = 0x49;
    assert_eq!(read(&reply, CommandGet::Value, source), "invalid command num");
    assert_eq!(read(CHECKSUM_REPLY, CommandGet::Battery, source), "invalid command value");
    assert_eq!(read(CHECKSUM_REPLY, CommandGet::Value, [0x4d, 0x31]), "invalid source");
    assert_eq!(read(CHECKSUM_REPLY, CommandGet::Value, [0x50, 0x32]), "invalid source");
}

#[test]
fn an_address_beyond_143_cannot_be_sent_under_crc() {
    let link = Link::new();
    let mut saber = PacketSerial::from(&link).with_address(144);
    assert!(is_invalid_input(saber.startup(1)));
    assert!(is_invalid_input(saber.set_speed(1, ratio(0.5))));
    assert!(is_invalid_input(saber.get_speed(1)));
    assert_eq!(0, link.take_written().len());
    let mut saber = PacketSerial::from(&link).with_address(143);
    saber.startup(1).unwrap();
    assert_eq!(link.take_written()[0], 255);
    let mut saber = PacketSerial::from(&link)
        .with_address(255)
        .with_packet_type(PacketType::Checksum);
    saber.startup(1).unwrap();
    assert_eq!(link.take_written()[0], 255);
}

/// A device that fails every write.
struct Broken {
    reads: usize,
}

impl SabertoothSerial for Broken {
    fn set_timeout(&mut self, _timeout: Duration) -> Result<(), Error> {
        Ok(())
    }

    fn timeout(&self) -> Duration {
        Duration::from_millis(100)
    }

    fn set_baud_rate(&mut self, _baud_rate: u32) -> Result<(), Error> {
        Ok(())
    }

    fn baud_rate(&self) -> Result<u32, Error> {
        Ok(9600)
    }

    fn clear_all(&self) -> Result<(), Error> {
        Ok(())
    }

    fn write_all(&mut self, _buf: &[u8]) -> Result<(), Error> {
        Err(Error::Io(std::io::Error::new(
            std::io::ErrorKind::BrokenPipe,
            "gone",
        )))
    }

    fn read_exact(&mut self, _buf: &mut [u8]) -> Result<(), Error> {
        self.reads += 1;
        Err(Error::Other)
    }

    fn read(&mut self, _buf: &mut [u8]) -> Result<usize, Error> {
        self.reads += 1;
        Err(Error::Other)
    }
}

#[test]
fn an_error_of_the_device_comes_back_as_it_is() {
    let mut saber = PacketSerial::from(Broken { reads: 0 });
    match saber.startup(1) {
        Err(Error::Io(e)) => assert_eq!(e.kind(), std::io::ErrorKind::BrokenPipe),
        _ => panic!("no device error"),
    }
    match saber.get_speed(1) {
        Err(Error::Io(e)) => assert_eq!(e.kind(), std::io::ErrorKind::BrokenPipe),
        _ => panic!("no device error"),
    }
    let link = Link::new();
    let mut saber = PacketSerial::from(&link);
    match saber.get_speed(1) {
        Err(Error::Io(e)) => assert_eq!(e.kind(), std::io::ErrorKind::TimedOut),
        _ => panic!("no timeout"),
    }
}

#[test]
fn stop_motors_sets_both_speeds_to_zero() {
    let link = Link::new();
    let mut saber = PacketSerial::from(&link).with_packet_type(PacketType::Checksum);
    saber.stop_motors().unwrap();
    assert_eq!(
        link.take_written(),
        b"\x80\x28\x00\x28\x00\x00\x4d\x31\x7e\x80\x28\x00\x28\x00\x00\x4d\x32\x7f".to_vec()
    );
}

#[test]
#[allow(unused)]
fn instantiate_multiple_protocols() {
    let mut dev = Link::new();
    let mut sabertext = PlainText::from(&dev);
    let mut saberchecksum = PacketSerial::from(&dev);
    dev.write_all(b"gibberish").expect("Raw interface failed");
    sabertext
        .set_speed(1, ratio(0.2))
        .expect("Text interface failed");
    saberchecksum
        .set_speed(1, ratio(0.2))
        .expect("Checksum interface failed");
    assert_eq!(
        dev.take_written(),
        b"gibberishM1: 409\r\n\xf0\x28\x00\x0c\x19\x03\x4d\x31\x7a\x59".to_vec()
    );
}

#[test]
fn a_recorded_device_is_the_device() {
    let link = Link::new();
    link.set_response(b"abc");
    let mut recorded = Recorded::new(link.clone());
    recorded.clear_all().unwrap();
    recorded.write_all(&[1, 2, 3]).unwrap();
    let mut two = [0u8; 2];
    recorded.read_exact(&mut two).unwrap();
    assert_eq!(&two, b"ab");
    let mut more = [0u8; 4];
    assert_eq!(recorded.read(&mut more).unwrap(), 1);
    assert_eq!(more[0], b'c');
    assert!(recorded.read_exact(&mut two).is_err());
    assert_eq!(link.take_written(), vec![1, 2, 3]);
}

#[test]
fn stop_motors_stops_at_the_first_failure() {
    let mut saber = PacketSerial::from(Broken { reads: 0 });
    match saber.stop_motors() {
        Err(Error::Io(e)) => assert_eq!(e.kind(), std::io::ErrorKind::BrokenPipe),
        _ => panic!("no device error"),
    }
    let link = Link::new();
    let mut saber = PacketSerial::from(&link).with_address(200);
    assert!(is_invalid_input(saber.stop_motors()));
    assert_eq!(0, link.take_written().len());
}
