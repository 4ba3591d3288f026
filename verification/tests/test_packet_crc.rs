use std::cell::RefCell;
use std::collections::VecDeque;
use std::rc::Rc;
use std::time::Duration;

use saberrs::sabertooth2x32::packetserial::{CommandGet, PacketFrame};
use saberrs::sabertooth2x32::{PacketSerial, PacketType, Sabertooth2x32};
use saberrs::{Binary32, Error, SabertoothSerial};

/// A serial device that records what it is given and answers from a queue.
#[derive(Clone)]
struct Link {
    written: Rc<RefCell<Vec<u8>>>,
    incoming: Rc<RefCell<VecDeque<u8>>>,
}

impl Link {
    fn new() -> Link {
        Link {
            written: Rc::new(RefCell::new(Vec::new())),
            incoming: Rc::new(RefCell::new(VecDeque::new())),
        }
    }

    /// What was written since the last call.
    fn take_written(&self) -> Vec<u8> {
        self.written.borrow_mut().drain(..).collect()
    }

    fn set_response(&self, response: &[u8]) {
        let mut incoming = self.incoming.borrow_mut();
        incoming.clear();
        incoming.extend(response.iter().copied());
    }
}

impl SabertoothSerial for Link {
    fn set_timeout(&mut self, _timeout: Duration) -> Result<(), Error> {
        Ok(())
    }

    fn timeout(&self) -> Duration {
        Duration::from_millis(100)
    }

    fn set_baud_rate(&mut self, _baud_rate: u32) -> Result<(), Error> {
        Ok(())
    }

    fn baud_rate(&self) -> Result<u32, Error> {
        Ok(9600)
    }

    fn clear_all(&self) -> Result<(), Error> {
        Ok(())
    }

    fn write_all(&mut self, buf: &[u8]) -> Result<(), Error> {
        self.written.borrow_mut().extend_from_slice(buf);
        Ok(())
    }

    fn read_exact(&mut self, buf: &mut [u8]) -> Result<(), Error> {
        let mut incoming = self.incoming.borrow_mut();
        if incoming.len() < buf.len() {
            return Err(Error::Io(std::io::Error::new(
                std::io::ErrorKind::TimedOut,
                "timed out",
            )));
        }
        for byte in buf.iter_mut() {
            *byte = incoming.pop_front().unwrap();
        }
        Ok(())
    }

    fn read(&mut self, buf: &mut [u8]) -> Result<usize, Error> {
        let mut incoming = self.incoming.borrow_mut();
        let mut count = 0;
        while count < buf.len() {
            match incoming.pop_front() {
                Some(byte) => {
                    buf[count] = byte;
                    count += 1;
                }
                None => break,
            }
        }
        Ok(count)
    }
}

fn sabercrc_harness() -> (PacketSerial<Link>, Link) {
    let link = Link::new();
    let saber = PacketSerial::from(&link).with_packet_type(PacketType::CRC);
    (saber, link)
}

fn ratio(x: f32) -> Binary32 {
    Binary32::from_bits(x.to_bits())
}

fn float(x: Binary32) -> f32 {
    f32::from_bits(x.to_bits())
}

/// Float equality that is good enough for the values of the device.
fn assert_eq_float(x: f32, y: f32) {
    if ((x - y) as f64).abs() > 0.001 {
        panic!("{} and {} are not (nearly) equal", x, y);
    }
}

#[test]
fn test_crc_packet() {
    assert_eq!(
        &[240, 41, 0, 109, 77, 49, 6, 36],
        PacketFrame::new_get_frame(PacketType::CRC, 128, CommandGet::Value, [77, 49])
            .unwrap()
            .as_ref()
    );
}

#[test]
fn startup() {
    let (mut sabercrc, tty) = sabercrc_harness();

    sabercrc.startup(1).expect("Startup failure");
    let written = tty.take_written();
    let expected = b"\xf0\x28\x20\x67\x00\x00\x4d\x31\x66\x5c";
    assert_eq!(expected.len(), written.len(), "Wrong length");
    assert_eq!(expected, &written[..], "Wrong data");

    sabercrc.startup(2).expect("Startup failure");
    let written = tty.take_written();
    let expected = b"\xf0\x28\x20\x67\x00\x00\x4d\x32\x14\x4c";
    assert_eq!(expected.len(), written.len(), "Wrong length");
    assert_eq!(expected, &written[..], "Wrong data");

    sabercrc.startup(0).expect_err("Channel 0 should fail");
    sabercrc.startup(3).expect_err("Channel 3 should fail");
}

#[test]
fn shutdown() {
    let (mut sabercrc, tty) = sabercrc_harness();

    sabercrc.shutdown(1).expect("Startup failure");
    let written = tty.take_written();
    let expected = b"\xf0\x28\x20\x67\x01\x00\x4d\x31\x3b\x22";
    assert_eq!(expected.len(), written.len(), "Wrong length");
    assert_eq!(expected, &written[..], "Wrong data");

    sabercrc.shutdown(2).expect("Startup failure");
    let written = tty.take_written();
    let expected = b"\xf0\x28\x20\x67\x01\x00\x4d\x32\x49\x32";
    assert_eq!(expected.len(), written.len(), "Wrong length");
    assert_eq!(expected, &written[..], "Wrong data");

    sabercrc.shutdown(0).expect_err("Channel 0 should fail");
    sabercrc.shutdown(3).expect_err("Channel 3 should fail");
}

#[test]
fn set_speed() {
    let vectors = [
        (1, -1.0, b"\xf0\x28\x01\x20\x7f\x0f\x4d\x31\x51\x3b".to_vec()),
        (2, -0.5, b"\xf0\x28\x01\x20\x7f\x07\x4d\x32\x65\x6c".to_vec()),
        (1, 0.0, b"\xf0\x28\x00\x0c\x00\x00\x4d\x31\x66\x5c".to_vec()),
        (1, 0.25, b"\xf0\x28\x00\x0c\x7f\x03\x4d\x31\x74\x5f".to_vec()),
        (2, 0.5, b"\xf0\x28\x00\x0c\x7f\x07\x4d\x32\x65\x6c".to_vec()),
        (1, 0.75, b"\xf0\x28\x00\x0c\x7f\x0b\x4d\x31\x32\x18".to_vec()),
        (2, 1.0, b"\xf0\x28\x00\x0c\x7f\x0f\x4d\x32\x23\x2b".to_vec()),
    ];
    let (mut sabercrc, tty) = sabercrc_harness();
    for (channel, value, expected) in vectors.iter() {
        sabercrc
            .set_speed(*channel, ratio(*value))
            .expect("Set value failure");
        assert_eq!(&tty.take_written()[..], &expected[..], "Wrong frame content");
    }
}

#[test]
fn set_speed_errs() {
    let (mut sabercrc, tty) = sabercrc_harness();
    sabercrc
        .set_speed(0, ratio(0.0))
        .expect_err("Channel <1 should fail");
    sabercrc
        .set_speed(3, ratio(0.0))
        .expect_err("Channel >2 should fail");
    sabercrc
        .set_speed(1, ratio(1.0001))
        .expect_err("Values >100.0 should fail");
    sabercrc
        .set_speed(1, ratio(-1.0001))
        .expect_err("Values <-100.0 should fail");

    // nothing should have been sent over serial
    assert_eq!(0, tty.take_written().len());
}

#[test]
fn set_drive() {
    let vectors = [
        (-0.5, b"\xf0\x28\x01\x20\x7f\x07\x4d\x44\x1b\x76".to_vec()),
        (1.0, b"\xf0\x28\x00\x0c\x7f\x0f\x4d\x44\x5d\x31".to_vec()),
    ];
    let (mut sabercrc, tty) = sabercrc_harness();
    for (value, expected) in vectors.iter() {
        sabercrc.set_drive(ratio(*value)).expect("Set value failure");
        assert_eq!(&tty.take_written()[..], &expected[..], "Wrong frame content");
    }
}

#[test]
fn set_turn() {
    let vectors = [
        (-1.0, b"\xF0\x28\x01\x20\x7f\x0f\x4d\x54\x03\x39".to_vec()),
        (0.25, b"\xF0\x28\x00\x0c\x7f\x03\x4d\x54\x26\x5d".to_vec()),
    ];
    let (mut sabercrc, tty) = sabercrc_harness();
    for (value, expected) in vectors.iter() {
        sabercrc.set_turn(ratio(*value)).expect("Set value failure");
        assert_eq!(&tty.take_written()[..], &expected[..], "Wrong frame content");
    }
}

#[test]
fn set_power() {
    let vectors = [(1, -1.0, b"\xf0\x28\x01\x20\x7f\x0f\x50\x31\x6e\x1a".to_vec())];
    let (mut sabercrc, tty) = sabercrc_harness();
    for (channel, value, expected) in vectors.iter() {
        sabercrc
            .set_power(*channel, ratio(*value))
            .expect("Set value failure");
        assert_eq!(&tty.take_written()[..], &expected[..], "Wrong frame content");
    }
}

#[test]
fn set_ramp() {
    let vectors = [(1, 0.25, b"\xf0\x28\x00\x0c\x7f\x03\x52\x31\x0a\x6e".to_vec())];
    let (mut sabercrc, tty) = sabercrc_harness();
    for (channel, value, expected) in vectors.iter() {
        sabercrc
            .set_ramp(*channel, ratio(*value))
            .expect("Set value failure");
        assert_eq!(&tty.take_written()[..], &expected[..], "Wrong frame content");
    }
}

#[test]
fn set_aux() {
    let vectors = [(2, 0.5, b"\xf0\x28\x00\x0c\x7f\x07\x51\x32\x0a\x00".to_vec())];
    let (mut sabercrc, tty) = sabercrc_harness();
    for (channel, value, expected) in vectors.iter() {
        sabercrc
            .set_aux(*channel, ratio(*value))
            .expect("Set value failure");
        assert_eq!(&tty.take_written()[..], &expected[..], "Wrong frame content");
    }
}

#[test]
fn get_speed() {
    let vectors = [
        (1, b"\xF0\x29\x00\x6D\x4D\x31\x06\x24".to_vec(), b"\xF0\x49\x00\x15\x00\x0C\x4D\x31\x43\x38".to_vec(), 0.750_366_4),
        (2, b"\xF0\x29\x00\x6D\x4D\x32\x74\x34".to_vec(), b"\xF0\x49\x01\x39\x6B\x05\x4D\x32\x4C\x58".to_vec(), -0.364_924_28),
    ];
    let (mut sabercrc, responder) = sabercrc_harness();
    for (channel, expected, response, value) in vectors.iter() {
        responder.set_response(response.as_ref());
        let ret = sabercrc.get_speed(*channel).expect("Get value failure");
        assert_eq_float(*value, float(ret));
        assert_eq!(&responder.take_written()[..], &expected[..]);
    }
}

#[test]
fn get_voltage() {
    let vectors = [
        (1, b"\xF0\x29\x10\x2E\x4D\x31\x06\x24".to_vec(), b"\xF0\x49\x10\x56\x78\x00\x4D\x31\x54\x0A".to_vec(), 12.0),
        (2, b"\xF0\x29\x10\x2E\x4D\x32\x74\x34".to_vec(), b"\xF0\x49\x10\x56\x78\x00\x4D\x32\x26\x1A".to_vec(), 12.0),
    ];
    let (mut sabercrc, responder) = sabercrc_harness();
    for (channel, expected, response, value) in vectors.iter() {
        responder.set_response(response.as_ref());
        let ret = sabercrc.get_voltage(*channel).expect("Get value failure");
        assert_eq_float(*value, float(ret));
        assert_eq!(&responder.take_written()[..], &expected[..]);
    }
}

#[test]
fn get_current() {
    let vectors = [
        (1, b"\xF0\x29\x20\x06\x4D\x31\x06\x24".to_vec(), b"\xF0\x49\x21\x52\x02\x00\x4D\x31\x3D\x2A".to_vec(), -2.0),
        (2, b"\xF0\x29\x20\x06\x4D\x32\x74\x34".to_vec(), b"\xF0\x49\x20\x7E\x12\x00\x4D\x32\x30\x3C".to_vec(), 18.0),
    ];
    let (mut sabercrc, responder) = sabercrc_harness();
    for (channel, expected, response, value) in vectors.iter() {
        responder.set_response(response.as_ref());
        let ret = sabercrc.get_current(*channel).expect("Get value failure");
        assert_eq_float(*value, float(ret));
        assert_eq!(&responder.take_written()[..], &expected[..]);
    }
}

#[test]
fn get_temperature() {
    let vectors = [
        (1, b"\xF0\x29\x40\x56\x4D\x31\x06\x24".to_vec(), b"\xF0\x49\x40\x2E\x1C\x00\x4D\x31\x01\x7A".to_vec(), 28.0),
        (2, b"\xF0\x29\x40\x56\x4D\x32\x74\x34".to_vec(), b"\xF0\x49\x40\x2E\x1D\x00\x4D\x32\x2E\x14".to_vec(), 29.0),
    ];
    let (mut sabercrc, responder) = sabercrc_harness();
    for (channel, expected, response, value) in vectors.iter() {
        responder.set_response(response.as_ref());
        let ret = sabercrc
            .get_temperature(*channel)
            .expect("Get value failure");
        assert_eq_float(*value, float(ret));
        assert_eq!(&responder.take_written()[..], &expected[..]);
    }
}
