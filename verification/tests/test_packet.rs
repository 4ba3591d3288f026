use std::cell::RefCell;
use std::collections::VecDeque;
use std::rc::Rc;
use std::time::Duration;

use saberrs::sabertooth2x32::{PacketSerial, PacketType, Sabertooth2x32};
use saberrs::{Binary32, Error, SabertoothSerial};

/// A serial device that records what it is given and answers from a queue.
#[derive(Clone)]
struct Link {
    written: Rc<RefCell<Vec<u8>>>,
    incoming: Rc<RefCell<VecDeque<u8>>>,
}

impl Link {
    fn new() -> Link {
        Link {
            written: Rc::new(RefCell::new(Vec::new())),
            incoming: Rc::new(RefCell::new(VecDeque::new())),
        }
    }

    /// What was written since the last call.
    fn take_written(&self) -> Vec<u8> {
        self.written.borrow_mut().drain(..).collect()
    }

    fn set_response(&self, response: &[u8]) {
        let mut incoming = self.incoming.borrow_mut();
        incoming.clear();
        incoming.extend(response.iter().copied());
    }
}

impl SabertoothSerial for Link {
    fn set_timeout(&mut self, _timeout: Duration) -> Result<(), Error> {
        Ok(())
    }

    fn timeout(&self) -> Duration {
        Duration::from_millis(100)
    }

    fn set_baud_rate(&mut self, _baud_rate: u32) -> Result<(), Error> {
        Ok(())
    }

    fn baud_rate(&self) -> Result<u32, Error> {
        Ok(9600)
    }

    fn clear_all(&self) -> Result<(), Error> {
        Ok(())
    }

    fn write_all(&mut self, buf: &[u8]) -> Result<(), Error> {
        self.written.borrow_mut().extend_from_slice(buf);
        Ok(())
    }

    fn read_exact(&mut self, buf: &mut [u8]) -> Result<(), Error> {
        let mut incoming = self.incoming.borrow_mut();
        if incoming.len() < buf.len() {
            return Err(Error::Io(std::io::Error::new(
                std::io::ErrorKind::TimedOut,
                "timed out",
            )));
        }
        for byte in buf.iter_mut() {
            *byte = incoming.pop_front().unwrap();
        }
        Ok(())
    }

    fn read(&mut self, buf: &mut [u8]) -> Result<usize, Error> {
        let mut incoming = self.incoming.borrow_mut();
        let mut count = 0;
        while count < buf.len() {
            match incoming.pop_front() {
                Some(byte) => {
                    buf[count] = byte;
                    count += 1;
                }
                None => break,
            }
        }
        Ok(count)
    }
}

fn saberchecksum_harness() -> (PacketSerial<Link>, Link) {
    let link = Link::new();
    let saber = PacketSerial::from(&link).with_packet_type(PacketType::Checksum);
    (saber, link)
}

fn ratio(x: f32) -> Binary32 {
    Binary32::from_bits(x.to_bits())
}

fn float(x: Binary32) -> f32 {
    f32::from_bits(x.to_bits())
}

/// Float equality that is good enough for the values of the device.
fn assert_eq_float(x: f32, y: f32) {
    if ((x - y) as f64).abs() > 0.001 {
        panic!("{} and {} are not (nearly) equal", x, y);
    }
}

#[test]
fn test_packet_startup() {
    let (mut saberchecksum, tty) = saberchecksum_harness();

    saberchecksum.startup(1).expect("Startup failure");
    let written = tty.take_written();
    let expected = b"\x80\x28\x20\x48\x00\x00\x4d\x31\x7e";
    assert_eq!(expected.len(), written.len(), "Wrong length");
    assert_eq!(expected, &written[..], "Wrong data");

    saberchecksum.startup(2).expect("Startup failure");
    let written = tty.take_written();
    let expected = b"\x80\x28\x20\x48\x00\x00\x4d\x32\x7f";
    assert_eq!(expected.len(), written.len(), "Wrong length");
    assert_eq!(expected, &written[..], "Wrong data");

    saberchecksum.startup(0).expect_err("Channel 0 should fail");
    saberchecksum.startup(3).expect_err("Channel 3 should fail");
}

#[test]
fn test_packet_shutdown() {
    let (mut saberchecksum, tty) = saberchecksum_harness();

    saberchecksum.shutdown(1).expect("Startup failure");
    let written = tty.take_written();
    let expected = b"\x80\x28\x20\x48\x01\x00\x4d\x31\x7f";
    assert_eq!(expected.len(), written.len(), "Wrong length");
    assert_eq!(expected, &written[..], "Wrong data");

    saberchecksum.shutdown(2).expect("Startup failure");
    let written = tty.take_written();
    let expected = b"\x80\x28\x20\x48\x01\x00\x4d\x32\x00";
    assert_eq!(expected.len(), written.len(), "Wrong length");
    assert_eq!(expected, &written[..], "Wrong data");

    saberchecksum.shutdown(0).expect_err("Channel 0 should fail");
    saberchecksum.shutdown(3).expect_err("Channel 3 should fail");
}

#[test]
fn test_packet_set_speed() {
    let vectors = [
        (1, -1.0, b"\x80\x28\x01\x29\x7f\x0f\x4d\x31\x0c".to_vec()),
        (2, -0.5, b"\x80\x28\x01\x29\x7f\x07\x4d\x32\x05".to_vec()),
        (1, 0.0, b"\x80\x28\x00\x28\x00\x00\x4d\x31\x7e".to_vec()),
        (1, 0.25, b"\x80\x28\x00\x28\x7f\x03\x4d\x31\x00".to_vec()),
        (2, 0.5, b"\x80\x28\x00\x28\x7f\x07\x4d\x32\x05".to_vec()),
        (1, 0.75, b"\x80\x28\x00\x28\x7f\x0b\x4d\x31\x08".to_vec()),
        (2, 1.0, b"\x80\x28\x00\x28\x7f\x0f\x4d\x32\x0d".to_vec()),
    ];
    let (mut saberchecksum, tty) = saberchecksum_harness();
    for (channel, value, expected) in vectors.iter() {
        saberchecksum
            .set_speed(*channel, ratio(*value))
            .expect("Set value failure");
        assert_eq!(&tty.take_written()[..], &expected[..], "Wrong frame content");
    }
}

#[test]
fn test_packet_set_speed_errs() {
    let (mut saberchecksum, tty) = saberchecksum_harness();
    saberchecksum
        .set_speed(0, ratio(0.0))
        .expect_err("Channel <1 should fail");
    saberchecksum
        .set_speed(3, ratio(0.0))
        .expect_err("Channel >2 should fail");
    saberchecksum
        .set_speed(1, ratio(1.01))
        .expect_err("Values >100.0 should fail");
    saberchecksum
        .set_speed(1, ratio(-1.01))
        .expect_err("Values <-100.0 should fail");

    // nothing should have been sent over serial
    assert_eq!(0, tty.take_written().len());
}

#[test]
fn test_packet_set_drive() {
    let vectors = [
        (-0.5, b"\x80\x28\x01\x29\x7f\x07\x4d\x44\x17".to_vec()),
        (1.0, b"\x80\x28\x00\x28\x7f\x0f\x4d\x44\x1f".to_vec()),
    ];
    let (mut saberchecksum, tty) = saberchecksum_harness();
    for (value, expected) in vectors.iter() {
        saberchecksum
            .set_drive(ratio(*value))
            .expect("Set value failure");
        assert_eq!(&tty.take_written()[..], &expected[..], "Wrong frame content");
    }
}

#[test]
fn test_packet_set_turn() {
    let vectors = [
        (-1.0, b"\x80\x28\x01\x29\x7f\x0f\x4d\x54\x2f".to_vec()),
        (0.25, b"\x80\x28\x00\x28\x7f\x03\x4d\x54\x23".to_vec()),
    ];
    let (mut saberchecksum, tty) = saberchecksum_harness();
    for (value, expected) in vectors.iter() {
        saberchecksum
            .set_turn(ratio(*value))
            .expect("Set value failure");
        assert_eq!(&tty.take_written()[..], &expected[..], "Wrong frame content");
    }
}

#[test]
fn test_packet_set_power() {
    let vectors = [(1, -1.0, b"\x80\x28\x01\x29\x7f\x0f\x50\x31\x0f".to_vec())];
    let (mut saberchecksum, tty) = saberchecksum_harness();
    for (channel, value, expected) in vectors.iter() {
        saberchecksum
            .set_power(*channel, ratio(*value))
            .expect("Set value failure");
        assert_eq!(&tty.take_written()[..], &expected[..], "Wrong frame content");
    }
}

#[test]
fn test_packet_set_ramp() {
    let vectors = [(1, 0.25, b"\x80\x28\x00\x28\x7f\x03\x52\x31\x05".to_vec())];
    let (mut saberchecksum, tty) = saberchecksum_harness();
    for (channel, value, expected) in vectors.iter() {
        saberchecksum
            .set_ramp(*channel, ratio(*value))
            .expect("Set value failure");
        assert_eq!(&tty.take_written()[..], &expected[..], "Wrong frame content");
    }
}

#[test]
fn test_packet_set_aux() {
    let vectors = [(2, 0.5, b"\x80\x28\x00\x28\x7f\x07\x51\x32\x09".to_vec())];
    let (mut saberchecksum, tty) = saberchecksum_harness();
    for (channel, value, expected) in vectors.iter() {
        saberchecksum
            .set_aux(*channel, ratio(*value))
            .expect("Set value failure");
        assert_eq!(&tty.take_written()[..], &expected[..], "Wrong frame content");
    }
}

#[test]
fn test_packet_get_speed() {
    let vectors = [
        (1, b"\x80\x29\x00\x29\x4D\x31\x7E".to_vec(), b"\x80\x49\x00\x49\x7F\x03\x4D\x31\x00".to_vec(), 0.24963),
        (2, b"\x80\x29\x00\x29\x4D\x32\x7F".to_vec(), b"\x80\x49\x01\x4A\x2E\x08\x4D\x32\x35".to_vec(), -0.522_716),
    ];
    let (mut saberchecksum, responder) = saberchecksum_harness();
    for (channel, expected, response, value) in vectors.iter() {
        responder.set_response(response.as_ref());
        let ret = saberchecksum.get_speed(*channel).expect("Get value failure");
        assert_eq_float(*value, float(ret));
        assert_eq!(&responder.take_written()[..], &expected[..]);
    }
}

#[test]
fn test_packet_get_voltage() {
    let vectors = [
        (1, b"\x80\x29\x10\x39\x4D\x31\x7E".to_vec(), b"\x80\x49\x10\x59\x78\x00\x4D\x31\x76".to_vec(), 12.0),
        (2, b"\x80\x29\x10\x39\x4D\x32\x7F".to_vec(), b"\x80\x49\x10\x59\x78\x00\x4D\x32\x77".to_vec(), 12.0),
    ];
    let (mut saberchecksum, responder) = saberchecksum_harness();
    for (channel, expected, response, value) in vectors.iter() {
        responder.set_response(response.as_ref());
        let ret = saberchecksum.get_voltage(*channel).expect("Get value failure");
        assert_eq_float(*value, float(ret));
        assert_eq!(&responder.take_written()[..], &expected[..]);
    }
}

#[test]
fn test_packet_get_current() {
    let vectors = [
        (1, b"\x80\x29\x20\x49\x4D\x31\x7E".to_vec(), b"\x80\x49\x20\x69\x0B\x00\x4D\x31\x09".to_vec(), 11.0),
        (2, b"\x80\x29\x20\x49\x4D\x32\x7F".to_vec(), b"\x80\x49\x20\x69\x03\x00\x4D\x32\x02".to_vec(), 3.0),
    ];
    let (mut saberchecksum, responder) = saberchecksum_harness();
    for (channel, expected, response, value) in vectors.iter() {
        responder.set_response(response.as_ref());
        let ret = saberchecksum.get_current(*channel).expect("Get value failure");
        assert_eq_float(*value, float(ret));
        assert_eq!(&responder.take_written()[..], &expected[..]);
    }
}

#[test]
fn test_packet_get_temperature() {
    let vectors = [
        (1, b"\x80\x29\x40\x69\x4D\x31\x7E".to_vec(), b"\x80\x49\x40\x09\x1C\x00\x4D\x31\x1A".to_vec(), 28.0),
        (2, b"\x80\x29\x40\x69\x4D\x32\x7F".to_vec(), b"\x80\x49\x40\x09\x1D\x00\x4D\x32\x1C".to_vec(), 29.0),
    ];
    let (mut saberchecksum, responder) = saberchecksum_harness();
    for (channel, expected, response, value) in vectors.iter() {
        responder.set_response(response.as_ref());
        let ret = saberchecksum
            .get_temperature(*channel)
            .expect("Get value failure");
        assert_eq_float(*value, float(ret));
        assert_eq!(&responder.take_written()[..], &expected[..]);
    }
}
