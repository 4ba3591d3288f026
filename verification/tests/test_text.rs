use std::cell::RefCell;
use std::collections::VecDeque;
use std::rc::Rc;
use std::time::Duration;

use saberrs::sabertooth2x32::plaintext::{split_response, SplitResponse};
use saberrs::sabertooth2x32::{PlainText, Sabertooth2x32};
use saberrs::{Binary32, Error, SabertoothSerial};
use saberrs::sabertooth2x32::plaintext::read_value;
use saberrs::sabertooth2x32::plaintext::make_cmd_str;

/// A serial device that records what it is given and answers from a queue.
#[derive(Clone)]
struct Link {
    written: Rc<RefCell<Vec<u8>>>,
    incoming: Rc<RefCell<VecDeque<u8>>>,
}

impl Link {
    fn new() -> Link {
        Link {
            written: Rc::new(RefCell::new(Vec::new())),
            incoming: Rc::new(RefCell::new(VecDeque::new())),
        }
    }

    /// What was written since the last call.
    fn take_written(&self) -> Vec<u8> {
        self.written.borrow_mut().drain(..).collect()
    }

    fn set_response(&self, response: &[u8]) {
        let mut incoming = self.incoming.borrow_mut();
        incoming.clear();
        incoming.extend(response.iter().copied());
    }
}

impl SabertoothSerial for Link {
    fn set_timeout(&mut self, _timeout: Duration) -> Result<(), Error> {
        Ok(())
    }

    fn timeout(&self) -> Duration {
        Duration::from_millis(100)
    }

    fn set_baud_rate(&mut self, _baud_rate: u32) -> Result<(), Error> {
        Ok(())
    }

    fn baud_rate(&self) -> Result<u32, Error> {
        Ok(9600)
    }

    fn clear_all(&self) -> Result<(), Error> {
        Ok(())
    }

    fn write_all(&mut self, buf: &[u8]) -> Result<(), Error> {
        self.written.borrow_mut().extend_from_slice(buf);
        Ok(())
    }

    fn read_exact(&mut self, buf: &mut [u8]) -> Result<(), Error> {
        let mut incoming = self.incoming.borrow_mut();
        if incoming.len() < buf.len() {
            return Err(Error::Io(std::io::Error::new(
                std::io::ErrorKind::TimedOut,
                "timed out",
            )));
        }
        for byte in buf.iter_mut() {
            *byte = incoming.pop_front().unwrap();
        }
        Ok(())
    }

    fn read(&mut self, buf: &mut [u8]) -> Result<usize, Error> {
        let mut incoming = self.incoming.borrow_mut();
        let mut count = 0;
        while count < buf.len() {
            match incoming.pop_front() {
                Some(byte) => {
                    buf[count] = byte;
                    count += 1;
                }
                None => break,
            }
        }
        Ok(count)
    }
}

fn sabertext_harness() -> (PlainText<Link>, Link) {
    let link = Link::new();
    let saber = PlainText::from(&link);
    (saber, link)
}

fn ratio(x: f32) -> Binary32 {
    Binary32::from_bits(x.to_bits())
}

fn float(x: Binary32) -> f32 {
    f32::from_bits(x.to_bits())
}

/// Float equality that is good enough for the values of the device.
fn assert_eq_float(x: f32, y: f32) {
    if ((x - y) as f64).abs() > 0.001 {
        panic!("{} and {} are not (nearly) equal", x, y);
    }
}

#[test]
fn test_split_response() {
    assert_eq!(
        split_response(b"M1: B123\r\n\0\0").ok(),
        Some(SplitResponse('M', '1', Some('B'), 123))
    );
    assert_eq!(
        split_response(b"M2:T99\r\n\0\0").ok(),
        Some(SplitResponse('M', '2', Some('T'), 99))
    );
    assert_eq!(
        split_response(b"M1: C-34\r\n\0\0").ok(),
        Some(SplitResponse('M', '1', Some('C'), -34))
    );
    assert_eq!(
        split_response(b"\0P1: 213").ok(),
        Some(SplitResponse('P', '1', None, 213))
    );
    assert_eq!(
        split_response(b"S2: -52\r\n\0\0").ok(),
        Some(SplitResponse('S', '2', None, -52))
    );
}

#[test]
fn test_text_startup() {
    let (mut sabertext, tty) = sabertext_harness();

    sabertext.startup(1).expect("Startup failure");
    let written = tty.take_written();
    let expected = b"M1: startup\r\n";
    assert_eq!(expected.len(), written.len());
    assert_eq!(expected, &written[0..expected.len()]);

    sabertext.startup(0).expect_err("Channel 0 should fail");
}

#[test]
fn test_text_shutdown() {
    let (mut sabertext, tty) = sabertext_harness();

    sabertext.shutdown(2).expect("Startup failure");
    let written = tty.take_written();
    let expected = b"M2: shutdown\r\n";
    assert_eq!(expected.len(), written.len());
    assert_eq!(expected, &written[0..expected.len()]);
}

#[test]
fn test_text_set_speed() {
    let vectors = [
        (1, -1.0, b"M1: -2047\r\n".to_vec()),
        (2, -0.5, b"M2: -1023\r\n".to_vec()),
        (2, -0.2, b"M2: -409\r\n".to_vec()),
        (1, 0.0, b"M1: 0\r\n".to_vec()),
        (1, 0.25, b"M1: 511\r\n".to_vec()),
        (2, 0.5, b"M2: 1023\r\n".to_vec()),
        (1, 0.75, b"M1: 1535\r\n".to_vec()),
        (2, 1.0, b"M2: 2047\r\n".to_vec()),
    ];

    let (mut sabertext, tty) = sabertext_harness();
    for (channel, value, expected) in vectors.iter() {
        sabertext
            .set_speed(*channel, ratio(*value))
            .expect("Set value failure");
        assert_eq!(&tty.take_written()[..], &expected[..], "Wrong frame content");
    }
}

#[test]
fn test_text_set_speed_errs() {
    let (mut sabertext, tty) = sabertext_harness();
    sabertext
        .set_speed(0, ratio(0.0))
        .expect_err("Channel <1 should fail");
    sabertext
        .set_speed(3, ratio(0.0))
        .expect_err("Channel >2 should fail");
    sabertext
        .set_speed(1, ratio(1.0001))
        .expect_err("Values >1.000 should fail");
    sabertext
        .set_speed(1, ratio(-1.0001))
        .expect_err("Values <-1.000 should fail");

    // nothing should have been sent over serial
    assert_eq!(0, tty.take_written().len());
}

#[test]
fn test_text_set_drive() {
    let vectors = [
        (-0.5, b"MD: -1023\r\n".to_vec()),
        (1.000, b"MD: 2047\r\n".to_vec()),
    ];

    let (mut sabertext, tty) = sabertext_harness();
    for (value, expected) in vectors.iter() {
        sabertext.set_drive(ratio(*value)).expect("Set value failure");
        assert_eq!(&tty.take_written()[..], &expected[..], "Wrong frame content");
    }
}

#[test]
fn test_text_set_turn() {
    let vectors = [
        (-1.000, b"MT: -2047\r\n".to_vec()),
        (0.25, b"MT: 511\r\n".to_vec()),
    ];

    let (mut sabertext, tty) = sabertext_harness();
    for (value, expected) in vectors.iter() {
        sabertext.set_turn(ratio(*value)).expect("Set value failure");
        assert_eq!(&tty.take_written()[..], &expected[..], "Wrong frame content");
    }
}

#[test]
fn test_text_set_power() {
    let vectors = [
        (1, -1.000, b"P1: -2047\r\n".to_vec()),
        (2, -0.5, b"P2: -1023\r\n".to_vec()),
        (1, 0.0, b"P1: 0\r\n".to_vec()),
        (1, 0.25, b"P1: 511\r\n".to_vec()),
        (2, 0.5, b"P2: 1023\r\n".to_vec()),
        (1, 0.75, b"P1: 1535\r\n".to_vec()),
        (2, 1.000, b"P2: 2047\r\n".to_vec()),
    ];

    let (mut sabertext, tty) = sabertext_harness();
    for (channel, value, expected) in vectors.iter() {
        sabertext
            .set_power(*channel, ratio(*value))
            .expect("Set value failure");
        assert_eq!(&tty.take_written()[..], &expected[..], "Wrong frame content");
    }
}

#[test]
fn test_text_set_ramp() {
    let vectors = [
        (1, -1.000, b"R1: -2047\r\n".to_vec()),
        (2, -0.5, b"R2: -1023\r\n".to_vec()),
        (1, 0.0, b"R1: 0\r\n".to_vec()),
        (1, 0.25, b"R1: 511\r\n".to_vec()),
        (2, 0.5, b"R2: 1023\r\n".to_vec()),
        (1, 0.75, b"R1: 1535\r\n".to_vec()),
        (2, 1.000, b"R2: 2047\r\n".to_vec()),
    ];

    let (mut sabertext, tty) = sabertext_harness();
    for (channel, value, expected) in vectors.iter() {
        sabertext
            .set_ramp(*channel, ratio(*value))
            .expect("Set value failure");
        assert_eq!(&tty.take_written()[..], &expected[..], "Wrong frame content");
    }
}

#[test]
fn test_text_set_aux() {
    let vectors = [
        (1, -1.000, b"Q1: -2047\r\n".to_vec()),
        (2, -0.5, b"Q2: -1023\r\n".to_vec()),
        (1, 0.0, b"Q1: 0\r\n".to_vec()),
        (1, 0.25, b"Q1: 511\r\n".to_vec()),
        (2, 0.5, b"Q2: 1023\r\n".to_vec()),
        (1, 0.75, b"Q1: 1535\r\n".to_vec()),
        (2, 1.000, b"Q2: 2047\r\n".to_vec()),
    ];

    let (mut sabertext, tty) = sabertext_harness();
    for (channel, value, expected) in vectors.iter() {
        sabertext
            .set_aux(*channel, ratio(*value))
            .expect("Set value failure");
        assert_eq!(&tty.take_written()[..], &expected[..], "Wrong frame content");
    }
}

#[test]
fn test_text_get_speed() {
    let vectors = [
        (1, b"M1: get\r\n".to_vec(), b"M1: 1256\r\n".to_vec(), 0.61358),
        (2, b"M2: get\r\n".to_vec(), b"M2: -2047\r\n".to_vec(), -1.000),
    ];

    let (mut sabertext, responder) = sabertext_harness();
    for (channel, expected, response, value) in vectors.iter() {
        responder.set_response(response.as_ref());
        let ret = sabertext.get_speed(*channel).expect("Get value failure");
        assert_eq_float(*value, float(ret));
        assert_eq!(&responder.take_written()[..], &expected[..]);
    }
}

#[test]
fn get_power() {
    let vectors = [
        (1, b"P1: get\r\n".to_vec(), b"P1: -1000\r\n".to_vec(), -0.48852),
        (2, b"P2: get\r\n".to_vec(), b"P2: 2047\r\n".to_vec(), 1.000),
    ];

    let (mut sabertext, responder) = sabertext_harness();
    for (channel, expected, response, value) in vectors.iter() {
        responder.set_response(response.as_ref());
        let ret = sabertext.get_power(*channel).expect("Get value failure");
        assert_eq_float(*value, float(ret));
        assert_eq!(&responder.take_written()[..], &expected[..]);
    }
}

#[test]
fn test_text_get_voltage() {
    let vectors = [
        (1, b"M1: getb\r\n".to_vec(), b"M1: B125\r\n".to_vec(), 12.5),
        (2, b"M2: getb\r\n".to_vec(), b"M2:B240\r\n".to_vec(), 24.0),
    ];

    let (mut sabertext, responder) = sabertext_harness();
    for (channel, expected, response, value) in vectors.iter() {
        responder.set_response(response.as_ref());
        let ret = sabertext.get_voltage(*channel).expect("Get value failure");
        assert_eq_float(*value, float(ret));
        assert_eq!(&responder.take_written()[..], &expected[..]);
    }
}

#[test]
fn test_text_get_current() {
    let vectors = [
        (1, b"M1: getc\r\n".to_vec(), b"M1: C320\r\n".to_vec(), 32.0),
        (2, b"M2: getc\r\n".to_vec(), b"M2:C-20\r\n".to_vec(), -2.0),
    ];

    let (mut sabertext, responder) = sabertext_harness();
    for (channel, expected, response, value) in vectors.iter() {
        responder.set_response(response.as_ref());
        let ret = sabertext.get_current(*channel).expect("Get value failure");
        assert_eq_float(*value, float(ret));
        assert_eq!(&responder.take_written()[..], &expected[..]);
    }
}

#[test]
fn test_text_get_temperature() {
    let vectors = [
        (1, b"M1: gett\r\n".to_vec(), b"M1: T30\r\n".to_vec(), 30.0),
        (2, b"M2: gett\r\n".to_vec(), b"M2:T85\r\n".to_vec(), 85.0),
    ];

    let (mut sabertext, responder) = sabertext_harness();
    for (channel, expected, response, value) in vectors.iter() {
        responder.set_response(response.as_ref());
        let ret = sabertext.get_temperature(*channel).expect("Get value failure");
        assert_eq_float(*value, float(ret));
        assert_eq!(&responder.take_written()[..], &expected[..]);
    }
}

fn parse_failure(rxdata: &[u8]) -> bool {
    matches!(split_response(rxdata), Err(Error::Response(msg)) if msg == "Parse failure")
}

#[test]
fn bytes_that_are_no_text_are_not_readable() {
    for rxdata in [&b"M1: 5\xff"[..], &b"\x80"[..], &b"M1: \xc3"[..], &b"\xed\xa0\x80"[..]] {
        match split_response(rxdata) {
            Err(Error::Response(msg)) => assert_eq!(msg, "Invalid response, not readable"),
            _ => panic!("read"),
        }
    }
}

#[test]
fn text_beyond_ascii_is_read_as_text() {
    assert_eq!(
        split_response("\u{e9}\u{4e2d}: 5".as_bytes()).ok(),
        Some(SplitResponse('\u{e9}', '\u{4e2d}', None, 5))
    );
    assert_eq!(
        split_response("\u{a0}\u{3000} M1\u{2028}:\u{1f600} x-7\u{2003}\0".as_bytes()).ok(),
        Some(SplitResponse('M', '1', Some('x'), -7))
    );
}

#[test]
fn replies_without_the_shape_of_a_reply() {
    assert!(parse_failure(b""));
    assert!(parse_failure(b"\0\0\0"));
    assert!(parse_failure(b"M"));
    assert!(parse_failure(b"M1"));
    assert!(parse_failure(b"M1 5"));
    assert!(parse_failure(b"M1:"));
    assert!(parse_failure(b"M1: "));
    assert!(parse_failure(b"M1: B"));
    assert!(parse_failure(b"M1: -"));
    assert!(parse_failure(b"M1: --5"));
    assert!(parse_failure(b"M1: 5-3"));
    assert!(parse_failure(b"M1: BC5"));
    assert!(parse_failure(b"M1: 2147483648"));
    assert!(parse_failure(b"M1: -2147483649"));
    assert!(parse_failure(b"M1: 99999999999999999999999999"));
    assert!(parse_failure(b":1 5"));
}

#[test]
fn replies_at_the_edges_of_the_shape() {
    assert_eq!(
        split_response(b"M1: 2147483647").ok(),
        Some(SplitResponse('M', '1', None, i32::MAX))
    );
    assert_eq!(
        split_response(b"M1: -2147483648").ok(),
        Some(SplitResponse('M', '1', None, i32::MIN))
    );
    assert_eq!(
        split_response(b"M1: -0007 volts").ok(),
        Some(SplitResponse('M', '1', None, -7))
    );
    assert_eq!(
        split_response(b":1: 5").ok(),
        Some(SplitResponse(':', '1', None, 5))
    );
    assert_eq!(
        split_response(b"::: +#5x").ok(),
        Some(SplitResponse(':', ':', None, 5))
    );
    assert_eq!(
        split_response(b"  \t\0M2 and more:...z12;").ok(),
        Some(SplitResponse('\0', 'M', Some('z'), 12))
    );
}

#[test]
fn a_reply_to_another_request_is_invalid() {
    assert_eq!(read_value(b"M1: B125\r\n", 'M', '1', Some('B')).unwrap(), 125);
    for (token, channel, prefix) in [
        ('P', '1', Some('B')),
        ('M', '2', Some('B')),
        ('M', '1', Some('C')),
        ('M', '1', None),
    ] {
        match read_value(b"M1: B125\r\n", token, channel, prefix) {
            Err(Error::Response(msg)) => assert_eq!(msg, "Invalid response"),
            _ => panic!("read"),
        }
    }
    let (mut sabertext, responder) = sabertext_harness();
    responder.set_response(b"M2: 100\r\n");
    assert!(matches!(sabertext.get_speed(1), Err(Error::Response(_))));
    assert_eq!(responder.take_written(), b"M1: get\r\n".to_vec());
}

#[test]
fn a_reply_ends_at_the_end_of_line() {
    let (mut sabertext, responder) = sabertext_harness();
    responder.set_response(b"M1: 2047\r\nM1: 5\r\n");
    assert_eq_float(1.0, float(sabertext.get_speed(1).unwrap()));
    let long = [b' '; 40];
    responder.set_response(&long);
    assert!(matches!(sabertext.get_speed(1), Err(Error::Response(_))));
}

#[test]
fn command_lines() {
    assert_eq!(make_cmd_str("M", "1", "startup"), "M1: startup\r\n");
    assert_eq!(make_cmd_str("Q", "2", "-2047"), "Q2: -2047\r\n");
}

#[test]
fn numbers_of_replies_match_hardware() {
    let (mut sabertext, responder) = sabertext_harness();
    for value in [
        0,
        1,
        -1,
        23,
        125,
        -20,
        320,
        16383,
        16777215,
        16777217,
        33554435,
        -16777219,
        123456789,
        i32::MAX,
        i32::MIN,
    ] {
        let plain = format!("M1: {}\r\n", value);
        responder.set_response(plain.as_bytes());
        let ratio = sabertext.get_speed(1).unwrap();
        assert_eq!(ratio.to_bits(), (value as f32 / 2047.0f32).to_bits(), "{}", value);
        let volts = format!("M1: B{}\r\n", value);
        responder.set_response(volts.as_bytes());
        let ret = sabertext.get_voltage(1).unwrap();
        assert_eq!(ret.to_bits(), (value as f32 * 0.1f32).to_bits(), "{}", value);
        let amps = format!("M2: C{}\r\n", value);
        responder.set_response(amps.as_bytes());
        let ret = sabertext.get_current(2).unwrap();
        assert_eq!(ret.to_bits(), (value as f32 * 0.1f32).to_bits(), "{}", value);
        let degrees = format!("M2: T{}\r\n", value);
        responder.set_response(degrees.as_bytes());
        let ret = sabertext.get_temperature(2).unwrap();
        assert_eq!(ret.to_bits(), (value as f32).to_bits(), "{}", value);
    }
}

#[test]
fn test_from_serialport() {
    let saber = Link::new();
    let _ = PlainText::from(saber);
}

#[test]
fn stop_motors_sets_both_speeds_to_zero_in_text() {
    let (mut sabertext, tty) = sabertext_harness();
    sabertext.stop_motors().unwrap();
    assert_eq!(tty.take_written(), b"M1: 0\r\nM2: 0\r\n".to_vec());
}
