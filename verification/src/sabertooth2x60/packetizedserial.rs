//! The "Packetized Serial" protocol of the Sabertooth 2x60: four-byte
//! commands under an additive checksum, and two-byte replies.

use std::time::Duration;
use vstd::prelude::*;
use vstd::string::StringExecFns;
use crate::binary32::{
    above, aligned, assemble, at_least_zero, below_zero, difference_of, divided, exponent_field,
    fraction_field, in_unit_range, is_finite, is_nan, is_negative, lemma_round24,
    lemma_round24_whole, lemma_two_to_adds, lemma_two_to_increases, multiplied, negation,
    product_truncated, quotient_of, round24, significand, truncated, two_to, unit_exponent,
    Binary32,
};
use crate::error::Error;
use crate::port::{continues, exchange, Call, Recorded, SabertoothSerial};
use crate::sabertooth2x60::{Baudrate, ErrorConditions, Sabertooth2x60};
use crate::utils::{clamped, decimal, decimal_string, ratio_fault, ratio_on_scale, ratio_to_value_range};

verus! {

/// Lowest address of a Sabertooth 2x60.
pub const ADDRESS_MIN: u8 = 128;

/// Highest address of a Sabertooth 2x60.
pub const ADDRESS_MAX: u8 = 135;

pub const COMMAND_DRIVE_FORWARD_MOTOR_1: u8 = 0;

pub const COMMAND_DRIVE_BACKWARDS_MOTOR_1: u8 = 1;

pub const COMMAND_MIN_VOLTAGE: u8 = 2;

pub const COMMAND_MAX_VOLTAGE: u8 = 3;

pub const COMMAND_DRIVE_FORWARD_MOTOR_2: u8 = 4;

pub const COMMAND_DRIVE_BACKWARDS_MOTOR_2: u8 = 5;

pub const COMMAND_DRIVE_MOTOR_1: u8 = 6;

pub const COMMAND_DRIVE_MOTOR_2: u8 = 7;

pub const COMMAND_DRIVE_FORWARD_MIXED: u8 = 8;

pub const COMMAND_DRIVE_BACKWARDS_MIXED: u8 = 9;

pub const COMMAND_TURN_RIGHT_MIXED: u8 = 10;

pub const COMMAND_TURN_LEFT_MIXED: u8 = 11;

pub const COMMAND_DRIVE_FORWARDS_BACK: u8 = 12;

pub const COMMAND_TURN_7_BIT: u8 = 13;

pub const COMMAND_SERIAL_TIMEOUT: u8 = 14;

pub const COMMAND_BAUDRATE: u8 = 15;

pub const COMMAND_RAMPING: u8 = 16;

pub const COMMAND_DEADBAND: u8 = 17;

pub const COMMAND_REQ_ERRORS: u8 = 0;

pub const COMMAND_REQ_THERMISTOR_1: u8 = 1;

pub const COMMAND_REQ_THERMISTOR_2: u8 = 2;

pub const COMMAND_REQ_BAT_VOLT: u8 = 3;

pub const COMMAND_REQ_DUTY_CYCLE_1: u8 = 4;

pub const COMMAND_REQ_DUTY_CYCLE_2: u8 = 5;

/// Length of a reply.
pub const PACKET_MAX_REPLY_SIZE: usize = 2;

/// The command number of a request, and the byte that follows it.
pub const COMMAND_REQUEST: u8 = 127;

/// Six, the lowest minimum voltage, as single precision has it.
pub const MIN_VOLTAGE_BASE: u32 = 0x40c0_0000;

/// Five, the steps of the minimum voltage in a volt, as single precision
/// has it.
pub const MIN_VOLTAGE_SCALE: u32 = 0x40a0_0000;

/// Twenty-five, as single precision has it.
pub const MAX_VOLTAGE_LIMIT: u32 = 0x41c8_0000;

/// The steps of the maximum voltage in a volt, 5.12, as single precision
/// has it.
pub const MAX_VOLTAGE_SCALE: u32 = 0x40a3_d70a;

/// The volts in a step of the battery voltage, 50 over 255, as single
/// precision has it.
pub const VOLTS_PER_STEP: u32 = 0x3e48_c8c9;

/// Whether `address` is one that a Sabertooth 2x60 can have.
pub open spec fn address_valid(address: u8) -> bool {
    ADDRESS_MIN <= address <= ADDRESS_MAX
}

/// Whether `address` is one that a Sabertooth 2x60 can have.
pub fn address_is_valid(address: u8) -> (b: bool)
    ensures
        b == address_valid(address),
{
    address >= ADDRESS_MIN && address <= ADDRESS_MAX
}

/// The checksum of a command: the sum of its three bytes, modulo 128.
pub open spec fn checksum_of(address: u8, command: u8, data: u8) -> u8 {
    ((address + command + data) % 128) as u8
}

/// Computes the checksum of a command.
pub fn checksum(address: u8, command: u8, data: u8) -> (sum: u8)
    ensures
        sum == checksum_of(address, command, data),
{
    ((address as u32 + command as u32 + data as u32) % 128) as u8
}

/// The four bytes of a command.
pub open spec fn packet(address: u8, command: u8, data: u8) -> Seq<u8> {
    seq![address, command, data, checksum_of(address, command, data)]
}

/// The six bytes of a request.
pub open spec fn req_packet(address: u8, command_req: u8) -> Seq<u8> {
    seq![
        address,
        COMMAND_REQUEST,
        2,
        0,
        command_req,
        ((address + COMMAND_REQUEST + 2 + 0 + command_req) % 128) as u8,
    ]
}

/// The description carried by the error for a motor that does not exist.
pub open spec fn motor_fault(motor: usize) -> Seq<char> {
    "invalid motor value "@ + decimal(motor as nat) + "; should be 1 or 2"@
}

/// The description carried by the error for an address out of range.
pub open spec fn address_fault(address: u8) -> Seq<char> {
    "Invalid address "@ + decimal(address as nat) + ", must be greater than 128"@
}

/// The description carried by the error for a reply to another request.
pub open spec fn reply_fault(command_req: u8) -> Seq<char> {
    "Wrong command value "@ + decimal(command_req as nat) + " in reply"@
}

/// The description carried by the error for a timeout that is too long.
pub open spec fn timeout_fault(millis: nat) -> Seq<char> {
    "Timeout "@ + decimal(millis) + "ms out of range"@
}

/// The refusal of a motor that does not exist.
pub fn err_motor<R>(motor: usize) -> (r: Result<R, Error>)
    ensures
        r matches Err(Error::InvalidInput(msg)) && msg@ == motor_fault(motor),
{
    let msg = "invalid motor value ".to_owned().concat(
        decimal_string(motor as u128).as_str(),
    ).concat("; should be 1 or 2");
    Err(Error::InvalidInput(msg))
}

/// The data byte of a ratio between 0 and 1: the single-precision product
/// of the ratio and 127, its fraction dropped. A negative ratio down to -1
/// gives zero.
pub open spec fn ratio_data(ratio: u32) -> u8 {
    ratio_on_scale(ratio, 0, 127) as u8
}

/// Maps a ratio onto the data bytes 0 to 127. A ratio beyond one in
/// magnitude, an infinity or a NaN is refused.
pub fn ratio_to_0_127(ratio: Binary32) -> (r: Result<u8, Error>)
    ensures
        in_unit_range(ratio@) ==> r == Ok::<u8, Error>(ratio_data(ratio@)),
        !in_unit_range(ratio@) ==> (r matches Err(Error::InvalidInput(msg)) && msg@
            == ratio_fault()),
        r matches Ok(data) ==> data <= 127,
{
    match ratio_to_value_range(ratio, 0, 127) {
        Ok(value) => Ok(value as u8),
        Err(e) => Err(e),
    }
}

/// The data byte of a serial timeout of `millis` milliseconds: the number
/// of tenths of a second, rounded up, as far as it fits in a byte.
pub open spec fn timeout_data(millis: nat) -> nat {
    ((millis + 99) / 100) % 256
}

/// Computes the data byte of a serial timeout: its tenths of a second,
/// rounded up and cut to a byte. A byte above 127 is refused.
pub fn serial_timeout_data(millis: u128) -> (r: Result<u8, Error>)
    ensures
        timeout_data(millis as nat) <= 127 ==> r == Ok::<u8, Error>(
            timeout_data(millis as nat) as u8,
        ),
        timeout_data(millis as nat) > 127 ==> (r matches Err(Error::InvalidInput(msg)) && msg@
            == timeout_fault(millis as nat)),
{
    let tenths: u128 = millis / 100 + if millis % 100 != 0 {
        1
    } else {
        0
    };
    let data: u8 = (tenths % 256) as u8;
    if data > 127 {
        let msg = "Timeout ".to_owned().concat(decimal_string(millis).as_str()).concat(
            "ms out of range",
        );
        return Err(Error::InvalidInput(msg));
    }
    Ok(data)
}

/// Shortest ramp time, in nanoseconds: 25.6 milliseconds.
pub const RAMP_FAST_MIN: u128 = 25_600_000;

/// Longest ramp time of the fast ramps, in nanoseconds: 256 milliseconds.
pub const RAMP_FAST_MAX: u128 = 256_000_000;

/// Longest ramp time, in nanoseconds: 16.787 seconds.
pub const RAMP_SLOW_MAX: u128 = 16_787_000_000;

/// The integer nearest to `num / den`; a half is rounded up.
pub open spec fn nearest(num: nat, den: nat) -> nat {
    (2 * num + den) / (2 * den)
}

/// The data byte of a ramp time of `nanos` nanoseconds, as the manual
/// relates the two. A fast ramp, of `t` seconds up to 0.256, is
/// `256 / (1000 t)`, rounded; a slower one is `10 + 256 / (15.25 t)`,
/// rounded.
pub open spec fn ramp_steps(nanos: nat) -> nat {
    if nanos <= RAMP_FAST_MAX {
        nearest(256_000_000, nanos)
    } else {
        10 + nearest(1_024_000_000_000, 61 * nanos)
    }
}

/// The description carried by the error for a ramp time out of range.
pub open spec fn ramp_fault(nanos: nat) -> Seq<char> {
    "ramp time "@ + decimal(nanos) + "ns out of range"@
}

/// Computes the data byte of a ramp time. A time below 25.6 milliseconds or
/// above 16.787 seconds is refused; the others give 1 to 10 where the ramp
/// is fast and 11 to 76 where it is slower.
pub fn ramp_data(nanos: u128) -> (r: Result<u8, Error>)
    ensures
        RAMP_FAST_MIN <= nanos <= RAMP_SLOW_MAX ==> r == Ok::<u8, Error>(
            ramp_steps(nanos as nat) as u8,
        ) && 1 <= ramp_steps(nanos as nat) <= 76,
        RAMP_FAST_MIN <= nanos <= RAMP_FAST_MAX ==> ramp_steps(nanos as nat) <= 10,
        RAMP_FAST_MAX < nanos <= RAMP_SLOW_MAX ==> ramp_steps(nanos as nat) >= 11,
        !(RAMP_FAST_MIN <= nanos <= RAMP_SLOW_MAX) ==> (r matches Err(Error::InvalidInput(msg))
            && msg@ == ramp_fault(nanos as nat)),
{
    if nanos < RAMP_FAST_MIN || nanos > RAMP_SLOW_MAX {
        let msg = "ramp time ".to_owned().concat(decimal_string(nanos).as_str()).concat(
            "ns out of range",
        );
        return Err(Error::InvalidInput(msg));
    }
    let data: u128 = if nanos <= RAMP_FAST_MAX {
        (2 * 256_000_000 + nanos) / (2 * nanos)
    } else {
        10 + (2 * 1_024_000_000_000 + 61 * nanos) / (2 * (61 * nanos))
    };
    assert(1 <= data <= 76 && (nanos <= RAMP_FAST_MAX ==> data <= 10) && (nanos > RAMP_FAST_MAX
        ==> data >= 11)) by (nonlinear_arith)
        requires
            25_600_000 <= nanos <= 16_787_000_000,
            data == if nanos <= 256_000_000 {
                (2 * 256_000_000 + nanos) / (2 * nanos)
            } else {
                10 + (2 * 1_024_000_000_000 + 61 * nanos) / (2 * (61 * nanos))
            },
    ;
    Ok(data as u8)
}

/// The data byte that selects a baudrate.
pub open spec fn baudrate_data(baudrate: Baudrate) -> u8 {
    match baudrate {
        Baudrate::B2400 => 1,
        Baudrate::B9600 => 2,
        Baudrate::B19200 => 3,
        Baudrate::B38400 => 4,
        Baudrate::B115200 => 5,
    }
}

/// What a reply to the request `command_req` says: the value it carries,
/// where it has the length of a reply and echoes the request.
pub open spec fn reply_reading(resp: Seq<u8>, command_req: u8) -> Option<u8> {
    if resp.len() == PACKET_MAX_REPLY_SIZE && resp[0] == command_req {
        Some(resp[1])
    } else {
        None
    }
}

/// Reads a reply to the request `command_req`: its first byte must echo the
/// request, its second is the value.
pub fn read_reply(resp: &[u8], command_req: u8) -> (r: Result<u8, Error>)
    ensures
        match reply_reading(resp@, command_req) {
            Some(value) => r == Ok::<u8, Error>(value),
            None => r matches Err(Error::Response(msg)) && msg@ == reply_fault(command_req),
        },
{
    if resp.len() != PACKET_MAX_REPLY_SIZE || resp[0] != command_req {
        let msg = "Wrong command value ".to_owned().concat(
            decimal_string(command_req as u128).as_str(),
        ).concat(" in reply");
        return Err(Error::Response(msg));
    }
    Ok(resp[1])
}

/// The length of a span of time, in nanoseconds: what `Duration::as_nanos`
/// returns for it.
pub uninterp spec fn nanos_of(span: Duration) -> nat;

/// The length of a span of time in whole milliseconds.
pub open spec fn millis_of(span: Duration) -> nat {
    nanos_of(span) / 1_000_000
}

/// `Duration::as_millis`: the whole milliseconds in `timeout`, which are
/// its nanoseconds over a million, the fraction dropped.
#[verifier::external_body]
fn duration_millis(timeout: &Duration) -> (m: u128)
    ensures
        m == nanos_of(*timeout) / 1_000_000,
{
    timeout.as_millis()
}

/// `Duration::as_nanos`: the nanoseconds in `ramp`.
#[verifier::external_body]
fn duration_nanos(ramp: &Duration) -> (n: u128)
    ensures
        n == nanos_of(*ramp),
{
    ramp.as_nanos()
}

/// Interface for Sabertooth 2x60 using the "Packetized Serial" protocol.
pub struct PacketizedSerial<T: SabertoothSerial> {
    dev: Recorded<T>,
    address: u8,
}

impl<T: SabertoothSerial> PacketizedSerial<T> {
    /// The serial device that carries the packets.
    pub closed spec fn dev(&self) -> T {
        self.dev.dev()
    }

    /// What this interface has asked of its device so far, oldest first.
    pub closed spec fn calls(&self) -> Seq<Call> {
        self.dev.calls()
    }

    /// The address of the Sabertooth that is spoken to.
    pub closed spec fn address(&self) -> u8 {
        self.address
    }

    /// The bytes that this interface has handed to its device in writes
    /// that the device accepted, oldest first. (A write that the device
    /// fails is not counted: nothing is known of how much of it went out.)
    pub closed spec fn sent(&self) -> Seq<u8> {
        self.dev.sent()
    }

    /// Whether `r` refuses a call for the given reason, with nothing done:
    /// `after` is this interface as it was, its device untouched and
    /// nothing handed to it.
    pub open spec fn refuses<R>(&self, after: &Self, r: Result<R, Error>, fault: Seq<char>) -> bool {
        &&& r matches Err(Error::InvalidInput(msg)) && msg@ == fault
        &&& *after == *self
    }

    /// What sending a command promises. The address stays. One thing is
    /// asked of the device: to write the packet of `command` and `data`.
    /// Where the call succeeds, the device has accepted the packet; where
    /// it fails, it has not.
    pub open spec fn sends(&self, after: &Self, r: Result<(), Error>, command: u8, data: u8) -> bool {
        &&& after.address() == self.address()
        &&& after.calls() == self.calls().push(
            Call::Write(packet(self.address(), command, data)),
        )
        &&& r is Ok ==> after.sent() == self.sent() + packet(self.address(), command, data)
        &&& r is Err ==> after.sent() == self.sent()
    }

    /// What an exchange of a request and its reply promises. The address
    /// stays. The device is asked, in this order, to discard what it has
    /// received, to write the request for `command_req`, and to wait for
    /// the two bytes of a reply; the first of these calls that fails is the
    /// last. Where the call succeeds, the device has accepted the request,
    /// and the value returned is `value_of` applied to what some reply
    /// that echoes the request carries. Whatever happens, nothing but that
    /// request is handed over.
    pub open spec fn requests<R>(
        &self,
        after: &Self,
        r: Result<R, Error>,
        command_req: u8,
        value_of: spec_fn(u8) -> R,
    ) -> bool {
        &&& after.address() == self.address()
        &&& continues(
            self.calls(),
            after.calls(),
            exchange(req_packet(self.address(), command_req), PACKET_MAX_REPLY_SIZE),
            r is Ok,
        )
        &&& r is Ok ==> after.sent() == self.sent() + req_packet(self.address(), command_req)
        &&& r is Err ==> after.sent() == self.sent() || after.sent() == self.sent() + req_packet(
            self.address(),
            command_req,
        )
        &&& r matches Ok(value) ==> exists|resp: Seq<u8>, read: u8|
            reply_reading(resp, command_req) == Some(read) && value == value_of(read)
    }

    /// Create a new `PacketizedSerial` from a serial device handle. The
    /// address must be one that a Sabertooth 2x60 can have, 128 to 135.
    pub fn from_serial(dev: T, address: u8) -> (r: Result<Self, Error>)
        ensures
            address_valid(address) ==> r is Ok && r->Ok_0.dev() == dev && r->Ok_0.address()
                == address && r->Ok_0.calls() == Seq::<Call>::empty() && r->Ok_0.sent()
                == Seq::<u8>::empty(),
            !address_valid(address) ==> (r matches Err(Error::InvalidInput(msg)) && msg@
                == address_fault(address)),
    {
        if address_is_valid(address) {
            let saber = PacketizedSerial { dev: Recorded::new(dev), address };
            Ok(saber)
        } else {
            let msg = "Invalid address ".to_owned().concat(
                decimal_string(address as u128).as_str(),
            ).concat(", must be greater than 128");
            Err(Error::InvalidInput(msg))
        }
    }

    /// Hands one packet to the device.
    fn write_frame(&mut self, txdata: &[u8]) -> (r: Result<(), Error>)
        ensures
            final(self).address() == old(self).address(),
            final(self).calls() == old(self).calls().push(Call::Write(txdata@)),
            r is Ok ==> final(self).sent() == old(self).sent() + txdata@,
            r is Err ==> final(self).sent() == old(self).sent(),
    {
        self.dev.write_all(txdata)
    }

    /// The packet of a command for this address.
    pub fn make_packet(&self, command: u8, data: u8) -> (buf: [u8; 4])
        ensures
            buf@ == packet(self.address(), command, data),
    {
        let chk = checksum(self.address, command, data);
        let buf: [u8; 4] = [self.address, command, data, chk];
        assert(buf@ =~= packet(self.address(), command, data));
        buf
    }

    /// The packet of a request for this address.
    pub fn make_req_packet(&self, command_req: u8) -> (buf: [u8; 6])
        ensures
            buf@ == req_packet(self.address(), command_req),
    {
        let chk = ((self.address as u32 + 127 + 2 + 0 + command_req as u32) % 128) as u8;
        let buf: [u8; 6] = [self.address, COMMAND_REQUEST, 2, 0, command_req, chk];
        assert(buf@ =~= req_packet(self.address(), command_req));
        buf
    }

    /// Sends the packet of a command.
    pub fn send_packet(&mut self, command: u8, data: u8) -> (r: Result<(), Error>)
        ensures
            old(self).sends(final(self), r, command, data),
    {
        let packet = self.make_packet(command, data);
        self.write_frame(&packet)
    }

    /// Asks for a value and reads the reply: stale received bytes are
    /// discarded, the one request is handed to the device, two bytes are
    /// awaited and read with [`read_reply`].
    pub fn get_value(&mut self, command_req: u8) -> (r: Result<u8, Error>)
        ensures
            old(self).requests(final(self), r, command_req, |read: u8| read),
    {
        let req = self.make_req_packet(command_req);
        let ghost before = self.calls();
        let ghost planned = exchange(req@, PACKET_MAX_REPLY_SIZE);
        match self.dev.clear_all() {
            Ok(_) => {},
            Err(e) => {
                assert(self.calls() =~= before + planned.take(1));
                return Err(e);
            },
        }
        match self.write_frame(&req) {
            Ok(_) => {},
            Err(e) => {
                assert(self.calls() =~= before + planned.take(2));
                return Err(e);
            },
        }
        let mut buf = [0u8; 2];
        let read = self.dev.read_exact(&mut buf);
        assert(self.calls() =~= before + planned.take(3));
        match read {
            Ok(_) => {},
            Err(e) => {
                return Err(e);
            },
        }
        let r = read_reply(&buf, command_req);
        proof {
            if let Ok(value) = r {
                assert(reply_reading(buf@, command_req) == Some(value));
            }
        }
        r
    }

    /// Asks for a value, as [`get_value`](Self::get_value) does, and brings
    /// it to single precision, times `factor` where there is one.
    fn get_number(&mut self, command_req: u8, factor: Option<u32>) -> (r: Result<Binary32, Error>)
        requires
            factor matches Some(f) ==> 32 <= crate::binary32::exponent_field(f) <= 192,
        ensures
            old(self).requests(
                final(self),
                r,
                command_req,
                |read: u8|
                    match factor {
                        Some(f) => multiplied(read as int, f),
                        None => divided(read as int, 1),
                    },
            ),
    {
        match self.get_value(command_req) {
            Ok(value) => {
                let x = match factor {
                    Some(f) => Binary32::scaled(value as i32, &Binary32::from_bits(f)),
                    None => Binary32::quotient(value as i32, 1),
                };
                proof {
                    let (resp, read) = choose|resp: Seq<u8>, read: u8|
                        reply_reading(resp, command_req) == Some(read) && value == read;
                    x.lemma_of_bits();
                    assert(reply_reading(resp, command_req) == Some(read) && x == match factor {
                        Some(f) => multiplied(read as int, f),
                        None => divided(read as int, 1),
                    });
                }
                Ok(x)
            },
            Err(e) => Err(e),
        }
    }
}

/// The description carried by the error for a ratio that is no number.
pub open spec fn nan_fault() -> Seq<char> {
    "Invalid ratio, not a number"@
}

/// The description carried by the error for a voltage that is no finite
/// number.
pub open spec fn voltage_not_finite_fault() -> Seq<char> {
    "max voltage not a finite value"@
}

/// The description carried by the error for a voltage out of range.
pub open spec fn voltage_range_fault() -> Seq<char> {
    "max voltage out of range, must within 0-25 volts"@
}

/// The description carried by the error for a negative deadband.
pub open spec fn deadband_fault() -> Seq<char> {
    "the deadband ratio must be positive"@
}

/// The data byte of a maximum voltage between 0 and 25 volts: the
/// single-precision product of the volts and 5.12, its fraction dropped.
pub open spec fn max_voltage_data(volts: u32) -> u8 {
    clamped(product_truncated(volts, MAX_VOLTAGE_SCALE), 0, 255) as u8
}

impl<T: SabertoothSerial> PacketizedSerial<T> {
    /// What sending a signed ratio promises, where one command takes the
    /// ratios at or above zero and another the magnitudes of those below. A
    /// NaN is refused for being no number, a ratio beyond one in magnitude
    /// for being out of range.
    pub open spec fn sends_signed(
        &self,
        after: &Self,
        r: Result<(), Error>,
        forward: u8,
        backwards: u8,
        ratio: u32,
    ) -> bool {
        if at_least_zero(ratio) {
            if in_unit_range(ratio) {
                self.sends(after, r, forward, ratio_data(ratio))
            } else {
                self.refuses(after, r, ratio_fault())
            }
        } else if below_zero(ratio) {
            if in_unit_range(negation(ratio)) {
                self.sends(after, r, backwards, ratio_data(negation(ratio)))
            } else {
                self.refuses(after, r, ratio_fault())
            }
        } else {
            self.refuses(after, r, nan_fault())
        }
    }

    /// Sends a signed ratio under one of two commands: `forward` for a
    /// ratio at or above zero, `backwards` for the magnitude of one below.
    /// A NaN is neither: it is refused for being no number.
    fn send_signed(&mut self, forward: u8, backwards: u8, ratio: Binary32) -> (r: Result<
        (),
        Error,
    >)
        ensures
            old(self).sends_signed(final(self), r, forward, backwards, ratio@),
    {
        let (command, data) = if ratio.is_at_least_zero() {
            match ratio_to_0_127(ratio) {
                Ok(data) => (forward, data),
                Err(e) => {
                    return Err(e);
                },
            }
        } else if ratio.is_below_zero() {
            match ratio_to_0_127(ratio.negated()) {
                Ok(data) => (backwards, data),
                Err(e) => {
                    return Err(e);
                },
            }
        } else {
            return Err(Error::InvalidInput("Invalid ratio, not a number".to_owned()));
        };
        self.send_packet(command, data)
    }
}

/// The description carried by the error for a minimum voltage that is no
/// finite number.
pub open spec fn min_voltage_not_finite_fault() -> Seq<char> {
    "min voltage not a finite value"@
}

/// The description carried by the error for a minimum voltage out of range.
pub open spec fn min_voltage_range_fault() -> Seq<char> {
    "min voltage out of range, must within 6-30 volts"@
}

/// The steps of a minimum voltage: the volts above six, times five, as
/// single precision computes them, the fraction dropped.
pub open spec fn min_voltage_steps(volts: u32) -> int {
    product_truncated(difference_of(volts, MIN_VOLTAGE_BASE), MIN_VOLTAGE_SCALE)
}

/// Five times a number of magnitude two or more has an integer part of
/// eight or more; five times thirty-two or more, of 128 or more.
proof fn lemma_five_times(negative: bool, sig: nat, exp: int)
    requires
        0x80_0000 <= sig <= 0x100_0000,
        -22 <= exp <= 104,
    ensures
        negative ==> product_truncated(assemble(negative, sig, exp), MIN_VOLTAGE_SCALE) <= -8,
        !negative && exp >= -18 ==> product_truncated(
            assemble(negative, sig, exp),
            MIN_VOLTAGE_SCALE,
        ) >= 128,
{
    let bits = assemble(negative, sig, exp);
    let five: u32 = MIN_VOLTAGE_SCALE;
    let sign: int = if negative {
        0x8000_0000
    } else {
        0
    };
    assert(exponent_field(five) == 129);
    assert(fraction_field(five) == 0x20_0000);
    assert(significand(five) == 0xa0_0000);
    assert(unit_exponent(five) == -21);
    assert(!is_negative(five));
    if sig == 0x100_0000 {
        assert(bits == sign + (exp + 151) * 0x80_0000);
        assert(exponent_field(bits) == exp + 151);
        assert(fraction_field(bits) == 0);
    } else {
        assert(bits == sign + (exp + 150) * 0x80_0000 + (sig - 0x80_0000));
        assert(exponent_field(bits) == exp + 150);
        assert(fraction_field(bits) == sig - 0x80_0000);
    }
    assert(is_negative(bits) == negative);
    assert(!is_nan(bits));
    if is_finite(bits) {
        let m = significand(bits);
        let x = unit_exponent(bits);
        assert(0x80_0000 <= m < 0x100_0000);
        assert(x >= exp);
        let p = m * 0xa0_0000;
        assert(0x4000_0000_0000 <= p < 0x1_0000_0000_0000) by (nonlinear_arith)
            requires
                p == m * 0xa0_0000,
                0x80_0000 <= m < 0x100_0000,
        ;
        reveal_with_fuel(two_to, 49);
        assert(two_to(7) == 0x80);
        assert(two_to(16) == 0x1_0000);
        assert(two_to(20) == 0x10_0000);
        assert(two_to(46) == 0x4000_0000_0000);
        assert(two_to(48) == 0x1_0000_0000_0000);
        lemma_round24_whole(p, 46, 48);
        lemma_round24(p, 1);
        let r = round24(p, 1);
        let t = r.1 + x - 21;
        let size = truncated(r.0, t);
        if t >= 0 {
            lemma_two_to_increases(0, t as nat);
            assert(size >= 0x80_0000) by (nonlinear_arith)
                requires
                    size == r.0 * two_to(t as nat),
                    r.0 >= 0x80_0000,
                    two_to(t as nat) >= 1,
            ;
        } else {
            let k = (-t) as nat;
            lemma_two_to_increases(k, 20);
            lemma_two_to_increases(0, k);
            assert(size >= 8) by (nonlinear_arith)
                requires
                    size == r.0 / two_to(k),
                    r.0 >= 0x80_0000,
                    1 <= two_to(k) <= 0x10_0000,
            ;
            if exp >= -18 {
                lemma_two_to_increases(k, 16);
                assert(size >= 128) by (nonlinear_arith)
                    requires
                        size == r.0 / two_to(k),
                        r.0 >= 0x80_0000,
                        1 <= two_to(k) <= 0x1_0000,
                ;
            }
        }
    }
}

/// A voltage that is negative, below four or at least sixty-four has steps
/// below zero or above 120: it is out of range whatever the rounding.
proof fn lemma_far_from_six(volts: u32)
    requires
        is_finite(volts),
        is_negative(volts) || exponent_field(volts) < 129 || exponent_field(volts) > 132,
    ensures
        min_voltage_steps(volts) < 0 || min_voltage_steps(volts) > 120,
{
    let six: u32 = MIN_VOLTAGE_BASE;
    assert(exponent_field(six) == 129);
    assert(fraction_field(six) == 0x40_0000);
    assert(significand(six) == 0xc0_0000);
    assert(unit_exponent(six) == -21);
    assert(!is_negative(six));
    let m = significand(volts);
    let ea = unit_exponent(volts);
    let exp = if ea < -21 {
        ea
    } else {
        -21
    };
    let ja = (ea - exp) as nat;
    let jb = (-21 - exp) as nat;
    let ta = two_to(ja);
    let tb = two_to(jb);
    let na = m * ta;
    let nb = 0xc0_0000 * tb;
    lemma_two_to_increases(0, ja);
    lemma_two_to_increases(0, jb);
    reveal_with_fuel(two_to, 25);
    assert(two_to(0) == 1);
    assert(two_to(1) == 2);
    assert(two_to(3) == 8);
    assert(two_to(4) == 16);
    assert(two_to(22) == 0x40_0000);
    assert(two_to(23) == 0x80_0000);
    assert(two_to(24) == 0x100_0000);
    assert(aligned(six, exp) == nb);
    if is_negative(volts) {
        // at most minus six
        let size = na + nb;
        assert(aligned(volts, exp) == -(na as int));
        lemma_two_to_adds(23, jb);
        assert(size >= two_to(23 + jb)) by (nonlinear_arith)
            requires
                size == na + nb,
                nb == 0xc0_0000 * tb,
                two_to(23 + jb) == 0x80_0000 * tb,
                na >= 0,
                tb >= 1,
        ;
        let high: nat = if ea >= 3 {
            (ea + 45) as nat
        } else {
            25 + ja + jb
        };
        if ea >= 3 {
            // six is less than a unit of the voltage
            assert(jb == 0 && ja == ea + 21);
            lemma_two_to_adds(24, ja);
            lemma_two_to_increases(24, ja);
            assert(size < two_to(24 + ja)) by (nonlinear_arith)
                requires
                    size == m * ta + 0xc0_0000 * tb,
                    tb == 1,
                    m <= 0xff_ffff,
                    ta >= 0x100_0000,
                    two_to(24 + ja) == 0x100_0000 * ta,
            ;
        } else {
            lemma_two_to_adds(ja, jb);
            lemma_two_to_adds(25, ja + jb);
            let both = two_to(ja + jb);
            assert(size < 0x200_0000 * both) by (nonlinear_arith)
                requires
                    size == m * ta + 0xc0_0000 * tb,
                    m < 0x100_0000,
                    both == ta * tb,
                    ta >= 1,
                    tb >= 1,
            ;
            assert(two_to(25) == 0x200_0000);
        }
        lemma_round24_whole(size, 23 + jb, high);
        lemma_round24(size, 1);
        let r = round24(size, 1);
        lemma_five_times(true, r.0, r.1 + exp);
    } else if exponent_field(volts) < 129 {
        // below four: at most minus two
        assert(aligned(volts, exp) == na);
        assert(exp == ea && ja == 0 && jb >= 1);
        assert(m < 0x100_0000);
        lemma_two_to_increases(1, jb);
        let size = (nb - na) as nat;
        lemma_two_to_adds(22, jb);
        lemma_two_to_adds(24, jb);
        assert(two_to(22 + jb) <= nb - na < two_to(24 + jb)) by (nonlinear_arith)
            requires
                na == m * 1,
                m < 0x100_0000,
                nb == 0xc0_0000 * tb,
                tb >= 2,
                two_to(22 + jb) == 0x40_0000 * tb,
                two_to(24 + jb) == 0x100_0000 * tb,
        ;
        lemma_round24_whole(size, 22 + jb, 24 + jb);
        lemma_round24(size, 1);
        let r = round24(size, 1);
        lemma_five_times(true, r.0, r.1 + exp);
    } else {
        // at least sixty-four: at least fifty-eight above six
        assert(aligned(volts, exp) == na);
        assert(exp == -21 && jb == 0 && ja >= 4);
        assert(m >= 0x80_0000);
        lemma_two_to_increases(4, ja);
        let size = (na - nb) as nat;
        lemma_two_to_adds(24, ja);
        assert(two_to(26) <= na - nb < two_to(24 + ja)) by (nonlinear_arith)
            requires
                na == m * ta,
                0x80_0000 <= m < 0x100_0000,
                ta >= 16,
                nb == 0xc0_0000 * 1,
                two_to(26) == 0x400_0000,
                two_to(24 + ja) == 0x100_0000 * ta,
        ;
        lemma_round24_whole(size, 26, 24 + ja);
        lemma_round24(size, 1);
        let r = round24(size, 1);
        lemma_five_times(false, r.0, r.1 + exp);
    }
}

impl<T: SabertoothSerial> Sabertooth2x60 for PacketizedSerial<T> {
    fn set_min_voltage(&mut self, volts: Binary32) -> (r: Result<(), Error>)
        ensures
            !is_finite(volts@) ==> old(self).refuses(
                final(self),
                r,
                min_voltage_not_finite_fault(),
            ),
            is_finite(volts@) && !(0 <= min_voltage_steps(volts@) <= 120) ==> old(self).refuses(
                final(self),
                r,
                min_voltage_range_fault(),
            ),
            is_finite(volts@) && 0 <= min_voltage_steps(volts@) <= 120 ==> old(self).sends(
                final(self),
                r,
                COMMAND_MIN_VOLTAGE,
                min_voltage_steps(volts@) as u8,
            ),
    {
        if !volts.is_finite() {
            return Err(Error::InvalidInput("min voltage not a finite value".to_owned()));
        }
        let field = (volts.to_bits() / 0x80_0000) % 256;
        if volts.is_sign_negative() || field < 129 || field > 132 {
            proof {
                lemma_far_from_six(volts@);
            }
            return Err(
                Error::InvalidInput("min voltage out of range, must within 6-30 volts".to_owned()),
            );
        }
        let base = Binary32::from_bits(MIN_VOLTAGE_BASE);
        assert(exponent_field(MIN_VOLTAGE_BASE) == 129);
        let data = volts.minus(&base).mul_to_i32(&Binary32::from_bits(MIN_VOLTAGE_SCALE));
        if data < 0 || data > 120 {
            return Err(
                Error::InvalidInput("min voltage out of range, must within 6-30 volts".to_owned()),
            );
        }
        self.send_packet(COMMAND_MIN_VOLTAGE, data as u8)
    }

    fn set_drive_motor(&mut self, motor: usize, ratio: Binary32) -> (r: Result<(), Error>)
        ensures
            motor == 1 ==> old(self).sends_signed(
                final(self),
                r,
                COMMAND_DRIVE_FORWARD_MOTOR_1,
                COMMAND_DRIVE_BACKWARDS_MOTOR_1,
                ratio@,
            ),
            motor == 2 ==> old(self).sends_signed(
                final(self),
                r,
                COMMAND_DRIVE_FORWARD_MOTOR_2,
                COMMAND_DRIVE_BACKWARDS_MOTOR_2,
                ratio@,
            ),
            motor != 1 && motor != 2 ==> old(self).refuses(final(self), r, motor_fault(motor)),
    {
        if motor == 1 {
            self.send_signed(
                COMMAND_DRIVE_FORWARD_MOTOR_1,
                COMMAND_DRIVE_BACKWARDS_MOTOR_1,
                ratio,
            )
        } else if motor == 2 {
            self.send_signed(
                COMMAND_DRIVE_FORWARD_MOTOR_2,
                COMMAND_DRIVE_BACKWARDS_MOTOR_2,
                ratio,
            )
        } else {
            err_motor(motor)
        }
    }

    fn set_max_voltage(&mut self, volts: Binary32) -> (r: Result<(), Error>)
        ensures
            !is_finite(volts@) ==> old(self).refuses(final(self), r, voltage_not_finite_fault()),
            is_finite(volts@) && (below_zero(volts@) || above(volts@, MAX_VOLTAGE_LIMIT)) ==> old(
                self,
            ).refuses(final(self), r, voltage_range_fault()),
            is_finite(volts@) && !below_zero(volts@) && !above(volts@, MAX_VOLTAGE_LIMIT) ==> old(
                self,
            ).sends(final(self), r, COMMAND_MAX_VOLTAGE, max_voltage_data(volts@)),
    {
        if !volts.is_finite() {
            return Err(Error::InvalidInput("max voltage not a finite value".to_owned()));
        }
        if volts.is_below_zero() || volts.is_above(&Binary32::from_bits(MAX_VOLTAGE_LIMIT)) {
            return Err(
                Error::InvalidInput("max voltage out of range, must within 0-25 volts".to_owned()),
            );
        }
        let steps = volts.mul_to_i32(&Binary32::from_bits(MAX_VOLTAGE_SCALE));
        let data: u8 = if steps > 255 {
            255
        } else if steps < 0 {
            0
        } else {
            steps as u8
        };
        self.send_packet(COMMAND_MAX_VOLTAGE, data)
    }

    fn set_drive_mixed(&mut self, ratio: Binary32) -> (r: Result<(), Error>)
        ensures
            old(self).sends_signed(
                final(self),
                r,
                COMMAND_DRIVE_FORWARD_MIXED,
                COMMAND_DRIVE_BACKWARDS_MIXED,
                ratio@,
            ),
    {
        self.send_signed(COMMAND_DRIVE_FORWARD_MIXED, COMMAND_DRIVE_BACKWARDS_MIXED, ratio)
    }

    fn set_turn_mixed(&mut self, ratio: Binary32) -> (r: Result<(), Error>)
        ensures
            old(self).sends_signed(
                final(self),
                r,
                COMMAND_TURN_RIGHT_MIXED,
                COMMAND_TURN_LEFT_MIXED,
                ratio@,
            ),
    {
        self.send_signed(COMMAND_TURN_RIGHT_MIXED, COMMAND_TURN_LEFT_MIXED, ratio)
    }

    fn set_serial_timeout(&mut self, timeout: Duration) -> (r: Result<(), Error>)
        ensures
            timeout_data(millis_of(timeout)) <= 127 ==> old(self).sends(
                final(self),
                r,
                COMMAND_SERIAL_TIMEOUT,
                timeout_data(millis_of(timeout)) as u8,
            ),
            timeout_data(millis_of(timeout)) > 127 ==> old(self).refuses(
                final(self),
                r,
                timeout_fault(millis_of(timeout)),
            ),
    {
        let millis = duration_millis(&timeout);
        match serial_timeout_data(millis) {
            Ok(data) => self.send_packet(COMMAND_SERIAL_TIMEOUT, data),
            Err(e) => Err(e),
        }
    }

    fn set_baudrate(&mut self, baudrate: Baudrate) -> (r: Result<(), Error>)
        ensures
            old(self).sends(final(self), r, COMMAND_BAUDRATE, baudrate_data(baudrate)),
    {
        let data = match baudrate {
            Baudrate::B2400 => 1,
            Baudrate::B9600 => 2,
            Baudrate::B19200 => 3,
            Baudrate::B38400 => 4,
            Baudrate::B115200 => 5,
        };
        self.send_packet(COMMAND_BAUDRATE, data)
    }

    fn set_ramp(&mut self, ramp: Duration) -> (r: Result<(), Error>)
        ensures
            RAMP_FAST_MIN <= nanos_of(ramp) <= RAMP_SLOW_MAX ==> old(self).sends(
                final(self),
                r,
                COMMAND_RAMPING,
                ramp_steps(nanos_of(ramp)) as u8,
            ),
            !(RAMP_FAST_MIN <= nanos_of(ramp) <= RAMP_SLOW_MAX) ==> old(self).refuses(
                final(self),
                r,
                ramp_fault(nanos_of(ramp)),
            ),
    {
        let nanos = duration_nanos(&ramp);
        match ramp_data(nanos) {
            Ok(data) => self.send_packet(COMMAND_RAMPING, data),
            Err(e) => Err(e),
        }
    }

    fn set_deadband(&mut self, ratio: Binary32) -> (r: Result<(), Error>)
        ensures
            below_zero(ratio@) ==> old(self).refuses(final(self), r, deadband_fault()),
            !below_zero(ratio@) && !in_unit_range(ratio@) ==> old(self).refuses(
                final(self),
                r,
                ratio_fault(),
            ),
            !below_zero(ratio@) && in_unit_range(ratio@) ==> old(self).sends(
                final(self),
                r,
                COMMAND_DEADBAND,
                ratio_data(ratio@),
            ),
    {
        if ratio.is_below_zero() {
            return Err(Error::InvalidInput("the deadband ratio must be positive".to_owned()));
        }
        match ratio_to_0_127(ratio) {
            Ok(data) => self.send_packet(COMMAND_DEADBAND, data),
            Err(e) => Err(e),
        }
    }

    fn get_errors(&mut self) -> (r: Result<ErrorConditions, Error>)
        ensures
            old(self).requests(
                final(self),
                r,
                COMMAND_REQ_ERRORS,
                |read: u8| ErrorConditions(read),
            ),
    {
        match self.get_value(COMMAND_REQ_ERRORS) {
            Ok(value) => {
                let x = ErrorConditions(value);
                proof {
                    let (resp, read) = choose|resp: Seq<u8>, read: u8|
                        reply_reading(resp, COMMAND_REQ_ERRORS) == Some(read) && value == read;
                    assert(reply_reading(resp, COMMAND_REQ_ERRORS) == Some(read) && x
                        == ErrorConditions(read));
                }
                Ok(x)
            },
            Err(e) => Err(e),
        }
    }

    fn get_thermistor(&mut self, motor: usize) -> (r: Result<u8, Error>)
        ensures
            motor == 1 ==> old(self).requests(
                final(self),
                r,
                COMMAND_REQ_THERMISTOR_1,
                |read: u8| read,
            ),
            motor == 2 ==> old(self).requests(
                final(self),
                r,
                COMMAND_REQ_THERMISTOR_2,
                |read: u8| read,
            ),
            motor != 1 && motor != 2 ==> old(self).refuses(final(self), r, motor_fault(motor)),
    {
        if motor == 1 {
            self.get_value(COMMAND_REQ_THERMISTOR_1)
        } else if motor == 2 {
            self.get_value(COMMAND_REQ_THERMISTOR_2)
        } else {
            err_motor(motor)
        }
    }

    fn get_voltage(&mut self) -> (r: Result<Binary32, Error>)
        ensures
            old(self).requests(
                final(self),
                r,
                COMMAND_REQ_BAT_VOLT,
                |read: u8| multiplied(read as int, VOLTS_PER_STEP),
            ),
    {
        self.get_number(COMMAND_REQ_BAT_VOLT, Some(VOLTS_PER_STEP))
    }

    fn get_duty_cycle(&mut self, motor: usize) -> (r: Result<Binary32, Error>)
        ensures
            motor == 1 ==> old(self).requests(
                final(self),
                r,
                COMMAND_REQ_DUTY_CYCLE_1,
                |read: u8| divided(read as int, 1),
            ),
            motor == 2 ==> old(self).requests(
                final(self),
                r,
                COMMAND_REQ_DUTY_CYCLE_2,
                |read: u8| divided(read as int, 1),
            ),
            motor != 1 && motor != 2 ==> old(self).refuses(final(self), r, motor_fault(motor)),
    {
        if motor == 1 {
            self.get_number(COMMAND_REQ_DUTY_CYCLE_1, None)
        } else if motor == 2 {
            self.get_number(COMMAND_REQ_DUTY_CYCLE_2, None)
        } else {
            err_motor(motor)
        }
    }
}

/// The volts in a step of the battery voltage are what single-precision
/// division gives for 50 over 255.
pub proof fn lemma_volts_per_step()
    ensures
        quotient_of(50, 255) == VOLTS_PER_STEP,
{
    reveal_with_fuel(round24, 30);
    assert(round24(50, 1) == (0xc8_0000nat, -18int));
    assert(round24(0xc8_0000, 255) == (0xc8_c8c9nat, -8int));
}

} // verus!
