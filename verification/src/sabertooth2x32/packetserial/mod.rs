//! The "Packet Serial" protocol: framed commands and replies, protected by a
//! checksum or by CRCs.

use vstd::prelude::*;
use crate::binary32::{divided, in_unit_range, Binary32};
use crate::error::Error;
use crate::port::{continues, exchange, Call, Recorded, SabertoothSerial};
use crate::sabertooth2x32::Sabertooth2x32;
use crate::utils::{
    channel_byte, channel_digit, channel_exists, channel_fault, ratio_fault, ratio_on_scale,
    ratio_to_value, RANGE_MAX, RANGE_MIN,
};

pub mod checksum;
pub mod crc;

verus! {

/// Default address for packet communication.
pub const DEFAULT_ADDRESS: u8 = 128;

/// Default frame protection of a new [`PacketSerial`].
pub const DEFAULT_PACKET_TYPE: PacketType = PacketType::CRC;

/// Command number of a frame that sets a value.
pub const CMD_NUM_SET: u8 = 40;

/// Command number of a frame that asks for a value.
pub const CMD_NUM_GET: u8 = 41;

/// Command number of the device's answer.
pub const CMD_NUM_REPLY: u8 = 73;

/// First byte of the targets that name a motor: `'M'`.
pub const TARGET_MOTOR: u8 = 0x4d;

/// First byte of the targets that name a power output: `'P'`.
pub const TARGET_POWER: u8 = 0x50;

/// First byte of the targets that name a ramping: `'R'`.
pub const TARGET_RAMP: u8 = 0x52;

/// First byte of the targets that name an auxiliary output: `'Q'`.
pub const TARGET_AUX: u8 = 0x51;

/// Second byte of the target of the mixed-mode drive: `'D'`.
pub const TARGET_DRIVE: u8 = 0x44;

/// Second byte of the target of the mixed-mode turn: `'T'`.
pub const TARGET_TURN: u8 = 0x54;

/// Type of frame protection for [`PacketSerial`].
#[derive(Clone, Copy, PartialEq, Eq, Structural, Debug)]
pub enum PacketType {
    /// Additive checksum: one byte shorter per frame, good for most
    /// applications.
    Checksum,
    /// CRC-7 on the header and CRC-14 on the payload: for safety-critical
    /// applications with noisier wiring.
    CRC,
}

/// Why a reply frame was not accepted as a frame.
#[derive(Clone, Copy, PartialEq, Eq, Structural, Debug)]
pub enum ParseError {
    /// The frame does not have the length of a reply.
    PacketSize,
    /// A checksum or CRC in the frame does not match its bytes.
    ChecksumError,
    /// The frame is intact but comes from another address.
    AddressError,
}

/// What a "set" frame acts on.
#[derive(Clone, Copy, PartialEq, Eq, Structural, Debug)]
pub enum CommandSet {
    Value,
    KeepAlive,
    /// Also used for startup (the name follows the manual).
    Shutdown,
    Timeout,
}

/// What a "get" frame asks for.
#[derive(Clone, Copy, PartialEq, Eq, Structural, Debug)]
pub enum CommandGet {
    Value,
    Battery,
    Current,
    Temperature,
}

impl CommandSet {
    /// The command value transmitted for a non-negative datum; a negative
    /// datum is sent under this code plus one.
    pub open spec fn spec_code(self) -> u8 {
        match self {
            CommandSet::Value => 0,
            CommandSet::KeepAlive => 16,
            CommandSet::Shutdown => 32,
            CommandSet::Timeout => 64,
        }
    }

    #[verifier::when_used_as_spec(spec_code)]
    pub fn code(self) -> (c: u8)
        ensures
            c == self.spec_code(),
    {
        match self {
            CommandSet::Value => 0,
            CommandSet::KeepAlive => 16,
            CommandSet::Shutdown => 32,
            CommandSet::Timeout => 64,
        }
    }
}

impl CommandGet {
    /// The command value transmitted in a request; the reply echoes it, or
    /// echoes it plus one when the datum is negative.
    pub open spec fn spec_code(self) -> u8 {
        match self {
            CommandGet::Value => 0,
            CommandGet::Battery => 16,
            CommandGet::Current => 32,
            CommandGet::Temperature => 64,
        }
    }

    #[verifier::when_used_as_spec(spec_code)]
    pub fn code(self) -> (c: u8)
        ensures
            c == self.spec_code(),
    {
        match self {
            CommandGet::Value => 0,
            CommandGet::Battery => 16,
            CommandGet::Current => 32,
            CommandGet::Temperature => 64,
        }
    }
}

/// The magnitude of a datum, as transmitted: its absolute value.
pub open spec fn magnitude(data_value: int) -> nat {
    if data_value < 0 {
        (-data_value) as nat
    } else {
        data_value as nat
    }
}

/// Low data byte of a frame: the seven low bits of the magnitude.
pub open spec fn packed_low(m: nat) -> u8 {
    (m % 128) as u8
}

/// High data byte of a frame: the next seven bits of the magnitude.
pub open spec fn packed_high(m: nat) -> u8 {
    ((m / 128) % 128) as u8
}

/// The 14-bit value held by two data bytes, the top bit of each ignored.
pub open spec fn unpacked(low: u8, high: u8) -> nat {
    (low % 128 + (high % 128) * 128) as nat
}

/// The command value of a "set" frame: the command's code, plus one when the
/// datum is negative.
pub open spec fn signed_code(code: u8, data_value: int) -> int {
    if data_value < 0 {
        code + 1
    } else {
        code as int
    }
}

/// Splits a 14-bit magnitude into two 7-bit bytes, low byte first. Bits
/// above the fourteenth are dropped.
pub fn pack_data_value(value: u16) -> (buf: [u8; 2])
    ensures
        buf[0] == packed_low(value as nat),
        buf[1] == packed_high(value as nat),
{
    let low: u8 = (value & 127) as u8;
    let high: u8 = ((value >> 7) & 127) as u8;
    assert(value & 127 == value % 128) by (bit_vector);
    assert((value >> 7) & 127 == (value / 128) % 128) by (bit_vector);
    [low, high]
}

/// Reads a 14-bit magnitude from the first two bytes of `buf`, low byte
/// first; the top bit of each byte is ignored.
pub fn unpack_data_value(buf: &[u8]) -> (value: u16)
    requires
        buf@.len() >= 2,
    ensures
        value == unpacked(buf@[0], buf@[1]),
        value < 16384,
{
    let low: u8 = buf[0] & 127;
    let high: u8 = buf[1] & 127;
    let b0: u8 = buf[0];
    let b1: u8 = buf[1];
    assert(b0 & 127 == b0 % 128) by (bit_vector);
    assert(b1 & 127 == b1 % 128) by (bit_vector);
    let wide: u16 = high as u16;
    assert(wide << 7 == wide * 128) by (bit_vector)
        requires
            wide < 128,
    ;
    low as u16 + (wide << 7)
}

/// Sign-and-magnitude encoding of a datum: the command value to transmit
/// (the command's code, or that plus one for a negative datum) and the two
/// data bytes that hold the magnitude. Only the fourteen low bits of the
/// magnitude are sent.
pub fn encode_datum(command_value: CommandSet, data_value: i32) -> (out: (u8, [u8; 2]))
    ensures
        out.0 == signed_code(command_value.spec_code(), data_value as int),
        out.1[0] == packed_low(magnitude(data_value as int)),
        out.1[1] == packed_high(magnitude(data_value as int)),
{
    let code = command_value.code();
    let wide: i64 = data_value as i64;
    let (command, size): (u8, u32) = if wide < 0 {
        (code + 1, (-wide) as u32)
    } else {
        (code, wide as u32)
    };
    let low16: u16 = (size & 0xffff) as u16;
    assert(size & 0xffff < 0x10000) by (bit_vector);
    assert((size & 0xffff) % 128 == size % 128) by (bit_vector);
    assert(((size & 0xffff) / 128) % 128 == (size / 128) % 128) by (bit_vector);
    assert(magnitude(data_value as int) == size);
    (command, pack_data_value(low16))
}

/// `resp` with bit `bit` of byte `index` inverted.
pub open spec fn flip_bit(resp: Seq<u8>, index: int, bit: u8) -> Seq<u8> {
    resp.update(index, resp[index] ^ (1u8 << bit))
}

/// Whether a frame can be addressed to `address` under `packet_type`: the
/// checksum protection takes every address, the CRC protection those that
/// still fit in a byte with its offset added.
pub open spec fn address_allowed(packet_type: PacketType, address: u8) -> bool {
    packet_type is Checksum || crc::address_in_range(address)
}

/// The bytes of the frame that sets `data_value` on `target`, under
/// `packet_type`.
pub open spec fn set_frame(
    packet_type: PacketType,
    address: u8,
    command_value: CommandSet,
    data_value: i32,
    target: [u8; 2],
) -> Seq<u8> {
    match packet_type {
        PacketType::Checksum => checksum::set_frame(address, command_value, data_value, target),
        PacketType::CRC => crc::set_frame(address, command_value, data_value, target),
    }
}

/// The bytes of the frame that asks `source` for a value, under
/// `packet_type`.
pub open spec fn get_frame(
    packet_type: PacketType,
    address: u8,
    command_value: CommandGet,
    source: [u8; 2],
) -> Seq<u8> {
    match packet_type {
        PacketType::Checksum => checksum::get_frame(address, command_value, source),
        PacketType::CRC => crc::get_frame(address, command_value, source),
    }
}

/// Whether `resp` is an intact reply frame from the device at `address`
/// under `packet_type`, and if not, why.
pub open spec fn reply_validity(packet_type: PacketType, resp: Seq<u8>, address: u8) -> Result<
    (),
    ParseError,
> {
    match packet_type {
        PacketType::Checksum => checksum::reply_validity(resp, address),
        PacketType::CRC => crc::reply_validity(resp, address),
    }
}

/// What a reply says: the value it carries, or the description of the first
/// check it fails. The checks, in order: the frame itself (length,
/// integrity, address), the reply command number, the command value (the
/// one asked for, or that plus one for a negative value), the echo of the
/// source.
pub open spec fn reply_reading(
    packet_type: PacketType,
    address: u8,
    resp: Seq<u8>,
    expected_cmdvalue: CommandGet,
    expected_source: [u8; 2],
) -> Result<int, Seq<char>> {
    match reply_validity(packet_type, resp, address) {
        Err(ParseError::PacketSize) => Err("invalid packet size"@),
        Err(ParseError::ChecksumError) => Err("invalid checksum or CRC"@),
        Err(ParseError::AddressError) => Err("invalid address"@),
        Ok(_) => {
            if resp[1] != CMD_NUM_REPLY {
                Err("invalid command num"@)
            } else if resp[2] != expected_cmdvalue.spec_code() && resp[2]
                != expected_cmdvalue.spec_code() + 1 {
                Err("invalid command value"@)
            } else if resp[6] != expected_source[0] || resp[7] != expected_source[1] {
                Err("invalid source"@)
            } else if resp[2] == expected_cmdvalue.spec_code() + 1 {
                Ok(-(unpacked(resp[4], resp[5]) as int))
            } else {
                Ok(unpacked(resp[4], resp[5]) as int)
            }
        },
    }
}

/// A command frame of either protection, ready to be transmitted.
#[derive(Clone, PartialEq, Eq, Debug)]
pub enum PacketFrame {
    ChecksumSet(checksum::PacketSet),
    ChecksumGet(checksum::PacketGet),
    CRCSet(crc::PacketSet),
    CRCGet(crc::PacketGet),
}

impl View for PacketFrame {
    type V = Seq<u8>;

    open spec fn view(&self) -> Seq<u8> {
        match self {
            PacketFrame::ChecksumSet(p) => p@,
            PacketFrame::ChecksumGet(p) => p@,
            PacketFrame::CRCSet(p) => p@,
            PacketFrame::CRCGet(p) => p@,
        }
    }
}

impl PacketFrame {
    /// Builds the frame that sets `data_value` on `target`, under the given
    /// protection. An address that the protection cannot send is refused.
    pub fn new_set_frame(
        packet_type: PacketType,
        address: u8,
        command_value: CommandSet,
        data_value: i32,
        target: [u8; 2],
    ) -> (r: Result<PacketFrame, Error>)
        ensures
            address_allowed(packet_type, address) ==> r is Ok && r->Ok_0@ == set_frame(
                packet_type,
                address,
                command_value,
                data_value,
                target,
            ) && (packet_type is Checksum <==> r->Ok_0 is ChecksumSet) && (packet_type is CRC
                <==> r->Ok_0 is CRCSet),
            !address_allowed(packet_type, address) ==> (r matches Err(Error::InvalidInput(msg))
                && msg@ == crc::address_fault()),
    {
        match packet_type {
            PacketType::Checksum => {
                match checksum::PacketSet::new(address, command_value, data_value, target) {
                    Ok(packet) => Ok(PacketFrame::ChecksumSet(packet)),
                    Err(e) => Err(e),
                }
            },
            PacketType::CRC => {
                match crc::PacketSet::new(address, command_value, data_value, target) {
                    Ok(packet) => Ok(PacketFrame::CRCSet(packet)),
                    Err(e) => Err(e),
                }
            },
        }
    }

    /// Builds the frame that asks `source` for the value named by
    /// `command_value`, under the given protection. An address that the
    /// protection cannot send is refused.
    pub fn new_get_frame(
        packet_type: PacketType,
        address: u8,
        command_value: CommandGet,
        source: [u8; 2],
    ) -> (r: Result<PacketFrame, Error>)
        ensures
            address_allowed(packet_type, address) ==> r is Ok && r->Ok_0@ == get_frame(
                packet_type,
                address,
                command_value,
                source,
            ) && (packet_type is Checksum <==> r->Ok_0 is ChecksumGet) && (packet_type is CRC
                <==> r->Ok_0 is CRCGet),
            !address_allowed(packet_type, address) ==> (r matches Err(Error::InvalidInput(msg))
                && msg@ == crc::address_fault()),
    {
        match packet_type {
            PacketType::Checksum => {
                match checksum::PacketGet::new(address, command_value, source) {
                    Ok(packet) => Ok(PacketFrame::ChecksumGet(packet)),
                    Err(e) => Err(e),
                }
            },
            PacketType::CRC => {
                match crc::PacketGet::new(address, command_value, source) {
                    Ok(packet) => Ok(PacketFrame::CRCGet(packet)),
                    Err(e) => Err(e),
                }
            },
        }
    }

    /// The bytes of the frame, in transmission order.
    pub fn as_ref(&self) -> (bytes: &[u8])
        ensures
            bytes@ == self@,
    {
        match self {
            PacketFrame::ChecksumSet(ar) => ar.as_ref(),
            PacketFrame::ChecksumGet(ar) => ar.as_ref(),
            PacketFrame::CRCSet(ar) => ar.as_ref(),
            PacketFrame::CRCGet(ar) => ar.as_ref(),
        }
    }
}

/// Interface using the "Packet Serial" protocol with checksum or CRC.
pub struct PacketSerial<T: SabertoothSerial> {
    dev: Recorded<T>,
    address: u8,
    packet_type: PacketType,
}

/// Length of the replies under `packet_type`.
pub open spec fn reply_length(packet_type: PacketType) -> usize {
    match packet_type {
        PacketType::Checksum => checksum::PACKET_REPLY_SIZE,
        PacketType::CRC => crc::PACKET_REPLY_SIZE,
    }
}

impl<T: SabertoothSerial> PacketSerial<T> {
    /// The serial device that carries the frames.
    pub closed spec fn dev(&self) -> T {
        self.dev.dev()
    }

    /// What this interface has asked of its device so far, oldest first.
    pub closed spec fn calls(&self) -> Seq<Call> {
        self.dev.calls()
    }

    /// The address of the Sabertooth that is spoken to.
    pub closed spec fn address(&self) -> u8 {
        self.address
    }

    /// The frame protection in use.
    pub closed spec fn packet_type(&self) -> PacketType {
        self.packet_type
    }

    /// The bytes that this interface has handed to its device in writes
    /// that the device accepted, oldest first. (A write that the device
    /// fails is not counted: nothing is known of how much of it went out.)
    pub closed spec fn sent(&self) -> Seq<u8> {
        self.dev.sent()
    }

    /// Whether `other` is this interface with the same settings and a device
    /// that may have moved on.
    pub open spec fn same_settings(&self, other: &Self) -> bool {
        self.address() == other.address() && self.packet_type() == other.packet_type()
    }

    /// Whether `r` refuses a call for the given reason, with nothing done:
    /// `after` is this interface as it was, its device untouched and
    /// nothing handed to it.
    pub open spec fn refuses<R>(&self, after: &Self, r: Result<R, Error>, fault: Seq<char>) -> bool {
        &&& r matches Err(Error::InvalidInput(msg)) && msg@ == fault
        &&& *after == *self
    }

    /// What sending a "set" frame promises. The settings stay. An address
    /// that the protection cannot send is refused with nothing done.
    /// Otherwise one thing is asked of the device: to write the frame that
    /// sets `value` on `target`. Where the call succeeds, the device has
    /// accepted the frame; where it fails, it has not.
    pub open spec fn sets(
        &self,
        after: &Self,
        r: Result<(), Error>,
        cmd_value: CommandSet,
        value: i32,
        target: [u8; 2],
    ) -> bool {
        &&& self.same_settings(after)
        &&& !address_allowed(self.packet_type(), self.address()) ==> self.refuses(
            after,
            r,
            crc::address_fault(),
        )
        &&& address_allowed(self.packet_type(), self.address()) ==> after.calls()
            == self.calls().push(
            Call::Write(set_frame(self.packet_type(), self.address(), cmd_value, value, target)),
        )
        &&& r is Ok ==> after.sent() == self.sent() + set_frame(
            self.packet_type(),
            self.address(),
            cmd_value,
            value,
            target,
        )
        &&& r is Err ==> after.sent() == self.sent()
    }

    /// What an exchange of a "get" frame and its reply promises. The
    /// settings stay. An address that the protection cannot send is refused
    /// with nothing done. Otherwise the device is asked, in this order, to
    /// discard what it has received, to write the frame that asks `source`,
    /// and to wait for a reply of the protection's length; the first of
    /// these calls that fails is the last. Where the call succeeds, the
    /// device has accepted the frame, and the value returned is `value_of`
    /// applied to what some reply that passes every check reads as.
    /// Whatever happens, nothing but that frame is handed over.
    pub open spec fn gets<R>(
        &self,
        after: &Self,
        r: Result<R, Error>,
        cmd_value: CommandGet,
        source: [u8; 2],
        value_of: spec_fn(int) -> R,
    ) -> bool {
        &&& self.same_settings(after)
        &&& !address_allowed(self.packet_type(), self.address()) ==> self.refuses(
            after,
            r,
            crc::address_fault(),
        )
        &&& address_allowed(self.packet_type(), self.address()) ==> continues(
            self.calls(),
            after.calls(),
            exchange(
                get_frame(self.packet_type(), self.address(), cmd_value, source),
                reply_length(self.packet_type()),
            ),
            r is Ok,
        )
        &&& r is Ok ==> after.sent() == self.sent() + get_frame(
            self.packet_type(),
            self.address(),
            cmd_value,
            source,
        )
        &&& r is Err ==> after.sent() == self.sent() || after.sent() == self.sent() + get_frame(
            self.packet_type(),
            self.address(),
            cmd_value,
            source,
        )
        &&& r matches Ok(value) ==> exists|resp: Seq<u8>, read: int|
            reply_reading(self.packet_type(), self.address(), resp, cmd_value, source) == Ok::<
                int,
                Seq<char>,
            >(read) && value == value_of(read)
    }

    /// Set the address of the Sabertooth.
    pub fn with_address(self, address: u8) -> (r: Self)
        ensures
            r.address() == address,
            r.packet_type() == self.packet_type(),
            r.dev() == self.dev(),
            r.calls() == self.calls(),
            r.sent() == self.sent(),
    {
        let mut saber = self;
        saber.address = address;
        saber
    }

    /// Set the integrity protection type used for the frames.
    pub fn with_packet_type(self, packet_type: PacketType) -> (r: Self)
        ensures
            r.address() == self.address(),
            r.packet_type() == packet_type,
            r.dev() == self.dev(),
            r.calls() == self.calls(),
            r.sent() == self.sent(),
    {
        let mut saber = self;
        saber.packet_type = packet_type;
        saber
    }

    /// Hands one frame to the device.
    fn write_frame(&mut self, txdata: &[u8]) -> (r: Result<(), Error>)
        ensures
            old(self).same_settings(final(self)),
            final(self).calls() == old(self).calls().push(Call::Write(txdata@)),
            r is Ok ==> final(self).sent() == old(self).sent() + txdata@,
            r is Err ==> final(self).sent() == old(self).sent(),
    {
        self.dev.write_all(txdata)
    }

    /// Fills `buf` from the device.
    fn read_frame(&mut self, buf: &mut [u8]) -> (r: Result<(), Error>)
        ensures
            old(self).same_settings(final(self)),
            final(self).calls() == old(self).calls().push(
                Call::ReadExact(old(buf)@.len() as usize),
            ),
            final(self).sent() == old(self).sent(),
    {
        self.dev.read_exact(buf)
    }

    /// Length of the replies under the protection in use.
    pub fn reply_size(&self) -> (n: usize)
        ensures
            n == reply_length(self.packet_type()),
    {
        match self.packet_type {
            PacketType::Checksum => checksum::PACKET_REPLY_SIZE,
            PacketType::CRC => crc::PACKET_REPLY_SIZE,
        }
    }

    /// Sends the frame that sets `value` on `target`. An address that the
    /// protection cannot send is refused before anything reaches the device;
    /// otherwise the one frame is handed to the device, whose verdict is
    /// returned.
    pub fn set(&mut self, cmd_value: CommandSet, value: i32, target: [u8; 2]) -> (r: Result<
        (),
        Error,
    >)
        ensures
            old(self).sets(final(self), r, cmd_value, value, target),
    {
        match PacketFrame::new_set_frame(self.packet_type, self.address, cmd_value, value, target) {
            Ok(packet) => self.write_frame(packet.as_ref()),
            Err(e) => Err(e),
        }
    }

    /// Sends the frame that sets the command value of `ratio` on `target`. A
    /// ratio beyond one in magnitude is refused before anything reaches the
    /// device.
    pub fn set_ratio(&mut self, ratio: Binary32, target: [u8; 2]) -> (r: Result<(), Error>)
        ensures
            !in_unit_range(ratio@) ==> old(self).refuses(final(self), r, ratio_fault()),
            in_unit_range(ratio@) ==> old(self).sets(
                final(self),
                r,
                CommandSet::Value,
                ratio_on_scale(ratio@, RANGE_MIN as int, RANGE_MAX as int) as i32,
                target,
            ),
    {
        match ratio_to_value(ratio) {
            Ok(value) => self.set(CommandSet::Value, value, target),
            Err(e) => Err(e),
        }
    }

    /// Reads a reply: checks the frame, the reply command number and the
    /// echoes of command value and source, then extracts the value, which a
    /// command value one above the expected marks as negative.
    pub fn parse_response(
        &self,
        resp: &[u8],
        expected_cmdvalue: CommandGet,
        expected_source: [u8; 2],
    ) -> (r: Result<i32, Error>)
        ensures
            match reply_reading(
                self.packet_type(),
                self.address(),
                resp@,
                expected_cmdvalue,
                expected_source,
            ) {
                Ok(value) => r == Ok::<i32, Error>(value as i32) && -16383 <= value <= 16383,
                Err(fault) => r matches Err(Error::Response(msg)) && msg@ == fault,
            },
    {
        let validity = match self.packet_type {
            PacketType::Checksum => checksum::packet_is_valid(resp, self.address),
            PacketType::CRC => crc::packet_is_valid(resp, self.address),
        };
        match validity {
            Ok(_) => {},
            Err(ParseError::PacketSize) => {
                return Err(Error::Response("invalid packet size".to_owned()));
            },
            Err(ParseError::ChecksumError) => {
                return Err(Error::Response("invalid checksum or CRC".to_owned()));
            },
            Err(ParseError::AddressError) => {
                return Err(Error::Response("invalid address".to_owned()));
            },
        }
        let resp_cmdnum = resp[1];
        let resp_cmdvalue = resp[2];
        if resp_cmdnum != CMD_NUM_REPLY {
            return Err(Error::Response("invalid command num".to_owned()));
        }
        let expected_cmdvalue = expected_cmdvalue.code();
        let is_negative = if resp_cmdvalue == expected_cmdvalue + 1 {
            true
        } else if resp_cmdvalue == expected_cmdvalue {
            false
        } else {
            return Err(Error::Response("invalid command value".to_owned()));
        };
        let size = unpack_data_value(vstd::slice::slice_subrange(resp, 4, 6)) as i32;
        let data_value = if is_negative {
            -size
        } else {
            size
        };
        if resp[6] != expected_source[0] || resp[7] != expected_source[1] {
            return Err(Error::Response("invalid source".to_owned()));
        }
        Ok(data_value)
    }

    /// Asks `source` for a value and reads the reply: stale received bytes
    /// are discarded, the one request frame is handed to the device, a reply
    /// of the protection's length is awaited and read with
    /// [`parse_response`](Self::parse_response). An address that the
    /// protection cannot send is refused before anything reaches the device.
    pub fn get(&mut self, cmd_value: CommandGet, source: [u8; 2]) -> (r: Result<i32, Error>)
        ensures
            old(self).gets(final(self), r, cmd_value, source, |read: int| read as i32),
            r matches Ok(value) ==> -16383 <= value <= 16383,
    {
        let packet = match PacketFrame::new_get_frame(
            self.packet_type,
            self.address,
            cmd_value,
            source,
        ) {
            Ok(packet) => packet,
            Err(e) => {
                return Err(e);
            },
        };
        let ghost before = self.calls();
        let ghost planned = exchange(packet@, reply_length(self.packet_type));
        match self.dev.clear_all() {
            Ok(_) => {},
            Err(e) => {
                assert(self.calls() =~= before + planned.take(1));
                return Err(e);
            },
        }
        match self.write_frame(packet.as_ref()) {
            Ok(_) => {},
            Err(e) => {
                assert(self.calls() =~= before + planned.take(2));
                return Err(e);
            },
        }
        match self.packet_type {
            PacketType::Checksum => {
                let mut buf = [0u8; 9];
                let read = self.read_frame(&mut buf);
                assert(self.calls() =~= before + planned.take(3));
                match read {
                    Ok(_) => {},
                    Err(e) => {
                        return Err(e);
                    },
                }
                self.parse_response(&buf, cmd_value, source)
            },
            PacketType::CRC => {
                let mut buf = [0u8; 10];
                let read = self.read_frame(&mut buf);
                assert(self.calls() =~= before + planned.take(3));
                match read {
                    Ok(_) => {},
                    Err(e) => {
                        return Err(e);
                    },
                }
                self.parse_response(&buf, cmd_value, source)
            },
        }
    }

    /// Asks `source` for a value, as [`get`](Self::get) does, and scales it
    /// to a ratio: the value over 2047, in single precision.
    pub fn get_ratio(&mut self, cmd_value: CommandGet, source: [u8; 2]) -> (r: Result<
        Binary32,
        Error,
    >)
        ensures
            old(self).gets(final(self), r, cmd_value, source, |read: int| divided(read, 2047)),
    {
        self.get_scaled(cmd_value, source, RANGE_MAX as u32)
    }

    /// Asks `source` for a value, as [`get`](Self::get) does, and divides it
    /// by `unit` in single precision.
    fn get_scaled(&mut self, cmd_value: CommandGet, source: [u8; 2], unit: u32) -> (r: Result<
        Binary32,
        Error,
    >)
        requires
            0 < unit < 0x100_0000,
        ensures
            old(self).gets(
                final(self),
                r,
                cmd_value,
                source,
                |read: int| divided(read, unit as nat),
            ),
    {
        match self.get(cmd_value, source) {
            Ok(value) => {
                let x = Binary32::quotient(value, unit);
                proof {
                    let (resp, read) = choose|resp: Seq<u8>, read: int|
                        reply_reading(
                            old(self).packet_type(),
                            old(self).address(),
                            resp,
                            cmd_value,
                            source,
                        ) == Ok::<int, Seq<char>>(read) && value == read as i32;
                    assert(-16383 <= read <= 16383);
                    x.lemma_of_bits();
                    assert(reply_reading(
                        old(self).packet_type(),
                        old(self).address(),
                        resp,
                        cmd_value,
                        source,
                    ) == Ok::<int, Seq<char>>(read) && x == divided(read, unit as nat));
                }
                Ok(x)
            },
            Err(e) => Err(e),
        }
    }
}

impl<T: SabertoothSerial> From<T> for PacketSerial<T> {
    /// An interface on `dev` with the default settings: address 128, CRC
    /// protection.
    fn from(dev: T) -> (saber: Self)
        ensures
            saber.address() == DEFAULT_ADDRESS,
            saber.packet_type() == DEFAULT_PACKET_TYPE,
            saber.dev() == dev,
            saber.calls() == Seq::<Call>::empty(),
            saber.sent() == Seq::<u8>::empty(),
    {
        PacketSerial {
            dev: Recorded::new(dev),
            address: DEFAULT_ADDRESS,
            packet_type: DEFAULT_PACKET_TYPE,
        }
    }
}

impl<T: SabertoothSerial> vstd::std_specs::convert::FromSpecImpl<T> for PacketSerial<T> {
    open spec fn obeys_from_spec() -> bool {
        true
    }

    closed spec fn from_spec(dev: T) -> Self {
        PacketSerial {
            dev: Recorded::fresh(dev),
            address: DEFAULT_ADDRESS,
            packet_type: DEFAULT_PACKET_TYPE,
        }
    }
}

impl<T: SabertoothSerial + Clone> From<&T> for PacketSerial<T> {
    /// An interface on a clone of `dev`, for devices that can be shared
    /// between several interfaces, with the default settings.
    fn from(dev: &T) -> (saber: Self)
        ensures
            saber.address() == DEFAULT_ADDRESS,
            saber.packet_type() == DEFAULT_PACKET_TYPE,
            saber.calls() == Seq::<Call>::empty(),
            saber.sent() == Seq::<u8>::empty(),
    {
        PacketSerial {
            dev: Recorded::new(dev.clone()),
            address: DEFAULT_ADDRESS,
            packet_type: DEFAULT_PACKET_TYPE,
        }
    }
}

impl<T: SabertoothSerial + Clone> vstd::std_specs::convert::FromSpecImpl<&T> for PacketSerial<T> {
    /// What the clone of a device is, is up to the device: nothing is said
    /// of the result as a whole.
    open spec fn obeys_from_spec() -> bool {
        false
    }

    closed spec fn from_spec(dev: &T) -> Self {
        PacketSerial {
            dev: Recorded::fresh(*dev),
            address: DEFAULT_ADDRESS,
            packet_type: DEFAULT_PACKET_TYPE,
        }
    }
}

impl<T: SabertoothSerial> Sabertooth2x32 for PacketSerial<T> {
    fn startup(&mut self, channel: usize) -> (r: Result<(), Error>)
        ensures
            !channel_exists(channel) ==> old(self).refuses(final(self), r, channel_fault(channel)),
            channel_exists(channel) ==> old(self).sets(
                final(self),
                r,
                CommandSet::Shutdown,
                0,
                [TARGET_MOTOR, channel_byte(channel)],
            ),
    {
        match channel_digit(channel) {
            Ok(digit) => self.set(CommandSet::Shutdown, 0, [TARGET_MOTOR, digit]),
            Err(e) => Err(e),
        }
    }

    fn shutdown(&mut self, channel: usize) -> (r: Result<(), Error>)
        ensures
            !channel_exists(channel) ==> old(self).refuses(final(self), r, channel_fault(channel)),
            channel_exists(channel) ==> old(self).sets(
                final(self),
                r,
                CommandSet::Shutdown,
                1,
                [TARGET_MOTOR, channel_byte(channel)],
            ),
    {
        match channel_digit(channel) {
            Ok(digit) => self.set(CommandSet::Shutdown, 1, [TARGET_MOTOR, digit]),
            Err(e) => Err(e),
        }
    }

    /// Setting a speed refuses a channel that does not exist, then a
    /// ratio beyond one in magnitude, with nothing done, and otherwise
    /// sends the frame that sets the command value of the ratio on the
    /// motor of the channel.
    open spec fn speed_set(
        &self,
        after: &Self,
        r: Result<(), Error>,
        channel: usize,
        ratio: Binary32,
    ) -> bool {
        &&& !channel_exists(channel) ==> self.refuses(after, r, channel_fault(channel))
        &&& channel_exists(channel) && !in_unit_range(ratio@) ==> self.refuses(
            after,
            r,
            ratio_fault(),
        )
        &&& channel_exists(channel) && in_unit_range(ratio@) ==> self.sets(
            after,
            r,
            CommandSet::Value,
            ratio_on_scale(ratio@, RANGE_MIN as int, RANGE_MAX as int) as i32,
            [TARGET_MOTOR, channel_byte(channel)],
        )
    }

    fn set_speed(&mut self, channel: usize, ratio: Binary32) -> (r: Result<(), Error>)
        ensures
            !channel_exists(channel) ==> old(self).refuses(final(self), r, channel_fault(channel)),
            channel_exists(channel) && !in_unit_range(ratio@) ==> old(self).refuses(
                final(self),
                r,
                ratio_fault(),
            ),
            channel_exists(channel) && in_unit_range(ratio@) ==> old(self).sets(
                final(self),
                r,
                CommandSet::Value,
                ratio_on_scale(ratio@, RANGE_MIN as int, RANGE_MAX as int) as i32,
                [TARGET_MOTOR, channel_byte(channel)],
            ),
    {
        match channel_digit(channel) {
            Ok(digit) => self.set_ratio(ratio, [TARGET_MOTOR, digit]),
            Err(e) => Err(e),
        }
    }

    fn get_speed(&mut self, channel: usize) -> (r: Result<Binary32, Error>)
        ensures
            !channel_exists(channel) ==> old(self).refuses(final(self), r, channel_fault(channel)),
            channel_exists(channel) ==> old(self).gets(
                final(self),
                r,
                CommandGet::Value,
                [TARGET_MOTOR, channel_byte(channel)],
                |read: int| divided(read, 2047),
            ),
    {
        match channel_digit(channel) {
            Ok(digit) => self.get_ratio(CommandGet::Value, [TARGET_MOTOR, digit]),
            Err(e) => Err(e),
        }
    }

    fn set_drive(&mut self, ratio: Binary32) -> (r: Result<(), Error>)
        ensures
            !in_unit_range(ratio@) ==> old(self).refuses(final(self), r, ratio_fault()),
            in_unit_range(ratio@) ==> old(self).sets(
                final(self),
                r,
                CommandSet::Value,
                ratio_on_scale(ratio@, RANGE_MIN as int, RANGE_MAX as int) as i32,
                [TARGET_MOTOR, TARGET_DRIVE],
            ),
    {
        self.set_ratio(ratio, [TARGET_MOTOR, TARGET_DRIVE])
    }

    fn set_turn(&mut self, ratio: Binary32) -> (r: Result<(), Error>)
        ensures
            !in_unit_range(ratio@) ==> old(self).refuses(final(self), r, ratio_fault()),
            in_unit_range(ratio@) ==> old(self).sets(
                final(self),
                r,
                CommandSet::Value,
                ratio_on_scale(ratio@, RANGE_MIN as int, RANGE_MAX as int) as i32,
                [TARGET_MOTOR, TARGET_TURN],
            ),
    {
        self.set_ratio(ratio, [TARGET_MOTOR, TARGET_TURN])
    }

    fn set_power(&mut self, channel: usize, ratio: Binary32) -> (r: Result<(), Error>)
        ensures
            !channel_exists(channel) ==> old(self).refuses(final(self), r, channel_fault(channel)),
            channel_exists(channel) && !in_unit_range(ratio@) ==> old(self).refuses(
                final(self),
                r,
                ratio_fault(),
            ),
            channel_exists(channel) && in_unit_range(ratio@) ==> old(self).sets(
                final(self),
                r,
                CommandSet::Value,
                ratio_on_scale(ratio@, RANGE_MIN as int, RANGE_MAX as int) as i32,
                [TARGET_POWER, channel_byte(channel)],
            ),
    {
        match channel_digit(channel) {
            Ok(digit) => self.set_ratio(ratio, [TARGET_POWER, digit]),
            Err(e) => Err(e),
        }
    }

    fn get_power(&mut self, channel: usize) -> (r: Result<Binary32, Error>)
        ensures
            !channel_exists(channel) ==> old(self).refuses(final(self), r, channel_fault(channel)),
            channel_exists(channel) ==> old(self).gets(
                final(self),
                r,
                CommandGet::Value,
                [TARGET_POWER, channel_byte(channel)],
                |read: int| divided(read, 2047),
            ),
    {
        match channel_digit(channel) {
            Ok(digit) => self.get_ratio(CommandGet::Value, [TARGET_POWER, digit]),
            Err(e) => Err(e),
        }
    }

    fn set_ramp(&mut self, channel: usize, ratio: Binary32) -> (r: Result<(), Error>)
        ensures
            !channel_exists(channel) ==> old(self).refuses(final(self), r, channel_fault(channel)),
            channel_exists(channel) && !in_unit_range(ratio@) ==> old(self).refuses(
                final(self),
                r,
                ratio_fault(),
            ),
            channel_exists(channel) && in_unit_range(ratio@) ==> old(self).sets(
                final(self),
                r,
                CommandSet::Value,
                ratio_on_scale(ratio@, RANGE_MIN as int, RANGE_MAX as int) as i32,
                [TARGET_RAMP, channel_byte(channel)],
            ),
    {
        match channel_digit(channel) {
            Ok(digit) => self.set_ratio(ratio, [TARGET_RAMP, digit]),
            Err(e) => Err(e),
        }
    }

    fn set_aux(&mut self, channel: usize, ratio: Binary32) -> (r: Result<(), Error>)
        ensures
            !channel_exists(channel) ==> old(self).refuses(final(self), r, channel_fault(channel)),
            channel_exists(channel) && !in_unit_range(ratio@) ==> old(self).refuses(
                final(self),
                r,
                ratio_fault(),
            ),
            channel_exists(channel) && in_unit_range(ratio@) ==> old(self).sets(
                final(self),
                r,
                CommandSet::Value,
                ratio_on_scale(ratio@, RANGE_MIN as int, RANGE_MAX as int) as i32,
                [TARGET_AUX, channel_byte(channel)],
            ),
    {
        match channel_digit(channel) {
            Ok(digit) => self.set_ratio(ratio, [TARGET_AUX, digit]),
            Err(e) => Err(e),
        }
    }

    fn get_voltage(&mut self, channel: usize) -> (r: Result<Binary32, Error>)
        ensures
            !channel_exists(channel) ==> old(self).refuses(final(self), r, channel_fault(channel)),
            channel_exists(channel) ==> old(self).gets(
                final(self),
                r,
                CommandGet::Battery,
                [TARGET_MOTOR, channel_byte(channel)],
                |read: int| divided(read, 10),
            ),
    {
        match channel_digit(channel) {
            Ok(digit) => self.get_scaled(CommandGet::Battery, [TARGET_MOTOR, digit], 10),
            Err(e) => Err(e),
        }
    }

    fn get_current(&mut self, channel: usize) -> (r: Result<Binary32, Error>)
        ensures
            !channel_exists(channel) ==> old(self).refuses(final(self), r, channel_fault(channel)),
            channel_exists(channel) ==> old(self).gets(
                final(self),
                r,
                CommandGet::Current,
                [TARGET_MOTOR, channel_byte(channel)],
                |read: int| divided(read, 1),
            ),
    {
        match channel_digit(channel) {
            Ok(digit) => self.get_scaled(CommandGet::Current, [TARGET_MOTOR, digit], 1),
            Err(e) => Err(e),
        }
    }

    fn get_temperature(&mut self, channel: usize) -> (r: Result<Binary32, Error>)
        ensures
            !channel_exists(channel) ==> old(self).refuses(final(self), r, channel_fault(channel)),
            channel_exists(channel) ==> old(self).gets(
                final(self),
                r,
                CommandGet::Temperature,
                [TARGET_MOTOR, channel_byte(channel)],
                |read: int| divided(read, 1),
            ),
    {
        match channel_digit(channel) {
            Ok(digit) => self.get_scaled(CommandGet::Temperature, [TARGET_MOTOR, digit], 1),
            Err(e) => Err(e),
        }
    }
}

/// An intact reply from another address is refused for its address, and
/// for nothing else: the error is not the one of a damaged frame.
pub proof fn lemma_foreign_reply_is_address_error(
    packet_type: PacketType,
    resp: Seq<u8>,
    address: u8,
    other: u8,
    expected_cmdvalue: CommandGet,
    expected_source: [u8; 2],
)
    requires
        reply_validity(packet_type, resp, other) is Ok,
        other != address,
    ensures
        reply_validity(packet_type, resp, address) == Err::<(), ParseError>(
            ParseError::AddressError,
        ),
        reply_reading(packet_type, address, resp, expected_cmdvalue, expected_source) == Err::<
            int,
            Seq<char>,
        >("invalid address"@),
        "invalid address"@ != "invalid checksum or CRC"@,
{
    reveal_strlit("invalid address");
    reveal_strlit("invalid checksum or CRC");
    assert("invalid address"@.len() != "invalid checksum or CRC"@.len());
}

/// What one inverted bit does to a reply that reads well. Under CRC
/// protection the reply is refused, whichever bit it is. Under checksum
/// protection it is refused too, unless the bit is the unused top bit of one
/// of the two data bytes: then the reply still reads, and reads the same
/// value.
pub proof fn lemma_single_bit_flip(
    packet_type: PacketType,
    address: u8,
    resp: Seq<u8>,
    expected_cmdvalue: CommandGet,
    expected_source: [u8; 2],
    index: int,
    bit: u8,
)
    requires
        reply_reading(packet_type, address, resp, expected_cmdvalue, expected_source) is Ok,
        0 <= index < resp.len(),
        bit < 8,
    ensures
        ({
            let before = reply_reading(
                packet_type,
                address,
                resp,
                expected_cmdvalue,
                expected_source,
            );
            let after = reply_reading(
                packet_type,
                address,
                flip_bit(resp, index, bit),
                expected_cmdvalue,
                expected_source,
            );
            if packet_type is Checksum && bit == 7 && (index == 4 || index == 5) {
                after == before
            } else {
                after is Err
            }
        }),
{
    let flipped = flip_bit(resp, index, bit);
    let x = resp[index];
    match packet_type {
        PacketType::Checksum => {
            checksum::lemma_single_bit_flip_is_rejected(resp, address, index, bit);
            assert(bit == 7 ==> (x ^ (1u8 << bit)) % 128 == x % 128 && (x ^ (1u8 << bit)) != x)
                by (bit_vector);
            assert(reply_validity(packet_type, resp, address) is Ok);
            if checksum::unseen_bit(index, bit) {
                assert(reply_validity(packet_type, flipped, address) is Ok);
                assert(forall|j: int| 0 <= j < 9 && j != index ==> flipped[j] == resp[j]);
            }
        },
        PacketType::CRC => {
            crc::lemma_single_bit_flip_is_rejected(resp, address, index, bit);
        },
    }
}

/// The bytes of the reply that carries `value` from `source`: what a device
/// at `address` answers to the request for `command_value`.
pub open spec fn reply_frame(
    packet_type: PacketType,
    address: u8,
    command_value: CommandGet,
    value: int,
    source: [u8; 2],
) -> Seq<u8> {
    let header = seq![
        match packet_type {
            PacketType::Checksum => address,
            PacketType::CRC => (address + crc::PACKET_ADDR_OFFSET) as u8,
        },
        CMD_NUM_REPLY,
        signed_code(command_value.spec_code(), value) as u8,
    ];
    let payload = seq![
        packed_low(magnitude(value)),
        packed_high(magnitude(value)),
        source[0],
        source[1],
    ];
    match packet_type {
        PacketType::Checksum => header + seq![checksum::checksum_of(header)] + payload + seq![
            checksum::checksum_of(payload),
        ],
        PacketType::CRC => header + seq![crc::crc7_of(header)] + payload + crc::crc14_bytes(
            payload,
        ),
    }
}

/// A reply that is put together as the protocol says reads as the value it
/// was made for: every value of up to fourteen bits, of either sign, comes
/// through, under both protections.
pub proof fn lemma_reply_reads(
    packet_type: PacketType,
    address: u8,
    command_value: CommandGet,
    value: int,
    source: [u8; 2],
)
    requires
        address_allowed(packet_type, address),
        -16383 <= value <= 16383,
    ensures
        reply_reading(
            packet_type,
            address,
            reply_frame(packet_type, address, command_value, value, source),
            command_value,
            source,
        ) == Ok::<int, Seq<char>>(value),
{
    let resp = reply_frame(packet_type, address, command_value, value, source);
    let header = seq![resp[0], resp[1], resp[2]];
    let payload = seq![resp[4], resp[5], resp[6], resp[7]];
    assert(resp.subrange(0, 3) =~= header);
    assert(resp.subrange(4, 8) =~= payload);
    match packet_type {
        PacketType::Checksum => {},
        PacketType::CRC => {
            assert(resp.subrange(8, 10) =~= crc::crc14_bytes(payload));
        },
    }
    let m = magnitude(value);
    assert(unpacked(packed_low(m), packed_high(m)) == m);
}

/// What stopping the motors comes to under the "Packet Serial" protocol.
/// With an address that the protection cannot send, nothing is done. With
/// any other, the device is asked to write the frame that sets the speed of
/// motor 1 to zero and, where it accepts that frame, the frame that does
/// the same for motor 2; where the call succeeds, it has accepted both, in
/// this order. The requirement is what `stop_motors` ensures.
pub proof fn lemma_motors_stopped<T: SabertoothSerial>(
    before: &PacketSerial<T>,
    between: &PacketSerial<T>,
    first: Result<(), Error>,
    after: &PacketSerial<T>,
    r: Result<(), Error>,
)
    requires
        before.speed_set(between, first, 1, Binary32::of_bits(0)),
        first is Err ==> r == first && after == between,
        first is Ok ==> between.speed_set(after, r, 2, Binary32::of_bits(0)),
    ensures
        ({
            let one = set_frame(
                before.packet_type(),
                before.address(),
                CommandSet::Value,
                0,
                [TARGET_MOTOR, 0x31],
            );
            let two = set_frame(
                before.packet_type(),
                before.address(),
                CommandSet::Value,
                0,
                [TARGET_MOTOR, 0x32],
            );
            &&& before.same_settings(after)
            &&& !address_allowed(before.packet_type(), before.address()) ==> before.refuses(
                after,
                r,
                crc::address_fault(),
            )
            &&& address_allowed(before.packet_type(), before.address()) ==> after.calls()
                == if first is Ok {
                before.calls().push(Call::Write(one)).push(Call::Write(two))
            } else {
                before.calls().push(Call::Write(one))
            }
            &&& r is Ok ==> first is Ok && after.sent() == before.sent() + one + two
            &&& r is Err ==> after.sent() == before.sent() || after.sent() == before.sent() + one
        }),
{
    Binary32::lemma_of_bits_view(0);
    crate::binary32::lemma_two_to_increases(0, 149);
    assert(in_unit_range(0u32));
    assert(ratio_on_scale(0u32, RANGE_MIN as int, RANGE_MAX as int) == 0);
    assert(channel_byte(1) == 0x31 && channel_byte(2) == 0x32);
    let one = set_frame(
        before.packet_type(),
        before.address(),
        CommandSet::Value,
        0,
        [TARGET_MOTOR, 0x31],
    );
    let two = set_frame(
        before.packet_type(),
        before.address(),
        CommandSet::Value,
        0,
        [TARGET_MOTOR, 0x32],
    );
    assert(before.sent() + one + two =~= (before.sent() + one) + two);
}

} // verus!
