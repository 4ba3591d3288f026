//! Frames protected by an additive 7-bit checksum.

use vstd::prelude::*;
use vstd::slice::slice_subrange;
use crate::error::Error;
use super::{
    encode_datum, flip_bit, magnitude, packed_high, packed_low, signed_code, CommandGet,
    CommandSet, ParseError, CMD_NUM_GET, CMD_NUM_SET,
};

verus! {

/// Length of a "set" frame.
pub const PACKET_SET_SIZE: usize = 9;

/// Length of a "get" frame.
pub const PACKET_GET_SIZE: usize = 7;

/// Length of a reply frame.
pub const PACKET_REPLY_SIZE: usize = 9;

/// Sum of the bytes of `data`.
pub open spec fn byte_sum(data: Seq<u8>) -> nat
    decreases data.len(),
{
    if data.len() == 0 {
        0
    } else {
        byte_sum(data.drop_last()) + data.last() as nat
    }
}

/// The checksum of `data`: the sum of its bytes, modulo 128.
pub open spec fn checksum_of(data: Seq<u8>) -> u8 {
    (byte_sum(data) % 128) as u8
}

/// Computes the 7-bit additive checksum of `data`.
pub fn checksum(data: &[u8]) -> (sum: u8)
    ensures
        sum == checksum_of(data@),
{
    let mut sum: u8 = 0;
    let mut i: usize = 0;
    while i < data.len()
        invariant
            i <= data@.len(),
            sum < 128,
            sum == byte_sum(data@.take(i as int)) % 128,
        decreases data@.len() - i,
    {
        let b: u8 = data[i];
        assert(data@.take(i + 1).drop_last() =~= data@.take(i as int));
        sum = ((sum as u16 + b as u16) % 128) as u8;
        i += 1;
    }
    assert(data@.take(i as int) =~= data@);
    sum
}

/// The bytes of the frame that sets `data_value` on `target`.
pub open spec fn set_frame(
    address: u8,
    command_value: CommandSet,
    data_value: i32,
    target: [u8; 2],
) -> Seq<u8> {
    let header = seq![
        address,
        CMD_NUM_SET,
        signed_code(command_value.spec_code(), data_value as int) as u8,
    ];
    let payload = seq![
        packed_low(magnitude(data_value as int)),
        packed_high(magnitude(data_value as int)),
        target[0],
        target[1],
    ];
    header + seq![checksum_of(header)] + payload + seq![checksum_of(payload)]
}

/// The bytes of the frame that asks `source` for a value.
pub open spec fn get_frame(address: u8, command_value: CommandGet, source: [u8; 2]) -> Seq<u8> {
    let header = seq![address, CMD_NUM_GET, command_value.spec_code()];
    let payload = seq![source[0], source[1]];
    header + seq![checksum_of(header)] + payload + seq![checksum_of(payload)]
}

/// Whether `resp` is an intact reply frame from the device at `address`,
/// and if not, the first reason why: its length, then its two checksums,
/// then its address.
pub open spec fn reply_validity(resp: Seq<u8>, address: u8) -> Result<(), ParseError> {
    if resp.len() != PACKET_REPLY_SIZE {
        Err(ParseError::PacketSize)
    } else if resp[3] != checksum_of(resp.subrange(0, 3)) || resp[8] != checksum_of(
        resp.subrange(4, 8),
    ) {
        Err(ParseError::ChecksumError)
    } else if resp[0] != address {
        Err(ParseError::AddressError)
    } else {
        Ok(())
    }
}

/// A "set" frame under checksum protection.
#[derive(Clone, PartialEq, Eq, Debug)]
pub struct PacketSet([u8; PACKET_SET_SIZE]);

impl View for PacketSet {
    type V = Seq<u8>;

    closed spec fn view(&self) -> Seq<u8> {
        self.0@
    }
}

impl PacketSet {
    /// Builds the frame that sets `data_value` on `target`. A negative datum
    /// is sent as its magnitude under the command value plus one. Every
    /// address is accepted.
    pub fn new(address: u8, command_value: CommandSet, data_value: i32, target: [u8; 2]) -> (r:
        Result<PacketSet, Error>)
        ensures
            r is Ok,
            r->Ok_0@ == set_frame(address, command_value, data_value, target),
    {
        let (command, data) = encode_datum(command_value, data_value);
        let sum1 = checksum(&[address, CMD_NUM_SET, command]);
        let sum2 = checksum(&[data[0], data[1], target[0], target[1]]);
        let buf: [u8; PACKET_SET_SIZE] = [
            address,
            CMD_NUM_SET,
            command,
            sum1,
            data[0],
            data[1],
            target[0],
            target[1],
            sum2,
        ];
        proof {
            assert([address, CMD_NUM_SET, command]@ =~= seq![address, CMD_NUM_SET, command]);
            assert([data[0], data[1], target[0], target[1]]@ =~= seq![
                data[0],
                data[1],
                target[0],
                target[1],
            ]);
            assert(buf@ =~= set_frame(address, command_value, data_value, target));
        }
        Ok(PacketSet(buf))
    }

    /// The bytes of the frame, in transmission order.
    pub fn as_ref(&self) -> (bytes: &[u8])
        ensures
            bytes@ == self@,
    {
        &self.0
    }
}

/// A "get" frame under checksum protection.
#[derive(Clone, PartialEq, Eq, Debug)]
pub struct PacketGet([u8; PACKET_GET_SIZE]);

impl View for PacketGet {
    type V = Seq<u8>;

    closed spec fn view(&self) -> Seq<u8> {
        self.0@
    }
}

impl PacketGet {
    /// Builds the frame that asks `source` for the value named by
    /// `command_value`. Every address is accepted.
    pub fn new(address: u8, command_value: CommandGet, source: [u8; 2]) -> (r: Result<
        PacketGet,
        Error,
    >)
        ensures
            r is Ok,
            r->Ok_0@ == get_frame(address, command_value, source),
    {
        let command = command_value.code();
        let sum1 = checksum(&[address, CMD_NUM_GET, command]);
        let sum2 = checksum(&[source[0], source[1]]);
        let buf: [u8; PACKET_GET_SIZE] = [
            address,
            CMD_NUM_GET,
            command,
            sum1,
            source[0],
            source[1],
            sum2,
        ];
        proof {
            assert([address, CMD_NUM_GET, command]@ =~= seq![address, CMD_NUM_GET, command]);
            assert([source[0], source[1]]@ =~= seq![source[0], source[1]]);
            assert(buf@ =~= get_frame(address, command_value, source));
        }
        Ok(PacketGet(buf))
    }

    /// The bytes of the frame, in transmission order.
    pub fn as_ref(&self) -> (bytes: &[u8])
        ensures
            bytes@ == self@,
    {
        &self.0
    }
}

/// Checks a reply frame: its length, then its two checksums, then its
/// address. Each failure has its own error.
pub fn packet_is_valid(resp: &[u8], address: u8) -> (r: Result<(), ParseError>)
    ensures
        r == reply_validity(resp@, address),
{
    if resp.len() != PACKET_REPLY_SIZE {
        Err(ParseError::PacketSize)
    } else if resp[3] != checksum(slice_subrange(resp, 0, 3)) || resp[8] != checksum(
        slice_subrange(resp, 4, 8),
    ) {
        Err(ParseError::ChecksumError)
    } else if resp[0] != address {
        Err(ParseError::AddressError)
    } else {
        Ok(())
    }
}

/// Replacing one byte moves the sum by the difference of the two bytes.
pub proof fn lemma_byte_sum_update(data: Seq<u8>, index: int, byte: u8)
    requires
        0 <= index < data.len(),
    ensures
        byte_sum(data.update(index, byte)) == byte_sum(data) - data[index] + byte,
    decreases data.len(),
{
    let changed = data.update(index, byte);
    if index == data.len() - 1 {
        assert(changed.drop_last() =~= data.drop_last());
    } else {
        lemma_byte_sum_update(data.drop_last(), index, byte);
        assert(changed.drop_last() =~= data.drop_last().update(index, byte));
    }
}

/// The bits that the checksums cannot see: the top bit of every byte they
/// cover but the address, which is checked for itself. Inverting one of
/// them moves a sum by 128.
pub open spec fn unseen_bit(index: int, bit: u8) -> bool {
    bit == 7 && index != 0 && index != 3 && index != 8
}

/// One inverted bit makes an accepted checksum reply unacceptable, unless it
/// is one of the bits that the checksums cannot see; with one of those
/// inverted the reply is still accepted.
pub proof fn lemma_single_bit_flip_is_rejected(resp: Seq<u8>, address: u8, index: int, bit: u8)
    requires
        reply_validity(resp, address) is Ok,
        0 <= index < PACKET_REPLY_SIZE,
        bit < 8,
    ensures
        reply_validity(flip_bit(resp, index, bit), address) is Err <==> !unseen_bit(index, bit),
{
    let flipped = flip_bit(resp, index, bit);
    let x = resp[index];
    let y = x ^ (1u8 << bit);
    assert(bit < 7 ==> (y == x + (1u8 << bit) || y + (1u8 << bit) == x) && 1 <= (1u8 << bit)
        <= 64) by (bit_vector)
        requires
            y == x ^ (1u8 << bit),
    ;
    assert(bit == 7 ==> (y == x + 128 || y + 128 == x)) by (bit_vector)
        requires
            y == x ^ (1u8 << bit),
    ;
    if index < 3 {
        lemma_byte_sum_update(resp.subrange(0, 3), index, y);
        assert(flipped.subrange(0, 3) =~= resp.subrange(0, 3).update(index, y));
        assert(flipped.subrange(4, 8) =~= resp.subrange(4, 8));
    } else if index == 3 {
        assert(flipped.subrange(0, 3) =~= resp.subrange(0, 3));
    } else if index < 8 {
        lemma_byte_sum_update(resp.subrange(4, 8), index - 4, y);
        assert(flipped.subrange(4, 8) =~= resp.subrange(4, 8).update(index - 4, y));
        assert(flipped.subrange(0, 3) =~= resp.subrange(0, 3));
    } else {
        assert(flipped.subrange(0, 3) =~= resp.subrange(0, 3));
        assert(flipped.subrange(4, 8) =~= resp.subrange(4, 8));
    }
}

} // verus!
