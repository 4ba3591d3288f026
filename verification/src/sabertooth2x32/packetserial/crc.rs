//! Frames protected by a CRC-7 on the header and a CRC-14 on the payload.

use vstd::prelude::*;
use vstd::slice::slice_subrange;
use crate::error::Error;
use super::{
    encode_datum, flip_bit, magnitude, packed_high, packed_low, signed_code, CommandGet,
    CommandSet, ParseError, CMD_NUM_GET, CMD_NUM_SET,
};

verus! {

/// Length of a "set" frame.
pub const PACKET_SET_SIZE: usize = 10;

/// Length of a "get" frame.
pub const PACKET_GET_SIZE: usize = 8;

/// Length of a reply frame.
pub const PACKET_REPLY_SIZE: usize = 10;

/// Added to the device address in every CRC frame, which keeps the
/// addresses of the two protections apart.
pub const PACKET_ADDR_OFFSET: u8 = 112;

/// One step of the CRC-7 shift register: shift right, and fold the
/// polynomial 0x76 in when a one falls out.
pub open spec fn crc7_shift(crc: u8) -> u8 {
    if crc & 1 != 0 {
        (crc >> 1) ^ 0x76
    } else {
        crc >> 1
    }
}

/// `n` steps of the CRC-7 shift register.
pub open spec fn crc7_shifts(crc: u8, n: nat) -> u8
    decreases n,
{
    if n == 0 {
        crc
    } else {
        crc7_shift(crc7_shifts(crc, (n - 1) as nat))
    }
}

/// The CRC-7 register after `data`: seeded with 0x7f, each byte is folded in
/// and shifted through, eight steps a byte.
pub open spec fn crc7_register(data: Seq<u8>) -> u8
    decreases data.len(),
{
    if data.len() == 0 {
        0x7f
    } else {
        crc7_shifts(crc7_register(data.drop_last()) ^ data.last(), 8)
    }
}

/// The CRC-7 of `data`: the final register, inverted.
pub open spec fn crc7_of(data: Seq<u8>) -> u8 {
    crc7_register(data) ^ 0x7f
}

/// One step of the CRC-14 shift register: shift right, and fold the
/// polynomial 0x22f0 in when a one falls out.
pub open spec fn crc14_shift(crc: u16) -> u16 {
    if crc & 1 != 0 {
        (crc >> 1) ^ 0x22f0
    } else {
        crc >> 1
    }
}

/// `n` steps of the CRC-14 shift register.
pub open spec fn crc14_shifts(crc: u16, n: nat) -> u16
    decreases n,
{
    if n == 0 {
        crc
    } else {
        crc14_shift(crc14_shifts(crc, (n - 1) as nat))
    }
}

/// The CRC-14 register after `data`: seeded with 0x3fff, each byte is folded
/// in and shifted through, eight steps a byte.
pub open spec fn crc14_register(data: Seq<u8>) -> u16
    decreases data.len(),
{
    if data.len() == 0 {
        0x3fff
    } else {
        crc14_shifts(crc14_register(data.drop_last()) ^ (data.last() as u16), 8)
    }
}

/// The CRC-14 of `data`: the final register, inverted.
pub open spec fn crc14_of(data: Seq<u8>) -> u16 {
    crc14_register(data) ^ 0x3fff
}

/// Computes the CRC-7 of `data`.
pub fn crc7(data: &[u8]) -> (crc: u8)
    ensures
        crc == crc7_of(data@),
{
    let mut crc: u8 = 0x7f;
    let mut i: usize = 0;
    while i < data.len()
        invariant
            i <= data@.len(),
            crc == crc7_register(data@.take(i as int)),
        decreases data@.len() - i,
    {
        assert(data@.take(i + 1).drop_last() =~= data@.take(i as int));
        crc = crc ^ data[i];
        let ghost folded = crc;
        let mut j: u8 = 0;
        while j < 8
            invariant
                j <= 8,
                crc == crc7_shifts(folded, j as nat),
            decreases 8 - j,
        {
            if (crc & 1) != 0 {
                crc = (crc >> 1) ^ 0x76;
            } else {
                crc = crc >> 1;
            }
            j += 1;
        }
        i += 1;
    }
    assert(data@.take(i as int) =~= data@);
    crc ^ 0x7f
}

/// Computes the CRC-14 of `data`.
pub fn crc14(data: &[u8]) -> (crc: u16)
    ensures
        crc == crc14_of(data@),
{
    let mut crc: u16 = 0x3fff;
    let mut i: usize = 0;
    while i < data.len()
        invariant
            i <= data@.len(),
            crc == crc14_register(data@.take(i as int)),
        decreases data@.len() - i,
    {
        assert(data@.take(i + 1).drop_last() =~= data@.take(i as int));
        crc = crc ^ (data[i] as u16);
        let ghost folded = crc;
        let mut j: u8 = 0;
        while j < 8
            invariant
                j <= 8,
                crc == crc14_shifts(folded, j as nat),
            decreases 8 - j,
        {
            if (crc & 1) != 0 {
                crc = (crc >> 1) ^ 0x22f0;
            } else {
                crc = crc >> 1;
            }
            j += 1;
        }
        i += 1;
    }
    assert(data@.take(i as int) =~= data@);
    crc ^ 0x3fff
}

/// The two bytes that carry a CRC-14 in a frame: its seven low bits, then
/// its seven high bits.
pub open spec fn crc14_bytes(data: Seq<u8>) -> Seq<u8> {
    seq![packed_low(crc14_of(data) as nat), packed_high(crc14_of(data) as nat)]
}

/// Computes the CRC-14 of `data` as the two bytes that go into a frame.
pub fn crc14_to_buf(data: &[u8]) -> (buf: [u8; 2])
    ensures
        buf@ == crc14_bytes(data@),
{
    let crc = crc14(data);
    assert(crc & 127 == crc % 128) by (bit_vector);
    assert((crc >> 7) & 127 == (crc / 128) % 128) by (bit_vector);
    let buf: [u8; 2] = [(crc & 127) as u8, ((crc >> 7) & 127) as u8];
    assert(buf@ =~= crc14_bytes(data@));
    buf
}

/// Whether `address` can be sent in a CRC frame: with the offset added it
/// must still fit in a byte.
pub open spec fn address_in_range(address: u8) -> bool {
    address + PACKET_ADDR_OFFSET <= 255
}

/// The description carried by the error for an address that cannot be sent.
pub open spec fn address_fault() -> Seq<char> {
    "address out of range for CRC frames"@
}

/// The bytes of the frame that sets `data_value` on `target`.
pub open spec fn set_frame(
    address: u8,
    command_value: CommandSet,
    data_value: i32,
    target: [u8; 2],
) -> Seq<u8> {
    let header = seq![
        (address + PACKET_ADDR_OFFSET) as u8,
        CMD_NUM_SET,
        signed_code(command_value.spec_code(), data_value as int) as u8,
    ];
    let payload = seq![
        packed_low(magnitude(data_value as int)),
        packed_high(magnitude(data_value as int)),
        target[0],
        target[1],
    ];
    header + seq![crc7_of(header)] + payload + crc14_bytes(payload)
}

/// The bytes of the frame that asks `source` for a value.
pub open spec fn get_frame(address: u8, command_value: CommandGet, source: [u8; 2]) -> Seq<u8> {
    let header = seq![
        (address + PACKET_ADDR_OFFSET) as u8,
        CMD_NUM_GET,
        command_value.spec_code(),
    ];
    let payload = seq![source[0], source[1]];
    header + seq![crc7_of(header)] + payload + crc14_bytes(payload)
}

/// Whether `resp` is an intact reply frame from the device at `address`,
/// and if not, the first reason why: its length, then its CRC-7 and CRC-14,
/// then its address, which is transmitted with the offset added.
pub open spec fn reply_validity(resp: Seq<u8>, address: u8) -> Result<(), ParseError> {
    if resp.len() != PACKET_REPLY_SIZE {
        Err(ParseError::PacketSize)
    } else if resp[3] != crc7_of(resp.subrange(0, 3)) || resp.subrange(8, 10) != crc14_bytes(
        resp.subrange(4, 8),
    ) {
        Err(ParseError::ChecksumError)
    } else if resp[0] != address + PACKET_ADDR_OFFSET {
        Err(ParseError::AddressError)
    } else {
        Ok(())
    }
}

/// A "set" frame under CRC protection.
#[derive(Clone, PartialEq, Eq, Debug)]
pub struct PacketSet([u8; PACKET_SET_SIZE]);

impl View for PacketSet {
    type V = Seq<u8>;

    closed spec fn view(&self) -> Seq<u8> {
        self.0@
    }
}

impl PacketSet {
    /// Builds the frame that sets `data_value` on `target`. A negative datum
    /// is sent as its magnitude under the command value plus one. An address
    /// above 143 cannot be sent and is refused.
    pub fn new(address: u8, command_value: CommandSet, data_value: i32, target: [u8; 2]) -> (r:
        Result<PacketSet, Error>)
        ensures
            address_in_range(address) ==> r is Ok && r->Ok_0@ == set_frame(
                address,
                command_value,
                data_value,
                target,
            ),
            !address_in_range(address) ==> (r matches Err(Error::InvalidInput(msg)) && msg@
                == address_fault()),
    {
        if address > u8::MAX - PACKET_ADDR_OFFSET {
            return Err(Error::InvalidInput("address out of range for CRC frames".to_owned()));
        }
        let (command, data) = encode_datum(command_value, data_value);
        let sent_address = address + PACKET_ADDR_OFFSET;
        let crc = crc7(&[sent_address, CMD_NUM_SET, command]);
        let crcdata = crc14_to_buf(&[data[0], data[1], target[0], target[1]]);
        let buf: [u8; PACKET_SET_SIZE] = [
            sent_address,
            CMD_NUM_SET,
            command,
            crc,
            data[0],
            data[1],
            target[0],
            target[1],
            crcdata[0],
            crcdata[1],
        ];
        proof {
            assert([sent_address, CMD_NUM_SET, command]@ =~= seq![
                sent_address,
                CMD_NUM_SET,
                command,
            ]);
            assert([data[0], data[1], target[0], target[1]]@ =~= seq![
                data[0],
                data[1],
                target[0],
                target[1],
            ]);
            assert(buf@ =~= set_frame(address, command_value, data_value, target));
        }
        Ok(PacketSet(buf))
    }

    /// The bytes of the frame, in transmission order.
    pub fn as_ref(&self) -> (bytes: &[u8])
        ensures
            bytes@ == self@,
    {
        &self.0
    }
}

/// A "get" frame under CRC protection.
#[derive(Clone, PartialEq, Eq, Debug)]
pub struct PacketGet([u8; PACKET_GET_SIZE]);

impl View for PacketGet {
    type V = Seq<u8>;

    closed spec fn view(&self) -> Seq<u8> {
        self.0@
    }
}

impl PacketGet {
    /// Builds the frame that asks `source` for the value named by
    /// `command_value`. An address above 143 cannot be sent and is refused.
    pub fn new(address: u8, command_value: CommandGet, source: [u8; 2]) -> (r: Result<
        PacketGet,
        Error,
    >)
        ensures
            address_in_range(address) ==> r is Ok && r->Ok_0@ == get_frame(
                address,
                command_value,
                source,
            ),
            !address_in_range(address) ==> (r matches Err(Error::InvalidInput(msg)) && msg@
                == address_fault()),
    {
        if address > u8::MAX - PACKET_ADDR_OFFSET {
            return Err(Error::InvalidInput("address out of range for CRC frames".to_owned()));
        }
        let command = command_value.code();
        let sent_address = address + PACKET_ADDR_OFFSET;
        let crc = crc7(&[sent_address, CMD_NUM_GET, command]);
        let crcdata = crc14_to_buf(&[source[0], source[1]]);
        let buf: [u8; PACKET_GET_SIZE] = [
            sent_address,
            CMD_NUM_GET,
            command,
            crc,
            source[0],
            source[1],
            crcdata[0],
            crcdata[1],
        ];
        proof {
            assert([sent_address, CMD_NUM_GET, command]@ =~= seq![
                sent_address,
                CMD_NUM_GET,
                command,
            ]);
            assert([source[0], source[1]]@ =~= seq![source[0], source[1]]);
            assert(buf@ =~= get_frame(address, command_value, source));
        }
        Ok(PacketGet(buf))
    }

    /// The bytes of the frame, in transmission order.
    pub fn as_ref(&self) -> (bytes: &[u8])
        ensures
            bytes@ == self@,
    {
        &self.0
    }
}

/// Checks a reply frame: its length, then its CRC-7 and CRC-14, then its
/// address. Each failure has its own error.
pub fn packet_is_valid(resp: &[u8], address: u8) -> (r: Result<(), ParseError>)
    ensures
        r == reply_validity(resp@, address),
{
    if resp.len() != PACKET_REPLY_SIZE {
        return Err(ParseError::PacketSize);
    }
    let crcdata = crc14_to_buf(slice_subrange(resp, 4, 8));
    assert(resp@.subrange(8, 10) =~= seq![resp@[8], resp@[9]]);
    if resp[3] != crc7(slice_subrange(resp, 0, 3)) || resp[8] != crcdata[0] || resp[9]
        != crcdata[1] {
        Err(ParseError::ChecksumError)
    } else if resp[0] as u16 != address as u16 + PACKET_ADDR_OFFSET as u16 {
        Err(ParseError::AddressError)
    } else {
        assert(resp@.subrange(8, 10) =~= crc14_bytes(resp@.subrange(4, 8)));
        Ok(())
    }
}

/// Shifting is linear over exclusive-or.
proof fn lemma_crc7_shifts_linear(x: u8, y: u8, n: nat)
    ensures
        crc7_shifts(x, n) ^ crc7_shifts(y, n) == crc7_shifts(x ^ y, n),
    decreases n,
{
    if n > 0 {
        lemma_crc7_shifts_linear(x, y, (n - 1) as nat);
        let p = crc7_shifts(x, (n - 1) as nat);
        let q = crc7_shifts(y, (n - 1) as nat);
        assert(crc7_shift(p) ^ crc7_shift(q) == crc7_shift(p ^ q)) by (bit_vector);
    }
}

/// After at least one step the register holds seven bits.
proof fn lemma_crc7_shifts_range(x: u8, n: nat)
    requires
        n > 0,
    ensures
        crc7_shifts(x, n) < 0x80,
{
    let p = crc7_shifts(x, (n - 1) as nat);
    assert(crc7_shift(p) < 0x80) by (bit_vector);
}

/// Shifting sends no value to zero but zero itself and 0xed, which has its
/// top bit set.
proof fn lemma_crc7_shifts_nonzero(x: u8, n: nat)
    requires
        x != 0,
        x != 0xed,
    ensures
        crc7_shifts(x, n) != 0,
        crc7_shifts(x, n) != 0xed,
    decreases n,
{
    if n > 0 {
        lemma_crc7_shifts_nonzero(x, (n - 1) as nat);
        let p = crc7_shifts(x, (n - 1) as nat);
        assert(p != 0 && p != 0xed ==> crc7_shift(p) != 0 && crc7_shift(p) != 0xed)
            by (bit_vector);
    }
}

/// Shifting is linear over exclusive-or.
proof fn lemma_crc14_shifts_linear(x: u16, y: u16, n: nat)
    ensures
        crc14_shifts(x, n) ^ crc14_shifts(y, n) == crc14_shifts(x ^ y, n),
    decreases n,
{
    if n > 0 {
        lemma_crc14_shifts_linear(x, y, (n - 1) as nat);
        let p = crc14_shifts(x, (n - 1) as nat);
        let q = crc14_shifts(y, (n - 1) as nat);
        assert(crc14_shift(p) ^ crc14_shift(q) == crc14_shift(p ^ q)) by (bit_vector);
    }
}

/// Shifting keeps fourteen bits within fourteen bits, and sends none of
/// them to zero but zero itself.
proof fn lemma_crc14_shifts_range(x: u16, n: nat)
    requires
        x < 0x4000,
    ensures
        crc14_shifts(x, n) < 0x4000,
        x != 0 ==> crc14_shifts(x, n) != 0,
    decreases n,
{
    if n > 0 {
        lemma_crc14_shifts_range(x, (n - 1) as nat);
        let p = crc14_shifts(x, (n - 1) as nat);
        assert(p < 0x4000 ==> crc14_shift(p) < 0x4000) by (bit_vector);
        assert(p != 0 && p < 0x4000 ==> crc14_shift(p) != 0) by (bit_vector);
    }
}

/// The CRC-7 never leaves its seven bits.
pub proof fn lemma_crc7_range(data: Seq<u8>)
    ensures
        crc7_register(data) < 0x80,
        crc7_of(data) < 0x80,
{
    let r = crc7_register(data);
    if data.len() > 0 {
        lemma_crc7_shifts_range(crc7_register(data.drop_last()) ^ data.last(), 8);
    }
    assert(r < 0x80 ==> r ^ 0x7f < 0x80) by (bit_vector);
}

/// The CRC-14 never leaves its fourteen bits.
pub proof fn lemma_crc14_range(data: Seq<u8>)
    ensures
        crc14_register(data) < 0x4000,
        crc14_of(data) < 0x4000,
    decreases data.len(),
{
    let r = crc14_register(data);
    if data.len() > 0 {
        lemma_crc14_range(data.drop_last());
        let s = crc14_register(data.drop_last());
        let b = data.last();
        assert(s < 0x4000 ==> s ^ (b as u16) < 0x4000) by (bit_vector);
        lemma_crc14_shifts_range(s ^ (b as u16), 8);
    }
    assert(r < 0x4000 ==> r ^ 0x3fff < 0x4000) by (bit_vector);
}

/// Two messages of one length that differ in a single byte, by anything but
/// the pattern 0xed, have different CRC-7s. A single inverted bit is such a
/// difference.
pub proof fn lemma_crc7_detects(a: Seq<u8>, b: Seq<u8>, index: int)
    requires
        a.len() == b.len(),
        0 <= index < a.len(),
        forall|j: int| 0 <= j < a.len() && j != index ==> a[j] == b[j],
        a[index] != b[index],
        a[index] ^ b[index] != 0xed,
    ensures
        crc7_register(a) != crc7_register(b),
        crc7_of(a) != crc7_of(b),
    decreases a.len(),
{
    let ra = crc7_register(a.drop_last());
    let rb = crc7_register(b.drop_last());
    let xa = a.last();
    let xb = b.last();
    let diff = (ra ^ xa) ^ (rb ^ xb);
    lemma_crc7_shifts_linear(ra ^ xa, rb ^ xb, 8);
    lemma_crc7_range(a.drop_last());
    lemma_crc7_range(b.drop_last());
    if index == a.len() - 1 {
        assert(a.drop_last() =~= b.drop_last());
        assert((ra ^ xa) ^ (ra ^ xb) == xa ^ xb) by (bit_vector);
        assert(xa != xb ==> xa ^ xb != 0) by (bit_vector);
    } else {
        lemma_crc7_detects(a.drop_last(), b.drop_last(), index);
        assert((ra ^ xa) ^ (rb ^ xa) == ra ^ rb) by (bit_vector);
        assert(ra != rb ==> ra ^ rb != 0) by (bit_vector);
        assert(ra < 0x80 && rb < 0x80 ==> ra ^ rb != 0xed) by (bit_vector);
    }
    lemma_crc7_shifts_nonzero(diff, 8);
    let ca = crc7_register(a);
    let cb = crc7_register(b);
    assert(ca ^ cb != 0 ==> ca != cb) by (bit_vector);
    assert(ca != cb ==> ca ^ 0x7f != cb ^ 0x7f) by (bit_vector);
}

/// Two messages of one length that differ in a single byte have different
/// CRC-14s.
pub proof fn lemma_crc14_detects(a: Seq<u8>, b: Seq<u8>, index: int)
    requires
        a.len() == b.len(),
        0 <= index < a.len(),
        forall|j: int| 0 <= j < a.len() && j != index ==> a[j] == b[j],
        a[index] != b[index],
    ensures
        crc14_register(a) != crc14_register(b),
        crc14_of(a) != crc14_of(b),
    decreases a.len(),
{
    let ra = crc14_register(a.drop_last());
    let rb = crc14_register(b.drop_last());
    let xa = a.last() as u16;
    let xb = b.last() as u16;
    let diff = (ra ^ xa) ^ (rb ^ xb);
    lemma_crc14_shifts_linear(ra ^ xa, rb ^ xb, 8);
    lemma_crc14_range(a.drop_last());
    lemma_crc14_range(b.drop_last());
    if index == a.len() - 1 {
        assert(a.drop_last() =~= b.drop_last());
        assert((ra ^ xa) ^ (ra ^ xb) == xa ^ xb) by (bit_vector);
        assert(xa != xb && xa < 0x100 && xb < 0x100 ==> xa ^ xb != 0 && xa ^ xb < 0x4000)
            by (bit_vector);
    } else {
        lemma_crc14_detects(a.drop_last(), b.drop_last(), index);
        assert((ra ^ xa) ^ (rb ^ xa) == ra ^ rb) by (bit_vector);
        assert(ra != rb && ra < 0x4000 && rb < 0x4000 ==> ra ^ rb != 0 && ra ^ rb < 0x4000)
            by (bit_vector);
    }
    lemma_crc14_shifts_range(diff, 8);
    let ca = crc14_register(a);
    let cb = crc14_register(b);
    assert(ca ^ cb != 0 ==> ca != cb) by (bit_vector);
    assert(ca != cb ==> ca ^ 0x3fff != cb ^ 0x3fff) by (bit_vector);
}

/// No single inverted bit survives the check of a CRC reply: a reply that is
/// accepted is refused once any one bit of any of its ten bytes is inverted.
pub proof fn lemma_single_bit_flip_is_rejected(resp: Seq<u8>, address: u8, index: int, bit: u8)
    requires
        reply_validity(resp, address) is Ok,
        0 <= index < PACKET_REPLY_SIZE,
        bit < 8,
    ensures
        reply_validity(flip_bit(resp, index, bit), address) is Err,
{
    let flipped = flip_bit(resp, index, bit);
    let x = resp[index];
    assert(bit < 8 ==> x ^ (1u8 << bit) != x && (x ^ (x ^ (1u8 << bit))) != 0xed)
        by (bit_vector);
    if index < 3 {
        let a = resp.subrange(0, 3);
        let b = flipped.subrange(0, 3);
        lemma_crc7_detects(a, b, index);
    } else if index == 3 {
        assert(flipped.subrange(0, 3) =~= resp.subrange(0, 3));
    } else if index < 8 {
        let a = resp.subrange(4, 8);
        let b = flipped.subrange(4, 8);
        lemma_crc14_detects(a, b, index - 4);
        lemma_crc14_range(a);
        lemma_crc14_range(b);
        assert(flipped.subrange(8, 10) =~= resp.subrange(8, 10));
        assert(crc14_bytes(a)[0] == packed_low(crc14_of(a) as nat));
        assert(crc14_bytes(a)[1] == packed_high(crc14_of(a) as nat));
        assert(crc14_bytes(b)[0] == packed_low(crc14_of(b) as nat));
        assert(crc14_bytes(b)[1] == packed_high(crc14_of(b) as nat));
    } else {
        assert(flipped.subrange(4, 8) =~= resp.subrange(4, 8));
        assert(flipped.subrange(8, 10)[index - 8] != resp.subrange(8, 10)[index - 8]);
    }
}

} // verus!
