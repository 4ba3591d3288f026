//! The "Plain Text" protocol: commands and replies as lines of text.

use vstd::prelude::*;
use vstd::string::{StrSliceExecFns, StringExecFns, StringSliceAdditionalSpecFns};
use vstd::utf8::{decode_utf8, encode_utf8, valid_utf8};
use crate::binary32::{divided, in_unit_range, multiplied, Binary32};
use crate::error::Error;
use crate::port::{continues, Call, Recorded, SabertoothSerial};
use crate::sabertooth2x32::Sabertooth2x32;
use crate::utils::{
    channel_exists, channel_fault, channel_name, channel_text, ratio_fault, ratio_on_scale,
    ratio_to_value, signed_decimal, signed_decimal_string, value_to_ratio, RANGE_MAX, RANGE_MIN,
};

verus! {

/// Longest reply that is waited for, in bytes.
pub const RESPONSE_SIZE: usize = 32;

/// The byte that ends a reply.
pub const ENDFLAG: u8 = 0x0a;

/// One tenth, as single precision has it.
pub const ONE_TENTH: u32 = 0x3dcc_cccd;

/// What a scan skips over.
#[derive(Clone, Copy, PartialEq, Eq, Structural, Debug)]
pub enum CharClass {
    /// The NUL character, which pads the receive buffer.
    Nul,
    /// White space, as Unicode defines it.
    WhiteSpace,
    /// Everything but a colon.
    BeforeColon,
    /// Everything that cannot start a value: neither an ASCII letter or
    /// digit, nor a minus sign.
    Filler,
    /// What a number is made of: ASCII digits and minus signs.
    NumberPart,
}

/// Whether `c` is white space: a character with the Unicode property
/// `White_Space`.
pub open spec fn is_white_space(c: char) -> bool {
    let u = c as u32;
    (0x09 <= u <= 0x0d) || u == 0x20 || u == 0x85 || u == 0xa0 || u == 0x1680 || (0x2000 <= u
        <= 0x200a) || u == 0x2028 || u == 0x2029 || u == 0x202f || u == 0x205f || u == 0x3000
}

/// Whether `c` is an ASCII digit.
pub open spec fn is_digit(c: char) -> bool {
    0x30 <= c as u32 <= 0x39
}

/// Whether `c` is an ASCII letter.
pub open spec fn is_letter(c: char) -> bool {
    (0x41 <= c as u32 <= 0x5a) || (0x61 <= c as u32 <= 0x7a)
}

impl CharClass {
    /// Whether `c` belongs to the class.
    pub open spec fn holds(self, c: char) -> bool {
        match self {
            CharClass::Nul => c as u32 == 0,
            CharClass::WhiteSpace => is_white_space(c),
            CharClass::BeforeColon => c as u32 != 0x3a,
            CharClass::Filler => !is_digit(c) && !is_letter(c) && c as u32 != 0x2d,
            CharClass::NumberPart => is_digit(c) || c as u32 == 0x2d,
        }
    }

    /// Tests whether `c` belongs to the class.
    pub fn test(self, c: char) -> (b: bool)
        ensures
            b == self.holds(c),
    {
        let u: u32 = c as u32;
        let digit = 0x30 <= u && u <= 0x39;
        let letter = (0x41 <= u && u <= 0x5a) || (0x61 <= u && u <= 0x7a);
        match self {
            CharClass::Nul => u == 0,
            CharClass::WhiteSpace => (0x09 <= u && u <= 0x0d) || u == 0x20 || u == 0x85 || u
                == 0xa0 || u == 0x1680 || (0x2000 <= u && u <= 0x200a) || u == 0x2028 || u
                == 0x2029 || u == 0x202f || u == 0x205f || u == 0x3000,
            CharClass::BeforeColon => u != 0x3a,
            CharClass::Filler => !digit && !letter && u != 0x2d,
            CharClass::NumberPart => digit || u == 0x2d,
        }
    }
}

/// The first position at or after `from` that holds a character outside
/// `class`, or the length of the text if there is none.
pub open spec fn skipped(text: Seq<char>, from: int, class: CharClass) -> int
    decreases text.len() - from,
{
    if 0 <= from < text.len() && class.holds(text[from]) {
        skipped(text, from + 1, class)
    } else {
        from
    }
}

/// The end of the text once the characters of `class` at its end are cut
/// off, looking no further back than `to`.
pub open spec fn skipped_back(text: Seq<char>, to: int, class: CharClass) -> int
    decreases to,
{
    if 0 < to <= text.len() && class.holds(text[to - 1]) {
        skipped_back(text, to - 1, class)
    } else {
        to
    }
}

/// The text without the characters of `class` at its two ends.
pub open spec fn trimmed(text: Seq<char>, class: CharClass) -> Seq<char> {
    let start = skipped(text, 0, class);
    let end = skipped_back(text, text.len() as int, class);
    if start < end {
        text.subrange(start, end)
    } else {
        Seq::empty()
    }
}

/// The number that a string of decimal digits writes.
pub open spec fn natural(digits: Seq<char>) -> nat
    decreases digits.len(),
{
    if digits.len() == 0 {
        0
    } else if is_digit(digits.last()) {
        natural(digits.drop_last()) * 10 + (digits.last() as u32 - 0x30) as nat
    } else {
        natural(digits.drop_last()) * 10
    }
}

/// Whether the text holds nothing but ASCII digits.
pub open spec fn all_digits(text: Seq<char>) -> bool {
    forall|i: int| 0 <= i < text.len() ==> is_digit(#[trigger] text[i])
}

/// The 32-bit integer that the text writes: decimal digits, at least one,
/// after at most one minus sign. Anything else, or a number out of range,
/// is no integer.
pub open spec fn number(text: Seq<char>) -> Option<int> {
    let negative = text.len() > 0 && text[0] as u32 == 0x2d;
    let digits = if negative {
        text.subrange(1, text.len() as int)
    } else {
        text
    };
    let value = if negative {
        -(natural(digits) as int)
    } else {
        natural(digits) as int
    };
    if digits.len() > 0 && all_digits(digits) && i32::MIN <= value <= i32::MAX {
        Some(value)
    } else {
        None
    }
}

/// The components of a reply: token, channel, prefix if there is one, and
/// value. The reply `M1: C-23` splits into `('M', '1', Some('C'), -23)`.
#[derive(PartialEq, Eq, Debug, Clone, Copy)]
pub struct SplitResponse(pub char, pub char, pub Option<char>, pub i32);

/// The components of a reply, where it has the shape of one. Padding and
/// white space around the reply do not count. The first two characters are
/// token and channel. After them comes a colon, sooner or later; after the
/// colon, the first letter, digit or minus sign starts the value, and a
/// letter there is the prefix. Then comes the number, as far as digits and
/// minus signs reach.
pub open spec fn split(text: Seq<char>) -> Option<SplitResponse> {
    let reply = trimmed(trimmed(text, CharClass::Nul), CharClass::WhiteSpace);
    let colon = skipped(reply, 2, CharClass::BeforeColon);
    let start = skipped(reply, colon + 1, CharClass::Filler);
    let first = if start < reply.len() && is_letter(reply[start]) {
        start + 1
    } else {
        start
    };
    let end = skipped(reply, first, CharClass::NumberPart);
    if reply.len() < 2 || colon >= reply.len() || start >= reply.len() {
        None
    } else {
        match number(reply.subrange(first, end)) {
            Some(value) => Some(
                SplitResponse(
                    reply[0],
                    reply[1],
                    if first > start {
                        Some(reply[start])
                    } else {
                        None
                    },
                    value as i32,
                ),
            ),
            None => None,
        }
    }
}

/// What received bytes say: the components of the reply they hold, or the
/// description of what is wrong with them.
pub open spec fn reading(rxdata: Seq<u8>) -> Result<SplitResponse, Seq<char>> {
    if !valid_utf8(rxdata) {
        Err("Invalid response, not readable"@)
    } else {
        match split(decode_utf8(rxdata)) {
            Some(parts) => Ok(parts),
            None => Err("Parse failure"@),
        }
    }
}

/// What a reply to a request says: its value, where token, channel and
/// prefix are those asked for, or the description of what is wrong with it.
pub open spec fn value_reading(
    rxdata: Seq<u8>,
    token: char,
    channel: char,
    prefix: Option<char>,
) -> Result<int, Seq<char>> {
    match reading(rxdata) {
        Ok(parts) => {
            if parts.0 != token || parts.1 != channel || parts.2 != prefix {
                Err("Invalid response"@)
            } else {
                Ok(parts.3 as int)
            }
        },
        Err(fault) => Err(fault),
    }
}

/// The characters of a command line: token, channel, a colon and a space,
/// the value, and the end of line.
pub open spec fn line(token: Seq<char>, channel: Seq<char>, value: Seq<char>) -> Seq<char> {
    token + channel + ": "@ + value + "\r\n"@
}

/// `std::str::from_utf8`: the text that `bytes` encode, where they are
/// well-formed UTF-8, and nothing where they are not.
#[verifier::external_body]
fn text_of(bytes: &[u8]) -> (r: Option<&str>)
    ensures
        r is Some <==> valid_utf8(bytes@),
        r matches Some(text) ==> text@ == decode_utf8(bytes@),
{
    std::str::from_utf8(bytes).ok()
}

/// Skips the characters of `class` from `from` on.
fn skip(text: &Vec<char>, from: usize, class: CharClass) -> (i: usize)
    requires
        from <= text@.len(),
    ensures
        i == skipped(text@, from as int, class),
        from <= i <= text@.len(),
{
    let mut i = from;
    while i < text.len() && class.test(text[i])
        invariant
            from <= i <= text@.len(),
            skipped(text@, from as int, class) == skipped(text@, i as int, class),
        decreases text@.len() - i,
    {
        i += 1;
    }
    i
}

/// Cuts the characters of `class` off both ends of the text.
fn trim(text: &Vec<char>, class: CharClass) -> (out: Vec<char>)
    ensures
        out@ == trimmed(text@, class),
{
    let start = skip(text, 0, class);
    let mut end = text.len();
    while end > 0 && class.test(text[end - 1])
        invariant
            end <= text@.len(),
            skipped_back(text@, text@.len() as int, class) == skipped_back(
                text@,
                end as int,
                class,
            ),
        decreases end,
    {
        end -= 1;
    }
    let mut out: Vec<char> = Vec::new();
    if start < end {
        let mut i = start;
        while i < end
            invariant
                start <= i <= end <= text@.len(),
                out@ == text@.subrange(start as int, i as int),
            decreases end - i,
        {
            out.push(text[i]);
            assert(text@.subrange(start as int, i + 1) =~= text@.subrange(
                start as int,
                i as int,
            ).push(text@[i as int]));
            i += 1;
        }
    }
    out
}

/// A number grows with every character that is added to it.
proof fn lemma_natural_grows(digits: Seq<char>, k: int)
    requires
        0 <= k <= digits.len(),
    ensures
        natural(digits.take(k)) <= natural(digits),
    decreases digits.len() - k,
{
    if k < digits.len() {
        lemma_natural_grows(digits, k + 1);
        assert(digits.take(k + 1).drop_last() =~= digits.take(k));
    } else {
        assert(digits.take(k) =~= digits);
    }
}

/// Reads the 32-bit integer written between `from` and `to`.
fn parse_number(text: &Vec<char>, from: usize, to: usize) -> (r: Option<i32>)
    requires
        from <= to <= text@.len(),
    ensures
        match number(text@.subrange(from as int, to as int)) {
            Some(value) => r == Some(value as i32),
            None => r is None,
        },
{
    let ghost whole = text@.subrange(from as int, to as int);
    let negative = from < to && text[from] as u32 == 0x2d;
    let start = if negative {
        from + 1
    } else {
        from
    };
    let ghost digits = if negative {
        whole.subrange(1, whole.len() as int)
    } else {
        whole
    };
    assert(digits =~= text@.subrange(start as int, to as int));
    if start == to {
        return None;
    }
    let mut size: u64 = 0;
    let mut i = start;
    while i < to
        invariant
            start <= i <= to <= text@.len(),
            digits == text@.subrange(start as int, to as int),
            whole == text@.subrange(from as int, to as int),
            number(whole) == if all_digits(digits) && i32::MIN <= (if negative {
                -(natural(digits) as int)
            } else {
                natural(digits) as int
            }) <= i32::MAX {
                Some(
                    if negative {
                        -(natural(digits) as int)
                    } else {
                        natural(digits) as int
                    },
                )
            } else {
                None
            },
            size == natural(digits.take(i - start)),
            all_digits(digits.take(i - start)),
            size <= 0x8000_0000,
        decreases to - i,
    {
        let u: u32 = text[i] as u32;
        if !(0x30 <= u && u <= 0x39) {
            assert(!is_digit(digits[i - start]));
            return None;
        }
        assert(digits.take(i - start + 1).drop_last() =~= digits.take(i - start));
        size = size * 10 + (u - 0x30) as u64;
        if size > 0x8000_0000 {
            proof {
                lemma_natural_grows(digits, i - start + 1);
            }
            return None;
        }
        i += 1;
    }
    assert(digits.take(i - start) =~= digits);
    if negative {
        Some((-(size as i64)) as i32)
    } else if size > 0x7fff_ffff {
        None
    } else {
        Some(size as i32)
    }
}

/// Splits a reply into its components. Bytes that are no text are refused
/// as not readable; text that has not the shape of a reply, as a parse
/// failure.
pub fn split_response(rxdata: &[u8]) -> (r: Result<SplitResponse, Error>)
    ensures
        match reading(rxdata@) {
            Ok(parts) => r == Ok::<SplitResponse, Error>(parts),
            Err(fault) => r matches Err(Error::Response(msg)) && msg@ == fault,
        },
{
    let resp = match text_of(rxdata) {
        Some(resp) => resp,
        None => {
            return Err(Error::Response("Invalid response, not readable".to_owned()));
        },
    };
    let mut chars: Vec<char> = Vec::new();
    let count = resp.unicode_len();
    let mut i: usize = 0;
    while i < count
        invariant
            i <= count == resp@.len(),
            chars@ == resp@.take(i as int),
        decreases count - i,
    {
        chars.push(resp.get_char(i));
        assert(resp@.take(i + 1) =~= resp@.take(i as int).push(resp@[i as int]));
        i += 1;
    }
    assert(chars@ =~= resp@);
    let unpadded = trim(&chars, CharClass::Nul);
    let reply = trim(&unpadded, CharClass::WhiteSpace);
    if reply.len() < 2 {
        return Err(Error::Response("Parse failure".to_owned()));
    }
    let token = reply[0];
    let channel = reply[1];
    let colon = skip(&reply, 2, CharClass::BeforeColon);
    if colon >= reply.len() {
        return Err(Error::Response("Parse failure".to_owned()));
    }
    let start = skip(&reply, colon + 1, CharClass::Filler);
    if start >= reply.len() {
        return Err(Error::Response("Parse failure".to_owned()));
    }
    let u: u32 = reply[start] as u32;
    let (prefix, first) = if (0x41 <= u && u <= 0x5a) || (0x61 <= u && u <= 0x7a) {
        (Some(reply[start]), start + 1)
    } else {
        (None, start)
    };
    let end = skip(&reply, first, CharClass::NumberPart);
    match parse_number(&reply, first, end) {
        Some(value) => Ok(SplitResponse(token, channel, prefix, value)),
        None => Err(Error::Response("Parse failure".to_owned())),
    }
}

/// Reads the value of a reply to a request: splits the reply and checks
/// that token, channel and prefix are those asked for.
pub fn read_value(rxdata: &[u8], token: char, channel: char, prefix: Option<char>) -> (r: Result<
    i32,
    Error,
>)
    ensures
        match value_reading(rxdata@, token, channel, prefix) {
            Ok(value) => r == Ok::<i32, Error>(value as i32),
            Err(fault) => r matches Err(Error::Response(msg)) && msg@ == fault,
        },
{
    let splitted = match split_response(rxdata) {
        Ok(splitted) => splitted,
        Err(e) => {
            return Err(e);
        },
    };
    let same_prefix = match (splitted.2, prefix) {
        (Some(a), Some(b)) => a == b,
        (None, None) => true,
        _ => false,
    };
    if splitted.0 != token || splitted.1 != channel || !same_prefix {
        return Err(Error::Response("Invalid response".to_owned()));
    }
    Ok(splitted.3)
}

/// Builds a command line from token, channel and value.
pub fn make_cmd_str(token: &str, channel: &str, value: &str) -> (cmd: String)
    ensures
        cmd@ == line(token@, channel@, value@),
{
    token.to_owned().concat(channel).concat(": ").concat(value).concat("\r\n")
}

/// A number of calls for one byte each.
pub open spec fn single_reads(count: nat) -> Seq<Call> {
    Seq::new(count, |i: int| Call::Read(1))
}

/// The calls of an exchange with a device: what it has received is
/// discarded, the request is written, and the reply is asked for byte by
/// byte, in `reads` calls.
pub open spec fn text_exchange(request: Seq<u8>, reads: nat) -> Seq<Call> {
    seq![Call::Clear, Call::Write(request)] + single_reads(reads)
}

/// Interface using "Plain Text" protocol.
pub struct PlainText<T: SabertoothSerial> {
    dev: Recorded<T>,
}

impl<T: SabertoothSerial> PlainText<T> {
    /// The serial device that carries the lines.
    pub closed spec fn dev(&self) -> T {
        self.dev.dev()
    }

    /// What this interface has asked of its device so far, oldest first.
    pub closed spec fn calls(&self) -> Seq<Call> {
        self.dev.calls()
    }

    /// The bytes that this interface has handed to its device in writes
    /// that the device accepted, oldest first. (A write that the device
    /// fails is not counted: nothing is known of how much of it went out.)
    pub closed spec fn sent(&self) -> Seq<u8> {
        self.dev.sent()
    }

    /// Whether `r` refuses a call for the given reason, with nothing done:
    /// `after` is this interface as it was, its device untouched and
    /// nothing handed to it.
    pub open spec fn refuses<R>(&self, after: &Self, r: Result<R, Error>, fault: Seq<char>) -> bool {
        &&& r matches Err(Error::InvalidInput(msg)) && msg@ == fault
        &&& *after == *self
    }

    /// What sending a command promises. One thing is asked of the device:
    /// to write the line `text`, encoded as UTF-8. Where the call succeeds,
    /// the device has accepted the line; where it fails, it has not.
    pub open spec fn says(&self, after: &Self, r: Result<(), Error>, text: Seq<char>) -> bool {
        &&& after.calls() == self.calls().push(Call::Write(encode_utf8(text)))
        &&& r is Ok ==> after.sent() == self.sent() + encode_utf8(text)
        &&& r is Err ==> after.sent() == self.sent()
    }

    /// What an exchange of a request and its reply promises. The device is
    /// asked, in this order, to discard what it has received, to write the
    /// line `text`, and for the reply, byte by byte, in at most as many
    /// calls as the longest reply has bytes; the first of these calls that
    /// fails is the last. Where the call succeeds, the device has accepted
    /// the line, and the value returned is `value_of` applied to what some
    /// reply with the token, channel and prefix asked for reads as.
    /// Whatever happens, nothing but that line is handed over.
    pub open spec fn asks<R>(
        &self,
        after: &Self,
        r: Result<R, Error>,
        text: Seq<char>,
        token: char,
        channel: char,
        prefix: Option<char>,
        value_of: spec_fn(int) -> R,
    ) -> bool {
        &&& exists|reads: nat|
            1 <= reads <= RESPONSE_SIZE && continues(
                self.calls(),
                after.calls(),
                #[trigger] text_exchange(encode_utf8(text), reads),
                r is Ok,
            )
        &&& r is Ok ==> after.sent() == self.sent() + encode_utf8(text)
        &&& r is Err ==> after.sent() == self.sent() || after.sent() == self.sent() + encode_utf8(
            text,
        )
        &&& r matches Ok(value) ==> exists|rxdata: Seq<u8>, read: int|
            value_reading(rxdata, token, channel, prefix) == Ok::<int, Seq<char>>(read) && value
                == value_of(read)
    }

    /// Hands one line to the device.
    fn write_frame(&mut self, txdata: &[u8]) -> (r: Result<(), Error>)
        ensures
            final(self).calls() == old(self).calls().push(Call::Write(txdata@)),
            r is Ok ==> final(self).sent() == old(self).sent() + txdata@,
            r is Err ==> final(self).sent() == old(self).sent(),
    {
        self.dev.write_all(txdata)
    }

    /// Receives a reply byte by byte into `rxdata`, up to the end of line,
    /// the end of the buffer or the first read that brings nothing, and
    /// returns the number of bytes received.
    fn read_response(&mut self, rxdata: &mut [u8; 32]) -> (r: Result<usize, Error>)
        ensures
            exists|reads: nat|
                1 <= reads <= RESPONSE_SIZE && final(self).calls() == old(self).calls()
                    + #[trigger] single_reads(reads),
            final(self).sent() == old(self).sent(),
            r matches Ok(count) ==> count <= RESPONSE_SIZE,
    {
        let mut bytebuf = [0u8; 1];
        let mut count: usize = 0;
        let ghost mut asked: nat = 0;
        assert(self.calls() =~= old(self).calls() + single_reads(0));
        while count < RESPONSE_SIZE
            invariant_except_break
                asked == count,
            invariant
                count <= RESPONSE_SIZE,
                asked <= RESPONSE_SIZE,
                self.calls() == old(self).calls() + single_reads(asked),
                self.sent() == old(self).sent(),
            ensures
                asked >= 1,
            decreases RESPONSE_SIZE - count,
        {
            let read = self.dev.read(&mut bytebuf);
            proof {
                assert(single_reads(asked).push(Call::Read(1)) =~= single_reads(asked + 1));
                assert(self.calls() =~= old(self).calls() + single_reads(asked + 1));
                asked = asked + 1;
            }
            let got = match read {
                Ok(got) => got,
                Err(e) => {
                    return Err(e);
                },
            };
            if got != 1 {
                break ;
            }
            let byte = bytebuf[0];
            rxdata[count] = byte;
            count += 1;
            if byte == ENDFLAG {
                break ;
            }
        }
        Ok(count)
    }

    /// Sends the line that sets the command value of `percent` on the token
    /// and channel. A channel that does not exist is refused, then a ratio
    /// beyond one in magnitude, before anything reaches the device.
    fn send_percent_to_channel(&mut self, token: &str, channel: usize, percent: Binary32) -> (r:
        Result<(), Error>)
        ensures
            !channel_exists(channel) ==> old(self).refuses(final(self), r, channel_fault(channel)),
            channel_exists(channel) && !in_unit_range(percent@) ==> old(self).refuses(
                final(self),
                r,
                ratio_fault(),
            ),
            channel_exists(channel) && in_unit_range(percent@) ==> old(self).says(
                final(self),
                r,
                line(
                    token@,
                    channel_text(channel),
                    signed_decimal(ratio_on_scale(percent@, RANGE_MIN as int, RANGE_MAX as int)),
                ),
            ),
    {
        match channel_name(channel) {
            Ok(name) => self.send_percent(token, name, percent),
            Err(e) => Err(e),
        }
    }

    /// Sends the line that sets the command value of `percent` on the token
    /// and channel. A ratio beyond one in magnitude is refused before
    /// anything reaches the device.
    fn send_percent(&mut self, token: &str, channel: &str, percent: Binary32) -> (r: Result<
        (),
        Error,
    >)
        ensures
            !in_unit_range(percent@) ==> old(self).refuses(final(self), r, ratio_fault()),
            in_unit_range(percent@) ==> old(self).says(
                final(self),
                r,
                line(
                    token@,
                    channel@,
                    signed_decimal(ratio_on_scale(percent@, RANGE_MIN as int, RANGE_MAX as int)),
                ),
            ),
    {
        let value = match ratio_to_value(percent) {
            Ok(value) => value,
            Err(e) => {
                return Err(e);
            },
        };
        let cmdstr = make_cmd_str(token, channel, signed_decimal_string(value).as_str());
        self.write_frame(cmdstr.as_str().as_bytes())
    }

    /// Sends the line made of token, channel and `word`.
    fn send_word(&mut self, token: &str, channel: usize, word: &str) -> (r: Result<(), Error>)
        ensures
            !channel_exists(channel) ==> old(self).refuses(final(self), r, channel_fault(channel)),
            channel_exists(channel) ==> old(self).says(
                final(self),
                r,
                line(token@, channel_text(channel), word@),
            ),
    {
        match channel_name(channel) {
            Ok(name) => {
                let cmdstr = make_cmd_str(token, name, word);
                self.write_frame(cmdstr.as_str().as_bytes())
            },
            Err(e) => Err(e),
        }
    }

    /// Discards what was received so far, sends a request, and receives the
    /// reply into `rxdata`.
    fn request(&mut self, txdata: &[u8], rxdata: &mut [u8; 32]) -> (r: Result<usize, Error>)
        ensures
            exists|reads: nat|
                1 <= reads <= RESPONSE_SIZE && continues(
                    old(self).calls(),
                    final(self).calls(),
                    #[trigger] text_exchange(txdata@, reads),
                    r is Ok,
                ),
            r is Ok ==> final(self).sent() == old(self).sent() + txdata@,
            r is Err ==> final(self).sent() == old(self).sent() || final(self).sent() == old(
                self,
            ).sent() + txdata@,
    {
        let ghost before = self.calls();
        match self.dev.clear_all() {
            Ok(_) => {},
            Err(e) => {
                assert(self.calls() =~= before + text_exchange(txdata@, 1).take(1));
                return Err(e);
            },
        }
        match self.write_frame(txdata) {
            Ok(_) => {},
            Err(e) => {
                assert(self.calls() =~= before + text_exchange(txdata@, 1).take(2));
                return Err(e);
            },
        }
        let ghost written = self.calls();
        let r = self.read_response(rxdata);
        proof {
            let reads = choose|reads: nat|
                1 <= reads <= RESPONSE_SIZE && self.calls() == written + #[trigger] single_reads(
                    reads,
                );
            let planned = text_exchange(txdata@, reads);
            assert(planned.take(planned.len() as int) =~= planned);
            assert(self.calls() =~= before + planned.take(planned.len() as int));
        }
        r
    }

    /// Asks the token and channel for a value with the request word `req`,
    /// and reads the reply with [`read_value`].
    fn get_value(&mut self, token: &str, ch: &str, prefix: Option<char>, req: &str) -> (r: Result<
        i32,
        Error,
    >)
        requires
            token@.len() == 1,
            ch@.len() == 1,
        ensures
            old(self).asks(
                final(self),
                r,
                line(token@, ch@, req@),
                token@[0],
                ch@[0],
                prefix,
                |read: int| read as i32,
            ),
    {
        let cmdstr = make_cmd_str(token, ch, req);
        let mut rxbuf = [0u8; 32];
        match self.request(cmdstr.as_str().as_bytes(), &mut rxbuf) {
            Ok(_) => {},
            Err(e) => {
                return Err(e);
            },
        }
        let r = read_value(&rxbuf, token.get_char(0), ch.get_char(0), prefix);
        proof {
            if let Ok(value) = r {
                assert(value_reading(rxbuf@, token@[0], ch@[0], prefix) == Ok::<int, Seq<char>>(
                    value as int,
                ) && value == value as int as i32);
            }
        }
        r
    }

    /// Asks the channel of a token for a value.
    fn get_channel_value(
        &mut self,
        token: &str,
        channel: usize,
        prefix: Option<char>,
        req: &str,
    ) -> (r: Result<i32, Error>)
        requires
            token@.len() == 1,
        ensures
            !channel_exists(channel) ==> old(self).refuses(final(self), r, channel_fault(channel)),
            channel_exists(channel) ==> old(self).asks(
                final(self),
                r,
                line(token@, channel_text(channel), req@),
                token@[0],
                channel_text(channel)[0],
                prefix,
                |read: int| read as i32,
            ),
    {
        match channel_name(channel) {
            Ok(name) => {
                proof {
                    reveal_strlit("1");
                    reveal_strlit("2");
                }
                self.get_value(token, name, prefix, req)
            },
            Err(e) => Err(e),
        }
    }
}

impl<T: SabertoothSerial> From<T> for PlainText<T> {
    /// An interface on `dev`.
    fn from(dev: T) -> (saber: Self)
        ensures
            saber.dev() == dev,
            saber.calls() == Seq::<Call>::empty(),
            saber.sent() == Seq::<u8>::empty(),
    {
        PlainText { dev: Recorded::new(dev) }
    }
}

impl<T: SabertoothSerial> vstd::std_specs::convert::FromSpecImpl<T> for PlainText<T> {
    open spec fn obeys_from_spec() -> bool {
        true
    }

    closed spec fn from_spec(dev: T) -> Self {
        PlainText { dev: Recorded::fresh(dev) }
    }
}

impl<T: SabertoothSerial + Clone> From<&T> for PlainText<T> {
    /// An interface on a clone of `dev`, for devices that can be shared
    /// between several interfaces.
    fn from(dev: &T) -> (saber: Self)
        ensures
            saber.calls() == Seq::<Call>::empty(),
            saber.sent() == Seq::<u8>::empty(),
    {
        PlainText { dev: Recorded::new(dev.clone()) }
    }
}

impl<T: SabertoothSerial + Clone> vstd::std_specs::convert::FromSpecImpl<&T> for PlainText<T> {
    /// What the clone of a device is, is up to the device: nothing is said
    /// of the result as a whole.
    open spec fn obeys_from_spec() -> bool {
        false
    }

    closed spec fn from_spec(dev: &T) -> Self {
        PlainText { dev: Recorded::fresh(*dev) }
    }
}

impl<T: SabertoothSerial> Sabertooth2x32 for PlainText<T> {
    fn startup(&mut self, channel: usize) -> (r: Result<(), Error>)
        ensures
            !channel_exists(channel) ==> old(self).refuses(final(self), r, channel_fault(channel)),
            channel_exists(channel) ==> old(self).says(
                final(self),
                r,
                line("M"@, channel_text(channel), "startup"@),
            ),
    {
        self.send_word("M", channel, "startup")
    }

    fn shutdown(&mut self, channel: usize) -> (r: Result<(), Error>)
        ensures
            !channel_exists(channel) ==> old(self).refuses(final(self), r, channel_fault(channel)),
            channel_exists(channel) ==> old(self).says(
                final(self),
                r,
                line("M"@, channel_text(channel), "shutdown"@),
            ),
    {
        self.send_word("M", channel, "shutdown")
    }

    /// Setting a speed refuses a channel that does not exist, then a
    /// ratio beyond one in magnitude, with nothing done, and otherwise
    /// sends the line that sets the command value of the ratio on the motor
    /// of the channel.
    open spec fn speed_set(
        &self,
        after: &Self,
        r: Result<(), Error>,
        channel: usize,
        ratio: Binary32,
    ) -> bool {
        &&& !channel_exists(channel) ==> self.refuses(after, r, channel_fault(channel))
        &&& channel_exists(channel) && !in_unit_range(ratio@) ==> self.refuses(
            after,
            r,
            ratio_fault(),
        )
        &&& channel_exists(channel) && in_unit_range(ratio@) ==> self.says(
            after,
            r,
            line(
                "M"@,
                channel_text(channel),
                signed_decimal(ratio_on_scale(ratio@, RANGE_MIN as int, RANGE_MAX as int)),
            ),
        )
    }

    fn set_speed(&mut self, channel: usize, ratio: Binary32) -> (r: Result<(), Error>)
        ensures
            !channel_exists(channel) ==> old(self).refuses(final(self), r, channel_fault(channel)),
            channel_exists(channel) && !in_unit_range(ratio@) ==> old(self).refuses(
                final(self),
                r,
                ratio_fault(),
            ),
            channel_exists(channel) && in_unit_range(ratio@) ==> old(self).says(
                final(self),
                r,
                line(
                    "M"@,
                    channel_text(channel),
                    signed_decimal(ratio_on_scale(ratio@, RANGE_MIN as int, RANGE_MAX as int)),
                ),
            ),
    {
        self.send_percent_to_channel("M", channel, ratio)
    }

    fn get_speed(&mut self, channel: usize) -> (r: Result<Binary32, Error>)
        ensures
            !channel_exists(channel) ==> old(self).refuses(final(self), r, channel_fault(channel)),
            channel_exists(channel) ==> old(self).asks(
                final(self),
                r,
                line("M"@, channel_text(channel), "get"@),
                'M',
                channel_text(channel)[0],
                None::<char>,
                |read: int| divided(read, 2047),
            ),
    {
        proof {
            reveal_strlit("M");
        }
        match self.get_channel_value("M", channel, None, "get") {
            Ok(value) => {
                let x = value_to_ratio(value);
                proof {
                    if channel_exists(channel) {
                        let (rxdata, read) = choose|rxdata: Seq<u8>, read: int|
                            value_reading(
                                rxdata,
                                "M"@[0],
                                channel_text(channel)[0],
                                None::<char>,
                            ) == Ok::<int, Seq<char>>(read) && value == read as i32;
                        x.lemma_of_bits();
                        assert(value_reading(
                            rxdata,
                            'M',
                            channel_text(channel)[0],
                            None::<char>,
                        ) == Ok::<int, Seq<char>>(read) && x == divided(read, 2047));
                    }
                }
                Ok(x)
            },
            Err(e) => Err(e),
        }
    }

    fn set_drive(&mut self, ratio: Binary32) -> (r: Result<(), Error>)
        ensures
            !in_unit_range(ratio@) ==> old(self).refuses(final(self), r, ratio_fault()),
            in_unit_range(ratio@) ==> old(self).says(
                final(self),
                r,
                line(
                    "M"@,
                    "D"@,
                    signed_decimal(ratio_on_scale(ratio@, RANGE_MIN as int, RANGE_MAX as int)),
                ),
            ),
    {
        self.send_percent("M", "D", ratio)
    }

    fn set_turn(&mut self, ratio: Binary32) -> (r: Result<(), Error>)
        ensures
            !in_unit_range(ratio@) ==> old(self).refuses(final(self), r, ratio_fault()),
            in_unit_range(ratio@) ==> old(self).says(
                final(self),
                r,
                line(
                    "M"@,
                    "T"@,
                    signed_decimal(ratio_on_scale(ratio@, RANGE_MIN as int, RANGE_MAX as int)),
                ),
            ),
    {
        self.send_percent("M", "T", ratio)
    }

    fn set_power(&mut self, channel: usize, ratio: Binary32) -> (r: Result<(), Error>)
        ensures
            !channel_exists(channel) ==> old(self).refuses(final(self), r, channel_fault(channel)),
            channel_exists(channel) && !in_unit_range(ratio@) ==> old(self).refuses(
                final(self),
                r,
                ratio_fault(),
            ),
            channel_exists(channel) && in_unit_range(ratio@) ==> old(self).says(
                final(self),
                r,
                line(
                    "P"@,
                    channel_text(channel),
                    signed_decimal(ratio_on_scale(ratio@, RANGE_MIN as int, RANGE_MAX as int)),
                ),
            ),
    {
        self.send_percent_to_channel("P", channel, ratio)
    }

    fn get_power(&mut self, channel: usize) -> (r: Result<Binary32, Error>)
        ensures
            !channel_exists(channel) ==> old(self).refuses(final(self), r, channel_fault(channel)),
            channel_exists(channel) ==> old(self).asks(
                final(self),
                r,
                line("P"@, channel_text(channel), "get"@),
                'P',
                channel_text(channel)[0],
                None::<char>,
                |read: int| divided(read, 2047),
            ),
    {
        proof {
            reveal_strlit("P");
        }
        match self.get_channel_value("P", channel, None, "get") {
            Ok(value) => {
                let x = value_to_ratio(value);
                proof {
                    if channel_exists(channel) {
                        let (rxdata, read) = choose|rxdata: Seq<u8>, read: int|
                            value_reading(
                                rxdata,
                                "P"@[0],
                                channel_text(channel)[0],
                                None::<char>,
                            ) == Ok::<int, Seq<char>>(read) && value == read as i32;
                        x.lemma_of_bits();
                        assert(value_reading(
                            rxdata,
                            'P',
                            channel_text(channel)[0],
                            None::<char>,
                        ) == Ok::<int, Seq<char>>(read) && x == divided(read, 2047));
                    }
                }
                Ok(x)
            },
            Err(e) => Err(e),
        }
    }

    fn set_ramp(&mut self, channel: usize, ratio: Binary32) -> (r: Result<(), Error>)
        ensures
            !channel_exists(channel) ==> old(self).refuses(final(self), r, channel_fault(channel)),
            channel_exists(channel) && !in_unit_range(ratio@) ==> old(self).refuses(
                final(self),
                r,
                ratio_fault(),
            ),
            channel_exists(channel) && in_unit_range(ratio@) ==> old(self).says(
                final(self),
                r,
                line(
                    "R"@,
                    channel_text(channel),
                    signed_decimal(ratio_on_scale(ratio@, RANGE_MIN as int, RANGE_MAX as int)),
                ),
            ),
    {
        self.send_percent_to_channel("R", channel, ratio)
    }

    fn set_aux(&mut self, channel: usize, ratio: Binary32) -> (r: Result<(), Error>)
        ensures
            !channel_exists(channel) ==> old(self).refuses(final(self), r, channel_fault(channel)),
            channel_exists(channel) && !in_unit_range(ratio@) ==> old(self).refuses(
                final(self),
                r,
                ratio_fault(),
            ),
            channel_exists(channel) && in_unit_range(ratio@) ==> old(self).says(
                final(self),
                r,
                line(
                    "Q"@,
                    channel_text(channel),
                    signed_decimal(ratio_on_scale(ratio@, RANGE_MIN as int, RANGE_MAX as int)),
                ),
            ),
    {
        self.send_percent_to_channel("Q", channel, ratio)
    }

    fn get_voltage(&mut self, channel: usize) -> (r: Result<Binary32, Error>)
        ensures
            !channel_exists(channel) ==> old(self).refuses(final(self), r, channel_fault(channel)),
            channel_exists(channel) ==> old(self).asks(
                final(self),
                r,
                line("M"@, channel_text(channel), "getb"@),
                'M',
                channel_text(channel)[0],
                Some('B'),
                |read: int| multiplied(read, ONE_TENTH),
            ),
    {
        proof {
            reveal_strlit("M");
        }
        match self.get_channel_value("M", channel, Some('B'), "getb") {
            Ok(value) => {
                let x = Binary32::scaled(value, &Binary32::from_bits(ONE_TENTH));
                proof {
                    if channel_exists(channel) {
                        let (rxdata, read) = choose|rxdata: Seq<u8>, read: int|
                            value_reading(
                                rxdata,
                                "M"@[0],
                                channel_text(channel)[0],
                                Some('B'),
                            ) == Ok::<int, Seq<char>>(read) && value == read as i32;
                        x.lemma_of_bits();
                        assert(value_reading(
                            rxdata,
                            'M',
                            channel_text(channel)[0],
                            Some('B'),
                        ) == Ok::<int, Seq<char>>(read) && x == multiplied(read, ONE_TENTH));
                    }
                }
                Ok(x)
            },
            Err(e) => Err(e),
        }
    }

    fn get_current(&mut self, channel: usize) -> (r: Result<Binary32, Error>)
        ensures
            !channel_exists(channel) ==> old(self).refuses(final(self), r, channel_fault(channel)),
            channel_exists(channel) ==> old(self).asks(
                final(self),
                r,
                line("M"@, channel_text(channel), "getc"@),
                'M',
                channel_text(channel)[0],
                Some('C'),
                |read: int| multiplied(read, ONE_TENTH),
            ),
    {
        proof {
            reveal_strlit("M");
        }
        match self.get_channel_value("M", channel, Some('C'), "getc") {
            Ok(value) => {
                let x = Binary32::scaled(value, &Binary32::from_bits(ONE_TENTH));
                proof {
                    if channel_exists(channel) {
                        let (rxdata, read) = choose|rxdata: Seq<u8>, read: int|
                            value_reading(
                                rxdata,
                                "M"@[0],
                                channel_text(channel)[0],
                                Some('C'),
                            ) == Ok::<int, Seq<char>>(read) && value == read as i32;
                        x.lemma_of_bits();
                        assert(value_reading(
                            rxdata,
                            'M',
                            channel_text(channel)[0],
                            Some('C'),
                        ) == Ok::<int, Seq<char>>(read) && x == multiplied(read, ONE_TENTH));
                    }
                }
                Ok(x)
            },
            Err(e) => Err(e),
        }
    }

    fn get_temperature(&mut self, channel: usize) -> (r: Result<Binary32, Error>)
        ensures
            !channel_exists(channel) ==> old(self).refuses(final(self), r, channel_fault(channel)),
            channel_exists(channel) ==> old(self).asks(
                final(self),
                r,
                line("M"@, channel_text(channel), "gett"@),
                'M',
                channel_text(channel)[0],
                Some('T'),
                |read: int| divided(read, 1),
            ),
    {
        proof {
            reveal_strlit("M");
        }
        match self.get_channel_value("M", channel, Some('T'), "gett") {
            Ok(value) => {
                let x = Binary32::quotient(value, 1);
                proof {
                    if channel_exists(channel) {
                        let (rxdata, read) = choose|rxdata: Seq<u8>, read: int|
                            value_reading(
                                rxdata,
                                "M"@[0],
                                channel_text(channel)[0],
                                Some('T'),
                            ) == Ok::<int, Seq<char>>(read) && value == read as i32;
                        x.lemma_of_bits();
                        assert(value_reading(
                            rxdata,
                            'M',
                            channel_text(channel)[0],
                            Some('T'),
                        ) == Ok::<int, Seq<char>>(read) && x == divided(read, 1));
                    }
                }
                Ok(x)
            },
            Err(e) => Err(e),
        }
    }
}

} // verus!
