//! The byte stream that carries frames to and from the device.

use std::time::Duration;
use vstd::prelude::*;
use crate::error::Error;

verus! {

/// Minimal serial port: what the Sabertooth interfaces need from the link to
/// the device.
///
/// The interfaces are generic over this trait, so any byte stream can stand
/// in for a serial port: a pseudo-terminal, a recording stub, a shared
/// handle. Nothing is assumed of an implementation: the interfaces state
/// what they hand to it, and check whatever it hands back.
pub trait SabertoothSerial {
    /// Set the timeout of the serial port.
    fn set_timeout(&mut self, timeout: Duration) -> Result<(), Error>;

    /// Get the current timeout setting of the serial port.
    fn timeout(&self) -> Duration;

    /// Set the baud rate of the serial port.
    fn set_baud_rate(&mut self, baud_rate: u32) -> Result<(), Error>;

    /// Get the current baud rate setting of the serial port.
    fn baud_rate(&self) -> Result<u32, Error>;

    /// Clear the tx and rx buffer, remaining bytes will be lost.
    fn clear_all(&self) -> Result<(), Error>;

    /// Transmit all of `buf`, or fail: a frame must not go out in part
    /// without an error being returned.
    fn write_all(&mut self, buf: &[u8]) -> Result<(), Error>;

    /// Fill `buf` with received bytes, blocking until it is full or the
    /// timeout strikes.
    fn read_exact(&mut self, buf: &mut [u8]) -> Result<(), Error>;

    /// Receive up to `buf.len()` bytes into the front of `buf` and return
    /// how many arrived.
    fn read(&mut self, buf: &mut [u8]) -> Result<usize, Error>;
}

/// One thing asked of a device.
pub enum Call {
    /// To discard what it has received and not handed over yet.
    Clear,
    /// To transmit these bytes.
    Write(Seq<u8>),
    /// To wait for this many bytes.
    ReadExact(usize),
    /// To hand over up to this many bytes.
    Read(usize),
}

/// A device together with the record of what was asked of it.
///
/// The interfaces reach their devices through this type and in no other
/// way, so that their contracts can speak of what they do with a device:
/// which calls they make, in which order, and which bytes they hand over.
/// The record is kept for the proofs alone, and costs nothing when the
/// program runs.
pub struct Recorded<T: SabertoothSerial> {
    dev: T,
    calls: Ghost<Seq<Call>>,
    sent: Ghost<Seq<u8>>,
}

impl<T: SabertoothSerial> Recorded<T> {
    /// The device.
    pub closed spec fn dev(&self) -> T {
        self.dev
    }

    /// What was asked of the device so far, oldest first, whatever came of
    /// it.
    pub closed spec fn calls(&self) -> Seq<Call> {
        self.calls@
    }

    /// The bytes handed to the device in writes that it accepted, oldest
    /// first. (A write that the device fails is not counted: nothing is
    /// known of how much of it went out.)
    pub closed spec fn sent(&self) -> Seq<u8> {
        self.sent@
    }

    /// The device `dev`, of which nothing has been asked yet.
    pub closed spec fn fresh(dev: T) -> Self {
        Recorded { dev, calls: Ghost(Seq::empty()), sent: Ghost(Seq::empty()) }
    }

    /// Takes a device, of which nothing has been asked yet.
    pub fn new(dev: T) -> (r: Self)
        ensures
            r == Self::fresh(dev),
            r.dev() == dev,
            r.calls() == Seq::<Call>::empty(),
            r.sent() == Seq::<u8>::empty(),
    {
        Recorded { dev, calls: Ghost(Seq::empty()), sent: Ghost(Seq::empty()) }
    }

    /// Asks the device to discard what it has received.
    pub fn clear_all(&mut self) -> (r: Result<(), Error>)
        ensures
            final(self).calls() == old(self).calls().push(Call::Clear),
            final(self).sent() == old(self).sent(),
    {
        self.calls = Ghost(self.calls@.push(Call::Clear));
        self.dev.clear_all()
    }

    /// Asks the device to transmit all of `buf`.
    pub fn write_all(&mut self, buf: &[u8]) -> (r: Result<(), Error>)
        ensures
            final(self).calls() == old(self).calls().push(Call::Write(buf@)),
            r is Ok ==> final(self).sent() == old(self).sent() + buf@,
            r is Err ==> final(self).sent() == old(self).sent(),
    {
        self.calls = Ghost(self.calls@.push(Call::Write(buf@)));
        let r = self.dev.write_all(buf);
        if r.is_ok() {
            self.sent = Ghost(self.sent@ + buf@);
        }
        r
    }

    /// Asks the device to fill `buf`.
    pub fn read_exact(&mut self, buf: &mut [u8]) -> (r: Result<(), Error>)
        ensures
            final(self).calls() == old(self).calls().push(
                Call::ReadExact(old(buf)@.len() as usize),
            ),
            final(self).sent() == old(self).sent(),
    {
        self.calls = Ghost(self.calls@.push(Call::ReadExact(buf@.len() as usize)));
        self.dev.read_exact(buf)
    }

    /// Asks the device for up to `buf.len()` bytes.
    pub fn read(&mut self, buf: &mut [u8]) -> (r: Result<usize, Error>)
        ensures
            final(self).calls() == old(self).calls().push(Call::Read(old(buf)@.len() as usize)),
            final(self).sent() == old(self).sent(),
    {
        self.calls = Ghost(self.calls@.push(Call::Read(buf@.len() as usize)));
        self.dev.read(buf)
    }
}

/// The calls of an exchange with a device: what it has received is
/// discarded, the request is written, and a reply of `reply_size` bytes is
/// waited for.
pub open spec fn exchange(request: Seq<u8>, reply_size: usize) -> Seq<Call> {
    seq![Call::Clear, Call::Write(request), Call::ReadExact(reply_size)]
}

/// Whether the calls `after` are the calls `before` and then the first of
/// the calls `planned`, in their order: one of them at least, and all of
/// them if `complete`.
pub open spec fn continues(
    before: Seq<Call>,
    after: Seq<Call>,
    planned: Seq<Call>,
    complete: bool,
) -> bool {
    exists|k: int|
        1 <= k <= planned.len() && (complete ==> k == planned.len()) && after == before
            + #[trigger] planned.take(k)
}

} // verus!
