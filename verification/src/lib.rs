//! Driver library for Dimension Engineering Sabertooth motor controllers.
//!
//! The heart of the crate is the "Packet Serial" protocol of the
//! Sabertooth 2x32: fixed-size command and reply frames protected either by
//! an additive 7-bit checksum or by a CRC-7 / CRC-14 pair. Frames are built
//! and validated by verified code; the serial link itself is anything that
//! implements [`SabertoothSerial`].
//!
//! Beside it stand the "Plain Text" protocol of the same device and the
//! "Packetized Serial" protocol of the Sabertooth 2x60.
//!
//! Every interface reaches its device through [`Recorded`], which keeps a
//! record of what is asked of the device for the contracts to speak of: a
//! command that is refused leaves the record and the device as they were, a
//! command that is sent asks for exactly its frame to be written, and a
//! request clears, writes and reads, in this order.
//!
//! Ratios, voltages and the like are single-precision numbers. They cross
//! the interfaces as bit patterns, [`Binary32`], and the arithmetic on them
//! is done on integers, to the results that single precision has.

pub mod binary32;
pub mod error;
pub mod port;
pub mod utils;

pub use binary32::Binary32;
pub use error::Error;
pub use port::{Call, Recorded, SabertoothSerial};

/// Interface for the Sabertooth 2x32.
pub mod sabertooth2x32;

/// Interface for the Sabertooth 2x60.
pub mod sabertooth2x60;
