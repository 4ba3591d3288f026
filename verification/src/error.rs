//! The error type shared by every operation of the crate.

use vstd::prelude::*;
use vstd::string::StringExecFns;

verus! {

/// `std::io::Error`, carried through untouched: nothing is known of its
/// contents here.
#[verifier::external_type_specification]
#[verifier::external_body]
pub struct ExIoError(std::io::Error);

/// `std::io::ErrorKind`, carried through untouched.
#[verifier::external_type_specification]
#[verifier::external_body]
pub struct ExIoErrorKind(std::io::ErrorKind);

/// How a serial port classifies one of its failures.
#[derive(Debug, Clone, Copy, PartialEq, Eq)]
pub enum SerialErrorKind {
    /// The device is not available (missing, or already in use).
    NoDevice,
    /// A parameter was refused by the port.
    InvalidInput,
    /// The cause is not known.
    Unknown,
    /// An I/O error occurred, of the given kind.
    Io(std::io::ErrorKind),
}

/// A failure reported by the serial port itself, with its description.
#[derive(Debug, Clone)]
pub struct SerialError {
    pub kind: SerialErrorKind,
    pub description: String,
}

/// What can go wrong while talking to a Sabertooth.
#[derive(Debug)]
pub enum Error {
    /// The transport failed; the underlying error keeps its own
    /// classification (for instance "timed out").
    Io(std::io::Error),
    /// A value supplied by the caller is out of its domain. Nothing has been
    /// transmitted.
    InvalidInput(String),
    /// The reply received from the device is not acceptable.
    Response(String),
    /// Any other failure.
    Other,
    /// The serial port reported an error of its own.
    Serial(SerialError),
}

/// `Display` of `std::io::Error`: the text that describes the error.
#[verifier::external_body]
fn io_error_text(e: &std::io::Error) -> String {
    format!("{}", e)
}

impl Error {
    /// Whether `text` describes the error: the kind of error, then the
    /// condition that was violated. Of an error of the transport only the
    /// beginning is fixed here; the rest is the transport's own text.
    pub open spec fn described_by(self, text: Seq<char>) -> bool {
        match self {
            Error::Io(_) => exists|tail: Seq<char>| text == "IO error: "@ + tail,
            Error::InvalidInput(msg) => text == "Invalid input: "@ + msg@,
            Error::Response(msg) => text == "Invalid response from Sabertooth: "@ + msg@,
            Error::Other => text == "Other saberrs error"@,
            Error::Serial(e) => text == "serialport error: "@ + e.description@,
        }
    }

    /// A description of the error for people to read.
    pub fn to_string(&self) -> (text: String)
        ensures
            self.described_by(text@),
    {
        match self {
            Error::Io(e) => {
                let tail = io_error_text(e);
                "IO error: ".to_owned().concat(tail.as_str())
            },
            Error::InvalidInput(msg) => "Invalid input: ".to_owned().concat(msg.as_str()),
            Error::Response(msg) => "Invalid response from Sabertooth: ".to_owned().concat(
                msg.as_str(),
            ),
            Error::Other => "Other saberrs error".to_owned(),
            Error::Serial(e) => "serialport error: ".to_owned().concat(e.description.as_str()),
        }
    }
}

} // verus!
