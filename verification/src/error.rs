//! The ways in which an operation of the relay can fail.

use vstd::prelude::*;

verus! {

/// Why an operation of the library was refused.
#[derive(Debug, Clone, Copy, PartialEq, Eq, Structural)]
pub enum ChatError {
    /// The stream ended before the bytes that a frame declares had arrived.
    EndOfStream,
    /// The transport failed in another way. The library reads and writes
    /// memory only and never reports this itself: it is for whoever moves the
    /// bytes, to tell a worker why nothing was read.
    Io,
    /// The payload of a frame is no encoding of a message.
    Decode,
    /// A payload is longer than the four bytes of a frame's length can say, so
    /// no frame can carry it.
    PayloadTooLong,
    /// A file or image command names no usable path.
    InvalidPath,
    /// The port is neither empty nor a decimal number below 65536.
    InvalidPort,
    /// The host is neither empty nor a dotted IPv4 address.
    InvalidHost,
    /// The pattern that hosts are held against could not be compiled.
    InvalidPattern,
}

} // verus!
