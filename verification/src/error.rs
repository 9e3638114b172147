//! The errors of a device connection.

use vstd::prelude::*;
use std::sync::Arc;

verus! {

/// How a USB transfer failed.
#[derive(Debug, Clone, Copy, PartialEq, Eq)]
pub enum TransferError {
    Cancelled,
    Stall,
    Disconnected,
    Fault,
    Unknown,
}

/// How the USB side of a connection failed.
#[derive(Debug, Clone, Copy, PartialEq, Eq)]
pub enum UsbError {
    Unsupported,
    Claim,
    Transfer(TransferError),
    Other,
}

/// What kind of error it is.
#[derive(Debug, Clone, PartialEq, Eq)]
pub enum ErrorKind {
    /// The connection or the socket is closed.
    Closed,
    /// The peer sent something malformed.
    InvalidData,
    Other,
    /// The whole connection has failed before, with this error.
    TransportError(Arc<Error>),
    /// The device does not offer delayed acknowledgments.
    DelayedAckNotAvailable,
    /// The authentication token could not be signed.
    Sign,
    /// The device did not accept the key.
    AuthRejected,
    /// The connection string of the device could not be parsed.
    ParseBanner,
    /// A message could not be written.
    Write,
    /// Written messages could not be flushed.
    WriteFlush,
    /// A socket could not be flushed.
    Flush,
    Usb(UsbError),
}

/// What more is known about an error.
#[derive(Debug, Clone, Copy, PartialEq, Eq)]
pub enum Detail {
    Nothing,
    ServiceNotUtf8,
    NoAvailInOkay,
    MalformedConnStr,
    MalformedBanner,
    MalformedHeader,
    NoReceiver,
    /// The public key has no form in which it can be offered.
    PublicKey,
    NoInterface,
    NoInEndpoint,
    NoOutEndpoint,
    PacketSizesDiffer,
    Closed,
}

/// An error of a device connection.
#[derive(Debug, Clone, PartialEq, Eq)]
pub struct Error {
    pub kind: ErrorKind,
    pub detail: Detail,
}

impl Error {
    /// An error of this kind, about which nothing more is known.
    pub fn new(kind: ErrorKind) -> (error: Error)
        ensures
            error == (Error { kind, detail: Detail::Nothing }),
    {
        Error { kind, detail: Detail::Nothing }
    }

    /// An error of this kind, with what more is known.
    pub fn with(kind: ErrorKind, detail: Detail) -> (error: Error)
        ensures
            error == (Error { kind, detail }),
    {
        Error { kind, detail }
    }
}

/// An error is of the kind and has the detail that it is made with; where none is
/// given it has none.
pub proof fn law_errors_are_what_they_are_made_of(
    kind: ErrorKind,
    detail: Detail,
    plain: Error,
    detailed: Error,
)
    requires
        call_ensures(Error::new, (kind,), plain),
        call_ensures(Error::with, (kind, detail), detailed),
    ensures
        plain.kind == kind,
        plain.detail is Nothing,
        detailed.kind == kind,
        detailed.detail == detail,
{
}

} // verus!
