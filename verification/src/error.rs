//! The errors that the library reports.
use vstd::prelude::*;

verus! {

/// The general condition behind an [`Error`].
#[derive(Clone, Copy, Debug, PartialEq, Eq, Structural)]
pub enum ErrorKind {
    InvalidInput,
    InvalidData,
    WouldBlock,
    BrokenPipe,
    UnexpectedEof,
    Other,
}

/// Everything that can be wrong with a message, a request, a response or a limit.
#[derive(Clone, Copy, Debug, PartialEq, Eq, Structural)]
pub enum Error {
    /// The bytes of a peer are not an LDAP message, or not one within the limits.
    InvalidEnvelope,
    /// A request exceeds an allocation, depth, node or frame limit, or cannot be encoded.
    LimitExceeded,
    InvalidCodecLimits,
    InvalidDriverLimits,
    /// No permit, slot or queue place is free.
    CapacityExhausted,
    DriverClosed,
    OperationNotApplication,
    InvalidUnbind,
    InvalidAbandon,
    InvalidAbandonIdentifier,
    UnsupportedOperation,
    AbandonTargetNotOutstanding,
    ResponseMismatch,
    InvalidUnsolicited,
    NoOutstandingIdentifier,
    /// Every message identifier has been given out.
    IdentifiersExhausted,
    UnexpectedSearchResponse,
    RawDriverRequired,
    EndedDuringExchange,
    EndedDuringUpgrade,
    OperationsRemain,
    BufferedPlaintext,
    PlaintextAtTlsBoundary,
    SuppliedTransportRequired,
    /// A message is larger than the negotiated security layer accepts.
    SecurityLayerOverflow,
}

impl Error {
    pub open spec fn spec_kind(self) -> ErrorKind {
        match self {
            Error::InvalidEnvelope
            | Error::ResponseMismatch
            | Error::InvalidUnsolicited
            | Error::NoOutstandingIdentifier
            | Error::UnexpectedSearchResponse
            | Error::BufferedPlaintext
            | Error::PlaintextAtTlsBoundary => ErrorKind::InvalidData,
            Error::LimitExceeded
            | Error::InvalidCodecLimits
            | Error::InvalidDriverLimits
            | Error::OperationNotApplication
            | Error::InvalidUnbind
            | Error::InvalidAbandon
            | Error::InvalidAbandonIdentifier
            | Error::UnsupportedOperation
            | Error::AbandonTargetNotOutstanding
            | Error::RawDriverRequired
            | Error::OperationsRemain
            | Error::SuppliedTransportRequired => ErrorKind::InvalidInput,
            Error::CapacityExhausted
            | Error::IdentifiersExhausted => ErrorKind::WouldBlock,
            Error::DriverClosed => ErrorKind::BrokenPipe,
            Error::EndedDuringExchange
            | Error::EndedDuringUpgrade => ErrorKind::UnexpectedEof,
            Error::SecurityLayerOverflow => ErrorKind::Other,
        }
    }

    /// The general condition behind the error.
    pub fn kind(self) -> (r: ErrorKind)
        ensures
            r == self.spec_kind(),
    {
        match self {
            Error::InvalidEnvelope
            | Error::ResponseMismatch
            | Error::InvalidUnsolicited
            | Error::NoOutstandingIdentifier
            | Error::UnexpectedSearchResponse
            | Error::BufferedPlaintext
            | Error::PlaintextAtTlsBoundary => ErrorKind::InvalidData,
            Error::LimitExceeded
            | Error::InvalidCodecLimits
            | Error::InvalidDriverLimits
            | Error::OperationNotApplication
            | Error::InvalidUnbind
            | Error::InvalidAbandon
            | Error::InvalidAbandonIdentifier
            | Error::UnsupportedOperation
            | Error::AbandonTargetNotOutstanding
            | Error::RawDriverRequired
            | Error::OperationsRemain
            | Error::SuppliedTransportRequired => ErrorKind::InvalidInput,
            Error::CapacityExhausted
            | Error::IdentifiersExhausted => ErrorKind::WouldBlock,
            Error::DriverClosed => ErrorKind::BrokenPipe,
            Error::EndedDuringExchange
            | Error::EndedDuringUpgrade => ErrorKind::UnexpectedEof,
            Error::SecurityLayerOverflow => ErrorKind::Other,
        }
    }
}

} // verus!
