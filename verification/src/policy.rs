//! Failure dispositions.
//!
//! Every failure this layer can meet has a fixed scope: failures never cross
//! connection boundaries, and never stop the listener — except a bind
//! failure, which precedes any connection and is fatal to the process. There
//! is no retry anywhere: each failure either ends its connection, or is
//! recorded and the loop goes on.

use vstd::prelude::*;

verus! {

/// The conditions the receiving layer can meet.
#[derive(Clone, Copy, PartialEq, Eq, Structural, Debug)]
pub enum FailureKind {
    /// The listen address could not be bound.
    BindFailure,
    /// Accepting one incoming connection failed.
    AcceptFailure,
    /// Reading the next frame from a connection failed, or the stream ended.
    TransportReadError,
    /// A frame held no complete envelope.
    EnvelopeDecodeFailure,
    /// A well-formed envelope named a tenant with no registered handler.
    UnknownTenant,
    /// A handler reported failure for a dispatched payload.
    DispatchFailure,
}

/// What a condition leads to.
#[derive(Clone, Copy, PartialEq, Eq, Structural, Debug)]
pub enum Disposition {
    /// Fatal: the process cannot serve without its bind address.
    FatalToProcess,
    /// Transient: record it and keep accepting.
    ContinueAccepting,
    /// Terminate the one connection it happened on; no reply is sent.
    CloseConnection,
    /// Write one `No handler found` reply and keep the connection open.
    ReplyAndContinue,
}

/// The disposition of each condition.
pub open spec fn spec_disposition(kind: FailureKind) -> Disposition {
    match kind {
        FailureKind::BindFailure => Disposition::FatalToProcess,
        FailureKind::AcceptFailure => Disposition::ContinueAccepting,
        FailureKind::TransportReadError => Disposition::CloseConnection,
        FailureKind::EnvelopeDecodeFailure => Disposition::CloseConnection,
        FailureKind::UnknownTenant => Disposition::ReplyAndContinue,
        FailureKind::DispatchFailure => Disposition::CloseConnection,
    }
}

/// Decide what a condition leads to. Only a bind failure is fatal; only an
/// unknown tenant is answered; everything else either ends its own
/// connection or lets the accept loop continue.
pub fn disposition_of(kind: FailureKind) -> (d: Disposition)
    ensures
        d == spec_disposition(kind),
{
    match kind {
        FailureKind::BindFailure => Disposition::FatalToProcess,
        FailureKind::AcceptFailure => Disposition::ContinueAccepting,
        FailureKind::TransportReadError => Disposition::CloseConnection,
        FailureKind::EnvelopeDecodeFailure => Disposition::CloseConnection,
        FailureKind::UnknownTenant => Disposition::ReplyAndContinue,
        FailureKind::DispatchFailure => Disposition::CloseConnection,
    }
}

} // verus!
