use tenant_router::policy::{disposition_of, Disposition, FailureKind};

#[test]
fn bind_failure_is_fatal() {
    assert_eq!(disposition_of(FailureKind::BindFailure), Disposition::FatalToProcess);
}

#[test]
fn accept_failure_keeps_listening() {
    assert_eq!(disposition_of(FailureKind::AcceptFailure), Disposition::ContinueAccepting);
}

#[test]
fn connection_scoped_failures_close_only_their_connection() {
    assert_eq!(disposition_of(FailureKind::TransportReadError), Disposition::CloseConnection);
    assert_eq!(disposition_of(FailureKind::EnvelopeDecodeFailure), Disposition::CloseConnection);
    assert_eq!(disposition_of(FailureKind::DispatchFailure), Disposition::CloseConnection);
}

#[test]
fn unknown_tenant_is_answered_not_closed() {
    assert_eq!(disposition_of(FailureKind::UnknownTenant), Disposition::ReplyAndContinue);
}
