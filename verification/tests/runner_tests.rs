use tenant_router::codec::encode_envelope;
use tenant_router::routing::RoutingTable;
use tenant_router::runner::{
    connection_step, no_handler_reply, process_frame, process_frames, ConnEvent, ConnState,
    ProcessOutcome,
};

fn echo_table() -> RoutingTable<&'static str> {
    let mut table = RoutingTable::new();
    table.upsert(42, "echo");
    table
}

#[test]
fn registered_tenant_dispatches_payload() {
    // Routing table = {42 -> echo handler}; a frame for tenant 42 with
    // payload "ping" is dispatched to that handler with exactly "ping".
    let table = echo_table();
    let frame = encode_envelope(42, &b"ping".to_vec());
    match process_frame(&table, &frame) {
        ProcessOutcome::Dispatch { tenant, payload } => {
            assert_eq!(tenant, 42);
            assert_eq!(payload, b"ping".to_vec());
        },
        _ => panic!("a registered tenant's frame must dispatch"),
    }
}

#[test]
fn unregistered_tenant_gets_reply_and_stays_open() {
    // Tenant 99 is unregistered: one `No handler found` reply, and the next
    // frame on the same connection is still processed.
    let table = echo_table();
    let frames = vec![
        encode_envelope(99, &b"hello".to_vec()),
        encode_envelope(42, &b"ping".to_vec()),
    ];
    let outcomes = process_frames(&table, &frames);
    assert_eq!(outcomes.len(), 2);
    assert!(matches!(outcomes[0], ProcessOutcome::NoHandler { tenant: 99 }));
    assert!(matches!(outcomes[1], ProcessOutcome::Dispatch { .. }));
}

#[test]
fn no_handler_reply_is_the_literal_text() {
    assert_eq!(no_handler_reply(), b"No handler found".to_vec());
}

#[test]
fn frames_are_decided_in_arrival_order() {
    let table = echo_table();
    let frames = vec![
        encode_envelope(42, &b"first".to_vec()),
        encode_envelope(99, &vec![]),
        encode_envelope(42, &b"second".to_vec()),
    ];
    let outcomes = process_frames(&table, &frames);
    assert_eq!(outcomes.len(), 3);
    match (&outcomes[0], &outcomes[2]) {
        (
            ProcessOutcome::Dispatch { payload: first, .. },
            ProcessOutcome::Dispatch { payload: second, .. },
        ) => {
            assert_eq!(first, &b"first".to_vec());
            assert_eq!(second, &b"second".to_vec());
        },
        _ => panic!("both frames for tenant 42 must dispatch, in order"),
    }
    assert!(matches!(outcomes[1], ProcessOutcome::NoHandler { tenant: 99 }));
}

#[test]
fn malformed_frame_closes_connection_after_prior_frames() {
    let table = echo_table();
    let frames = vec![
        encode_envelope(42, &b"ok".to_vec()),
        vec![1u8, 2, 3],  // truncated envelope: no complete tenant prefix
        encode_envelope(42, &b"never seen".to_vec()),
    ];
    let outcomes = process_frames(&table, &frames);
    assert_eq!(outcomes.len(), 2);
    assert!(matches!(outcomes[0], ProcessOutcome::Dispatch { .. }));
    assert!(matches!(outcomes[1], ProcessOutcome::Malformed));
}

#[test]
fn malformed_frame_leaves_other_connections_unaffected() {
    // One peer sends garbage and its connection closes; an independent
    // connection for tenant 42 still dispatches normally.
    let table = echo_table();
    let bad_conn = vec![vec![9u8]];
    let good_conn = vec![encode_envelope(42, &b"ping".to_vec())];
    let bad_outcomes = process_frames(&table, &bad_conn);
    let good_outcomes = process_frames(&table, &good_conn);
    assert!(matches!(bad_outcomes[..], [ProcessOutcome::Malformed]));
    assert!(matches!(good_outcomes[..], [ProcessOutcome::Dispatch { .. }]));
}

#[test]
fn same_tenant_from_two_connections_routes_to_same_handler() {
    let table = echo_table();
    let f1 = encode_envelope(42, &b"from peer a".to_vec());
    let f2 = encode_envelope(42, &b"from peer b".to_vec());
    let h1 = *table.lookup(42).expect("registered");
    let h2 = *table.lookup(42).expect("registered");
    assert_eq!(h1, h2);
    assert!(matches!(process_frame(&table, &f1), ProcessOutcome::Dispatch { tenant: 42, .. }));
    assert!(matches!(process_frame(&table, &f2), ProcessOutcome::Dispatch { tenant: 42, .. }));
}

#[test]
fn well_formed_frame_keeps_connection_open() {
    let table = echo_table();
    let event = ConnEvent::FrameArrived { frame: encode_envelope(42, &b"ping".to_vec()) };
    let (state, outcome) = connection_step(&table, &event);
    assert_eq!(state, ConnState::Open);
    assert!(matches!(outcome, Some(ProcessOutcome::Dispatch { tenant: 42, .. })));
}

#[test]
fn unknown_tenant_frame_keeps_connection_open() {
    let table = echo_table();
    let event = ConnEvent::FrameArrived { frame: encode_envelope(99, &vec![]) };
    let (state, outcome) = connection_step(&table, &event);
    assert_eq!(state, ConnState::Open);
    assert!(matches!(outcome, Some(ProcessOutcome::NoHandler { tenant: 99 })));
}

#[test]
fn malformed_frame_closes_connection() {
    let table = echo_table();
    let event = ConnEvent::FrameArrived { frame: vec![1u8, 2] };
    let (state, outcome) = connection_step(&table, &event);
    assert_eq!(state, ConnState::Closed);
    assert!(matches!(outcome, Some(ProcessOutcome::Malformed)));
}

#[test]
fn dispatch_and_transport_events_drive_the_state_machine() {
    let table = echo_table();
    let (ok_state, ok_out) = connection_step(&table, &ConnEvent::DispatchSucceeded);
    assert_eq!(ok_state, ConnState::Open);
    assert!(ok_out.is_none());
    let (fail_state, fail_out) = connection_step(&table, &ConnEvent::DispatchFailed);
    assert_eq!(fail_state, ConnState::Closed);
    assert!(fail_out.is_none());
    let (err_state, _) = connection_step(&table, &ConnEvent::ReadFailed);
    assert_eq!(err_state, ConnState::Closed);
    let (eof_state, _) = connection_step(&table, &ConnEvent::StreamEnded);
    assert_eq!(eof_state, ConnState::Closed);
}

#[test]
fn newly_added_tenant_is_routed_immediately() {
    // Registration adds tenant 7 while 42 and 99 traffic is in flight; a
    // frame for 7 sent right after the addition is routed correctly.
    let mut table = echo_table();
    let before = process_frame(&table, &encode_envelope(7, &vec![]));
    assert!(matches!(before, ProcessOutcome::NoHandler { tenant: 7 }));
    table.upsert(7, "ack");
    let after = process_frame(&table, &encode_envelope(7, &vec![]));
    assert!(matches!(after, ProcessOutcome::Dispatch { tenant: 7, .. }));
    let steady = process_frame(&table, &encode_envelope(42, &b"ping".to_vec()));
    assert!(matches!(steady, ProcessOutcome::Dispatch { tenant: 42, .. }));
}
