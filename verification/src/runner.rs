//! Per-connection processing.
//!
//! A connection runner owns one accepted connection and, strictly
//! sequentially, decodes each received frame into an envelope, looks the
//! tenant identifier up in the routing table, and decides what happens next:
//! dispatch to the registered handler, reply `No handler found` and carry
//! on, or — on a malformed frame — close this connection and no other.
//!
//! [`process_frame`] is that decision for one frame; [`conn_trace`] is the
//! resulting action sequence for a whole connection, one action per frame,
//! in the order the frames arrived. The trace of a connection is a function
//! of the table state and that connection's own frames alone, so nothing one
//! peer sends can alter what happens on another peer's connection.

use vstd::prelude::*;
use crate::codec::{decode_envelope, spec_envelope_ok, spec_payload, spec_tenant_id, Envelope};
use crate::routing::RoutingTable;

verus! {

/// What the runner does in reaction to one frame.
pub enum Action {
    /// Invoke the tenant's handler with the payload.
    Dispatch { tenant: u64, payload: Seq<u8> },
    /// Write one `No handler found` reply and keep the connection open.
    ReplyNoHandler { tenant: u64 },
    /// Close this connection; no reply is sent.
    Close,
}

/// The handler a well-formed, registered frame is routed to.
pub open spec fn handler_for<H>(m: Map<u64, H>, frame: Seq<u8>) -> H
    recommends
        spec_envelope_ok(frame),
        m.contains_key(spec_tenant_id(frame)),
{
    m[spec_tenant_id(frame)]
}

/// The runner's reaction to one frame, given the set of registered tenants.
pub open spec fn frame_action(tenants: Set<u64>, frame: Seq<u8>) -> Action {
    if !spec_envelope_ok(frame) {
        Action::Close
    } else if tenants.contains(spec_tenant_id(frame)) {
        Action::Dispatch { tenant: spec_tenant_id(frame), payload: spec_payload(frame) }
    } else {
        Action::ReplyNoHandler { tenant: spec_tenant_id(frame) }
    }
}

/// The runner's reaction to one frame, as executable data: the executable
/// image of an [`Action`].
pub enum ProcessOutcome {
    /// The tenant is registered: invoke its handler with this payload.
    Dispatch { tenant: u64, payload: Vec<u8> },
    /// The tenant is not registered: write one `No handler found` reply and
    /// keep the connection open.
    NoHandler { tenant: u64 },
    /// The frame holds no complete envelope: close this connection, sending
    /// no reply.
    Malformed,
}

impl View for ProcessOutcome {
    type V = Action;

    open spec fn view(&self) -> Action {
        match self {
            ProcessOutcome::Dispatch { tenant, payload } => Action::Dispatch {
                tenant: *tenant,
                payload: payload@,
            },
            ProcessOutcome::NoHandler { tenant } => Action::ReplyNoHandler { tenant: *tenant },
            ProcessOutcome::Malformed => Action::Close,
        }
    }
}

/// Decide one frame: decode the envelope and look its tenant up.
pub fn process_frame<H>(table: &RoutingTable<H>, frame: &Vec<u8>) -> (r: ProcessOutcome)
    requires
        table.wf(),
    ensures
        r@ == frame_action(table@.dom(), frame@),
{
    match decode_envelope(frame) {
        None => ProcessOutcome::Malformed,
        Some(env) => {
            let Envelope { tenant_id, payload } = env;
            match table.lookup(tenant_id) {
                Some(_) => ProcessOutcome::Dispatch { tenant: tenant_id, payload },
                None => ProcessOutcome::NoHandler { tenant: tenant_id },
            }
        },
    }
}

/// The action sequence of one connection: frames are decided in arrival
/// order, and the first malformed frame closes the connection, so nothing
/// follows its `Close` action.
pub open spec fn conn_trace(tenants: Set<u64>, frames: Seq<Seq<u8>>) -> Seq<Action>
    decreases frames.len(),
{
    if frames.len() == 0 {
        Seq::empty()
    } else if !spec_envelope_ok(frames.first()) {
        seq![Action::Close]
    } else {
        seq![frame_action(tenants, frames.first())] + conn_trace(tenants, frames.drop_first())
    }
}

/// Appending a frame to a connection that has seen only well-formed frames
/// appends exactly that frame's action to the trace.
pub proof fn lemma_trace_append(tenants: Set<u64>, frames: Seq<Seq<u8>>, frame: Seq<u8>)
    requires
        forall|j: int| 0 <= j < frames.len() ==> spec_envelope_ok(#[trigger] frames[j]),
    ensures
        conn_trace(tenants, frames.push(frame)) == conn_trace(tenants, frames).push(
            frame_action(tenants, frame),
        ),
    decreases frames.len(),
{
    let whole = frames.push(frame);
    if frames.len() == 0 {
        assert(whole.first() == frame);
        assert(whole.drop_first() =~= Seq::<Seq<u8>>::empty());
        assert(conn_trace(tenants, whole.drop_first()) =~= Seq::<Action>::empty());
        assert(conn_trace(tenants, frames) =~= Seq::<Action>::empty());
        if !spec_envelope_ok(frame) {
            assert(conn_trace(tenants, whole) =~= conn_trace(tenants, frames).push(
                Action::Close,
            ));
        } else {
            assert(conn_trace(tenants, whole) =~= conn_trace(tenants, frames).push(
                frame_action(tenants, frame),
            ));
        }
    } else {
        assert(whole.first() == frames.first());
        assert(whole.drop_first() =~= frames.drop_first().push(frame));
        assert(forall|j: int|
            0 <= j < frames.drop_first().len() ==> #[trigger] frames.drop_first()[j] == frames[
                j + 1
            ]);
        lemma_trace_append(tenants, frames.drop_first(), frame);
        assert(spec_envelope_ok(frames.first()));
        assert(conn_trace(tenants, whole) == seq![frame_action(tenants, frames.first())]
            + conn_trace(tenants, frames.drop_first()).push(frame_action(tenants, frame)));
        assert(seq![frame_action(tenants, frames.first())] + conn_trace(
            tenants,
            frames.drop_first(),
        ).push(frame_action(tenants, frame)) =~= (seq![frame_action(tenants, frames.first())]
            + conn_trace(tenants, frames.drop_first())).push(frame_action(tenants, frame)));
    }
}

/// The views of a sequence of frames.
pub open spec fn frame_views(frames: Seq<Vec<u8>>) -> Seq<Seq<u8>> {
    frames.map_values(|f: Vec<u8>| f@)
}

/// The views of a sequence of outcomes.
pub open spec fn outcomes_view(outcomes: Seq<ProcessOutcome>) -> Seq<Action> {
    outcomes.map_values(|o: ProcessOutcome| o@)
}

/// Decide a whole connection's frames, strictly sequentially: one outcome
/// per frame, in arrival order, stopping at the first malformed frame —
/// exactly the connection trace.
pub fn process_frames<H>(table: &RoutingTable<H>, frames: &Vec<Vec<u8>>) -> (r: Vec<
    ProcessOutcome,
>)
    requires
        table.wf(),
    ensures
        outcomes_view(r@) == conn_trace(table@.dom(), frame_views(frames@)),
{
    let ghost tenants = table@.dom();
    let ghost views = frame_views(frames@);
    let mut out: Vec<ProcessOutcome> = Vec::new();
    let mut i: usize = 0;
    while i < frames.len()
        invariant
            table.wf(),
            tenants == table@.dom(),
            views == frame_views(frames@),
            i <= frames@.len(),
            forall|j: int| 0 <= j < i ==> spec_envelope_ok(#[trigger] views[j]),
            outcomes_view(out@) == conn_trace(tenants, views.take(i as int)),
        decreases frames@.len() - i,
    {
        let o = process_frame(table, &frames[i]);
        let bad = match &o {
            ProcessOutcome::Malformed => true,
            _ => false,
        };
        proof {
            assert(views[i as int] == frames@[i as int]@);
            assert(views.take(i + 1) =~= views.take(i as int).push(views[i as int]));
            lemma_trace_append(tenants, views.take(i as int), views[i as int]);
            assert(outcomes_view(out@.push(o)) =~= outcomes_view(out@).push(o@));
        }
        out.push(o);
        i = i + 1;
        if bad {
            proof {
                lemma_malformed_frame_closes(tenants, views, i - 1);
                lemma_trace_append(tenants, views.take(i - 1), views[i - 1]);
                lemma_frames_decided_in_order(tenants, views.take(i - 1));
                assert(conn_trace(tenants, views.take(i as int)).len() == i);
                assert(conn_trace(tenants, views) =~= conn_trace(tenants, views.take(i as int)));
            }
            return out;
        }
    }
    proof {
        assert(views.take(frames@.len() as int) =~= views);
    }
    out
}

/// The life cycle of one connection. `Closed` is the only terminal state:
/// there is no reconnect or retry at this layer.
#[derive(Clone, Copy, PartialEq, Eq, Structural, Debug)]
pub enum ConnState {
    Open,
    Closed,
}

/// What can happen to an open connection.
pub enum ConnEvent {
    /// One complete frame arrived from the peer.
    FrameArrived { frame: Vec<u8> },
    /// The handler finished the pending dispatch successfully.
    DispatchSucceeded,
    /// The handler reported failure for the pending dispatch.
    DispatchFailed,
    /// Reading from the stream failed at the transport level.
    ReadFailed,
    /// The peer closed the stream.
    StreamEnded,
}

/// Advance one open connection by one event.
///
/// A frame is answered by exactly its [`frame_action`], and only a malformed
/// frame closes the connection — an unknown tenant does not. A dispatch
/// failure, a transport read error and end-of-stream each close the
/// connection, with no action of their own; a successful dispatch leaves it
/// open for the next frame.
pub fn connection_step<H>(table: &RoutingTable<H>, event: &ConnEvent) -> (r: (
    ConnState,
    Option<ProcessOutcome>,
))
    requires
        table.wf(),
    ensures
        match event {
            ConnEvent::FrameArrived { frame } => (match r.1 {
                Some(o) => o@ == frame_action(table@.dom(), frame@),
                None => false,
            }) && r.0 == (if spec_envelope_ok(frame@) {
                ConnState::Open
            } else {
                ConnState::Closed
            }),
            ConnEvent::DispatchSucceeded => r.0 == ConnState::Open && r.1 is None,
            ConnEvent::DispatchFailed => r.0 == ConnState::Closed && r.1 is None,
            ConnEvent::ReadFailed => r.0 == ConnState::Closed && r.1 is None,
            ConnEvent::StreamEnded => r.0 == ConnState::Closed && r.1 is None,
        },
{
    match event {
        ConnEvent::FrameArrived { frame } => {
            let outcome = process_frame(table, frame);
            let next = match &outcome {
                ProcessOutcome::Malformed => ConnState::Closed,
                _ => ConnState::Open,
            };
            (next, Some(outcome))
        },
        ConnEvent::DispatchSucceeded => (ConnState::Open, None),
        ConnEvent::DispatchFailed => (ConnState::Closed, None),
        ConnEvent::ReadFailed => (ConnState::Closed, None),
        ConnEvent::StreamEnded => (ConnState::Closed, None),
    }
}

/// The literal reply written back when no handler is registered: the ASCII
/// bytes of `No handler found`.
pub open spec fn spec_no_handler_reply() -> Seq<u8> {
    seq![
        78u8,
        111u8,
        32u8,
        104u8,
        97u8,
        110u8,
        100u8,
        108u8,
        101u8,
        114u8,
        32u8,
        102u8,
        111u8,
        117u8,
        110u8,
        100u8,
    ]
}

/// The reply payload for an unregistered tenant: the ASCII bytes of
/// `No handler found`, sent as one frame and not wrapped in an envelope.
pub fn no_handler_reply() -> (r: Vec<u8>)
    ensures
        r@ == spec_no_handler_reply(),
{
    let mut r: Vec<u8> = Vec::new();
    r.push(78);
    r.push(111);
    r.push(32);
    r.push(104);
    r.push(97);
    r.push(110);
    r.push(100);
    r.push(108);
    r.push(101);
    r.push(114);
    r.push(32);
    r.push(102);
    r.push(111);
    r.push(117);
    r.push(110);
    r.push(100);
    proof {
        assert(r@ =~= spec_no_handler_reply());
    }
    r
}

/// Law: a frame whose envelope decodes and whose tenant identifier is
/// registered yields exactly one dispatch action, routed to that tenant's
/// handler, with the payload equal to the frame bytes minus the
/// tenant-identifier prefix.
pub proof fn lemma_registered_tenant_dispatches<H>(m: Map<u64, H>, frame: Seq<u8>)
    requires
        spec_envelope_ok(frame),
        m.contains_key(spec_tenant_id(frame)),
    ensures
        frame_action(m.dom(), frame) == (Action::Dispatch {
            tenant: spec_tenant_id(frame),
            payload: frame.skip(8),
        }),
        handler_for(m, frame) == m[spec_tenant_id(frame)],
{
}

/// Law: a frame whose tenant identifier is absent yields exactly one
/// `No handler found` reply action, and the connection stays open: the
/// frames after it are decided exactly as if it had led the sequence off.
pub proof fn lemma_unknown_tenant_replies(tenants: Set<u64>, frame: Seq<u8>, rest: Seq<Seq<u8>>)
    requires
        spec_envelope_ok(frame),
        !tenants.contains(spec_tenant_id(frame)),
    ensures
        frame_action(tenants, frame) == (Action::ReplyNoHandler { tenant: spec_tenant_id(frame) }),
        conn_trace(tenants, seq![frame] + rest) == seq![frame_action(tenants, frame)] + conn_trace(
            tenants,
            rest,
        ),
{
    let whole = seq![frame] + rest;
    assert(whole.len() == 1 + rest.len());
    assert(whole.first() == frame);
    assert(whole.drop_first() =~= rest);
}

/// Law: two connections sending frames for the same registered tenant
/// identifier are both routed to the identical handler, and both frames
/// yield their dispatch action — the table serves any number of concurrent
/// lookups of one entry with the same result.
pub proof fn lemma_same_tenant_same_handler<H>(m: Map<u64, H>, f1: Seq<u8>, f2: Seq<u8>)
    requires
        spec_envelope_ok(f1),
        spec_envelope_ok(f2),
        spec_tenant_id(f1) == spec_tenant_id(f2),
        m.contains_key(spec_tenant_id(f1)),
    ensures
        handler_for(m, f1) == handler_for(m, f2),
        handler_for(m, f1) == m[spec_tenant_id(f1)],
        frame_action(m.dom(), f1) == (Action::Dispatch {
            tenant: spec_tenant_id(f1),
            payload: spec_payload(f1),
        }),
        frame_action(m.dom(), f2) == (Action::Dispatch {
            tenant: spec_tenant_id(f2),
            payload: spec_payload(f2),
        }),
{
}

/// Law: frames sent on one connection are decided in the order they were
/// sent. While every frame is well-formed the trace has exactly one action
/// per frame — so a registered tenant's handler is invoked exactly once per
/// frame — and the action at position `i` is the action of frame `i`. The
/// trace depends on no other connection's frames, so no load elsewhere can
/// reorder it.
pub proof fn lemma_frames_decided_in_order(tenants: Set<u64>, frames: Seq<Seq<u8>>)
    requires
        forall|j: int| 0 <= j < frames.len() ==> spec_envelope_ok(#[trigger] frames[j]),
    ensures
        conn_trace(tenants, frames).len() == frames.len(),
        forall|i: int|
            0 <= i < frames.len() ==> #[trigger] conn_trace(tenants, frames)[i] == frame_action(
                tenants,
                frames[i],
            ),
    decreases frames.len(),
{
    if frames.len() > 0 {
        let rest = frames.drop_first();
        assert(forall|j: int| 0 <= j < rest.len() ==> #[trigger] rest[j] == frames[j + 1]);
        lemma_frames_decided_in_order(tenants, rest);
        assert(spec_envelope_ok(frames.first()));
        let whole = conn_trace(tenants, frames);
        assert(whole == seq![frame_action(tenants, frames.first())] + conn_trace(tenants, rest));
        assert forall|i: int| 0 <= i < frames.len() implies #[trigger] whole[i] == frame_action(
            tenants,
            frames[i],
        ) by {
            if i == 0 {
                assert(whole[0] == frame_action(tenants, frames.first()));
            } else {
                assert(whole[i] == conn_trace(tenants, rest)[i - 1]);
                assert(rest[i - 1] == frames[i]);
            }
        }
    }
}

/// Law: a malformed frame terminates only its own connection. The frames
/// before it are decided exactly as they would be without it, the trace ends
/// with the `Close` action at the malformed frame's own position, and —
/// since a trace is a function of the table and its own connection's frames
/// alone — every other connection's trace is untouched.
pub proof fn lemma_malformed_frame_closes(tenants: Set<u64>, frames: Seq<Seq<u8>>, b: int)
    requires
        0 <= b < frames.len(),
        forall|j: int| 0 <= j < b ==> spec_envelope_ok(#[trigger] frames[j]),
        !spec_envelope_ok(frames[b]),
    ensures
        conn_trace(tenants, frames).len() == b + 1,
        forall|i: int|
            0 <= i < b ==> #[trigger] conn_trace(tenants, frames)[i] == frame_action(
                tenants,
                frames[i],
            ),
        conn_trace(tenants, frames)[b] == Action::Close,
    decreases b,
{
    let whole = conn_trace(tenants, frames);
    if b == 0 {
        assert(whole =~= seq![Action::Close]);
    } else {
        let rest = frames.drop_first();
        assert(forall|j: int| 0 <= j < rest.len() ==> #[trigger] rest[j] == frames[j + 1]);
        assert(spec_envelope_ok(frames.first()));
        lemma_malformed_frame_closes(tenants, rest, b - 1);
        assert(whole == seq![frame_action(tenants, frames.first())] + conn_trace(tenants, rest));
        assert forall|i: int| 0 <= i < b implies #[trigger] whole[i] == frame_action(
            tenants,
            frames[i],
        ) by {
            if i == 0 {
                assert(whole[0] == frame_action(tenants, frames.first()));
            } else {
                assert(whole[i] == conn_trace(tenants, rest)[i - 1]);
                assert(rest[i - 1] == frames[i]);
            }
        }
        assert(whole[b] == conn_trace(tenants, rest)[b - 1]);
    }
}

} // verus!
