use vstd::prelude::*;

use crate::codec::decode_message;
use crate::codec::decode_spec;
use crate::errors::Error;
use crate::models::Node;
use crate::store::SegmentStore;
use crate::store::upsert_spec;

verus! {

/// The phases of the ingestion loop. There is no terminal phase: the loop
/// runs for the lifetime of the process, and a transport failure leads back
/// through `Reconnecting` rather than out.
#[derive(Clone, Copy, Debug, PartialEq, Eq, Structural)]
pub enum LoopPhase {
    Connecting,
    Subscribed,
    Receiving,
    Reconnecting,
}

/// What the transport reports to the loop, stripped to what the decision
/// needs: the connection came up, the subscriptions were acknowledged, a
/// message arrived, or the connection was lost.
#[derive(Clone, Copy, Debug, PartialEq, Eq, Structural)]
pub enum TransportEvent {
    Connected,
    SubscribeAcked,
    MessageArrived,
    ConnectionLost,
}

/// What the loop does next: issue the per-segment subscriptions, keep
/// polling, hand the arrived message to decoding and the store, or tear
/// down and reconnect with backoff.
#[derive(Clone, Copy, Debug, PartialEq, Eq, Structural)]
pub enum LoopAction {
    Subscribe,
    Poll,
    HandleMessage,
    Reconnect,
}

/// One decision of the ingestion loop: from the current phase and the
/// transport's event to the next phase and the action to perform. A lost
/// connection always leads to `Reconnecting`, never to termination; a
/// message is handled only in the `Receiving` phase and is otherwise
/// ignored (a late delivery during resubscription changes no state).
pub fn loop_step(phase: LoopPhase, event: TransportEvent) -> (r: (LoopPhase, LoopAction))
    ensures
        event == TransportEvent::ConnectionLost ==> r == (
            LoopPhase::Reconnecting,
            LoopAction::Reconnect,
        ),
        (phase == LoopPhase::Connecting || phase == LoopPhase::Reconnecting) && event
            == TransportEvent::Connected ==> r == (LoopPhase::Subscribed, LoopAction::Subscribe),
        phase == LoopPhase::Subscribed && event == TransportEvent::SubscribeAcked ==> r == (
            LoopPhase::Receiving,
            LoopAction::Poll,
        ),
        phase == LoopPhase::Receiving && event == TransportEvent::MessageArrived ==> r == (
            LoopPhase::Receiving,
            LoopAction::HandleMessage,
        ),
        phase != LoopPhase::Connecting && phase != LoopPhase::Reconnecting && event
            == TransportEvent::Connected ==> r == (phase, LoopAction::Poll),
        phase != LoopPhase::Subscribed && event == TransportEvent::SubscribeAcked ==> r == (
            phase,
            LoopAction::Poll,
        ),
        phase != LoopPhase::Receiving && event == TransportEvent::MessageArrived ==> r == (
            phase,
            LoopAction::Poll,
        ),
        r.0 != LoopPhase::Receiving ==> r.1 != LoopAction::HandleMessage,
{
    match event {
        TransportEvent::ConnectionLost => (LoopPhase::Reconnecting, LoopAction::Reconnect),
        TransportEvent::Connected => match phase {
            LoopPhase::Connecting | LoopPhase::Reconnecting => (
                LoopPhase::Subscribed,
                LoopAction::Subscribe,
            ),
            _ => (phase, LoopAction::Poll),
        },
        TransportEvent::SubscribeAcked => match phase {
            LoopPhase::Subscribed => (LoopPhase::Receiving, LoopAction::Poll),
            _ => (phase, LoopAction::Poll),
        },
        TransportEvent::MessageArrived => match phase {
            LoopPhase::Receiving => (LoopPhase::Receiving, LoopAction::HandleMessage),
            _ => (phase, LoopAction::Poll),
        },
    }
}

/// What one inbound message does to the store's state: a decodable message
/// upserts its reading stamped with the time of receipt; an undecodable one
/// changes nothing.
pub open spec fn ingest_spec(
    s: Seq<Option<Node>>,
    topic: Seq<u8>,
    payload: Seq<u8>,
    timestamp: i64,
) -> Seq<Option<Node>> {
    match decode_spec(topic, payload, s.len() as int) {
        Some(p) => upsert_spec(s, p.0, p.1 as i32, timestamp),
        None => s,
    }
}

/// Handle one inbound message: decode the segment id from the channel name
/// and the speed from the payload, stamp the reading with the
/// ingestion-side `timestamp`, and upsert it. A malformed message is
/// dropped — the store is untouched, the error names the cause, and the
/// caller's loop goes on to the next message.
pub fn ingest_message(
    store: &mut SegmentStore,
    topic: &[u8],
    payload: &[u8],
    timestamp: i64,
) -> (r: Result<(), Error>)
    requires
        old(store).wf(),
    ensures
        final(store).wf(),
        final(store)@ == ingest_spec(old(store)@, topic@, payload@, timestamp),
        r is Ok <==> decode_spec(topic@, payload@, old(store)@.len() as int) is Some,
        r is Err ==> r == Err::<(), Error>(Error::DecodeError),
{
    let n = store.len();
    match decode_message(topic, payload, n) {
        Ok((id, speed)) => {
            store.upsert(id, speed as i32, timestamp);
            Ok(())
        },
        Err(e) => Err(e),
    }
}

/// Malformed-message resilience: an undecodable message leaves the store
/// exactly as it was, so a valid message ingested after it lands on the
/// same state it would have reached had the malformed one never arrived.
pub proof fn lemma_malformed_message_resilience(
    s: Seq<Option<Node>>,
    bad_topic: Seq<u8>,
    bad_payload: Seq<u8>,
    bad_ts: i64,
    topic: Seq<u8>,
    payload: Seq<u8>,
    timestamp: i64,
)
    requires
        decode_spec(bad_topic, bad_payload, s.len() as int) is None,
    ensures
        ingest_spec(ingest_spec(s, bad_topic, bad_payload, bad_ts), topic, payload, timestamp)
            == ingest_spec(s, topic, payload, timestamp),
{
}

} // verus!
