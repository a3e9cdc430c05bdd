//! The event pump: drains a conversation's event stream and forwards
//! each message payload to an external sink, in production order.
//!
//! The pump forwards the payload of every incremental-fragment and
//! complete-message event verbatim, stops successfully at the first
//! task-completion event, silently passes over every other event kind,
//! reports `StreamClosedError` if the stream is exhausted without a
//! completion signal, and reports `SinkError` the moment a forward is
//! rejected — it never consumes an event past the one whose forward
//! failed.

use vstd::prelude::*;

use crate::errors::BridgeError;
use crate::session::ConversationHandle;
use crate::session::Event;

verus! {

/// The external sink the pump forwards payloads to. `received` is what
/// the sink has accepted, oldest first. A sink with `accept_limit`
/// `Some(l)` accepts forwards only while it holds fewer than `l`
/// entries and rejects every further one; `None` means it always
/// accepts.
pub struct EventSink {
    pub received: Vec<String>,
    pub accept_limit: Option<usize>,
}

impl EventSink {
    /// The characters of the accepted payloads, in arrival order.
    pub open spec fn log(self) -> Seq<Seq<char>> {
        self.received@.map_values(|s: String| s@)
    }

    /// How many more forwards the sink will accept; `None` is unbounded.
    pub open spec fn capacity(self) -> Option<int> {
        match self.accept_limit {
            None => None,
            Some(l) => Some(l - self.received@.len()),
        }
    }

    /// Whether the next forward will be accepted.
    pub open spec fn accepts_next(self) -> bool {
        match self.accept_limit {
            None => true,
            Some(l) => self.received@.len() < l,
        }
    }

    /// A sink that accepts every forward.
    pub fn new() -> (s: EventSink)
        ensures
            s.log() == Seq::<Seq<char>>::empty(),
            s.accept_limit is None,
    {
        let s = EventSink { received: Vec::new(), accept_limit: None };
        proof {
            assert(s.log() =~= Seq::<Seq<char>>::empty());
        }
        s
    }

    /// A sink that accepts exactly `limit` forwards, then rejects.
    pub fn with_limit(limit: usize) -> (s: EventSink)
        ensures
            s.log() == Seq::<Seq<char>>::empty(),
            s.accept_limit == Some(limit),
    {
        let s = EventSink { received: Vec::new(), accept_limit: Some(limit) };
        proof {
            assert(s.log() =~= Seq::<Seq<char>>::empty());
        }
        s
    }

    /// Forward one payload. Accepted payloads are appended to the log
    /// in arrival order; a rejected forward leaves the sink unchanged.
    pub fn send(&mut self, msg: String) -> (r: Result<(), BridgeError>)
        ensures
            old(self).accepts_next() ==> r == Ok::<(), BridgeError>(())
                && final(self).log() == old(self).log().push(msg@)
                && final(self).received@.len() == old(self).received@.len() + 1
                && final(self).accept_limit == old(self).accept_limit,
            !old(self).accepts_next() ==> r == Err::<(), BridgeError>(BridgeError::SinkError)
                && *final(self) == *old(self),
    {
        let accepted = match self.accept_limit {
            None => true,
            Some(l) => self.received.len() < l,
        };
        if accepted {
            let ghost log0 = self.log();
            let ghost msgv = msg@;
            self.received.push(msg);
            proof {
                assert(self.log() =~= log0.push(msgv));
            }
            Ok(())
        } else {
            Err(BridgeError::SinkError)
        }
    }
}

/// The payload an event asks the pump to forward, if any.
pub open spec fn forward_payload(e: Event) -> Option<Seq<char>> {
    match e {
        Event::AgentMessageDelta { delta } => Some(delta@),
        Event::AgentMessage { message } => Some(message@),
        Event::TaskComplete => None,
        Event::Other => None,
    }
}

/// What one full pump run does: how many events it consumes, which
/// payloads it forwards, and how it ends.
pub struct PumpTrace {
    pub consumed: int,
    pub sent: Seq<Seq<char>>,
    pub outcome: Result<(), BridgeError>,
}

/// One fewer accepted forward left.
pub open spec fn cap_minus_one(cap: Option<int>) -> Option<int> {
    match cap {
        None => None,
        Some(c) => Some(c - 1),
    }
}

/// Whether a sink with this capacity accepts the next forward.
pub open spec fn cap_allows(cap: Option<int>) -> bool {
    match cap {
        None => true,
        Some(c) => c > 0,
    }
}

/// The exact behaviour of the pump on a stream of pending events when
/// the sink will still accept `cap` forwards: events are consumed in
/// order; a completion event stops the run successfully; a payload is
/// forwarded if the sink accepts, and the run stops with `SinkError`
/// the moment one is rejected; an exhausted stream without completion
/// ends with `StreamClosedError`.
pub open spec fn pump_trace(events: Seq<Event>, cap: Option<int>) -> PumpTrace
    decreases events.len(),
{
    if events.len() == 0 {
        PumpTrace {
            consumed: 0,
            sent: Seq::empty(),
            outcome: Err(BridgeError::StreamClosedError),
        }
    } else if events[0] is TaskComplete {
        PumpTrace { consumed: 1, sent: Seq::empty(), outcome: Ok(()) }
    } else {
        match forward_payload(events[0]) {
            None => {
                let t = pump_trace(events.drop_first(), cap);
                PumpTrace { consumed: t.consumed + 1, sent: t.sent, outcome: t.outcome }
            },
            Some(p) => {
                if cap_allows(cap) {
                    let t = pump_trace(events.drop_first(), cap_minus_one(cap));
                    PumpTrace {
                        consumed: t.consumed + 1,
                        sent: seq![p] + t.sent,
                        outcome: t.outcome,
                    }
                } else {
                    PumpTrace {
                        consumed: 1,
                        sent: Seq::empty(),
                        outcome: Err(BridgeError::SinkError),
                    }
                }
            },
        }
    }
}

/// The payloads of the events before the first completion event, in
/// production order: what an unbounded sink receives.
pub open spec fn pump_log(events: Seq<Event>) -> Seq<Seq<char>>
    decreases events.len(),
{
    if events.len() == 0 {
        Seq::empty()
    } else if events[0] is TaskComplete {
        Seq::empty()
    } else {
        match forward_payload(events[0]) {
            None => pump_log(events.drop_first()),
            Some(p) => seq![p] + pump_log(events.drop_first()),
        }
    }
}

/// Whether a completion event occurs in the stream.
pub open spec fn has_completion(events: Seq<Event>) -> bool
    decreases events.len(),
{
    if events.len() == 0 {
        false
    } else {
        events[0] is TaskComplete || has_completion(events.drop_first())
    }
}

/// Drain the handle's pending events and forward their payloads to the
/// sink, in exactly the order the conversation task produced them.
///
/// The run behaves as `pump_trace` of the pending events and the
/// sink's remaining capacity says: it ends with `Ok` at the first
/// completion event, with `StreamClosedError` if the stream runs out
/// first, and with `SinkError` as soon as the sink rejects a forward,
/// consuming no event past the rejected one.
pub fn pump_events(h: &mut ConversationHandle, sink: &mut EventSink) -> (r: Result<
    (),
    BridgeError,
>)
    requires
        old(h).wf(),
    ensures
        ({
            let t = pump_trace(old(h).unread(), old(sink).capacity());
            &&& r == t.outcome
            &&& final(h).wf()
            &&& final(h).cursor == old(h).cursor + t.consumed
            &&& final(h).inbox@ == old(h).inbox@
            &&& final(h).outbox@ == old(h).outbox@
            &&& final(h).id == old(h).id
            &&& final(h).config == old(h).config
            &&& final(h).closed == old(h).closed
            &&& final(sink).log() == old(sink).log() + t.sent
            &&& final(sink).accept_limit == old(sink).accept_limit
        }),
{
    let ghost t = pump_trace(old(h).unread(), old(sink).capacity());
    let ghost mut sent_acc = Seq::<Seq<char>>::empty();
    proof {
        assert(old(sink).log() + sent_acc =~= old(sink).log());
        assert(sent_acc + pump_trace(h.unread(), sink.capacity()).sent =~= pump_trace(
            h.unread(),
            sink.capacity(),
        ).sent);
    }
    while h.cursor < h.inbox.len()
        invariant
            h.wf(),
            h.inbox@ == old(h).inbox@,
            h.outbox@ == old(h).outbox@,
            h.id == old(h).id,
            h.config == old(h).config,
            h.closed == old(h).closed,
            old(h).cursor <= h.cursor,
            sink.accept_limit == old(sink).accept_limit,
            sink.log() == old(sink).log() + sent_acc,
            t == pump_trace(old(h).unread(), old(sink).capacity()),
            t.outcome == pump_trace(h.unread(), sink.capacity()).outcome,
            t.consumed == h.cursor - old(h).cursor + pump_trace(
                h.unread(),
                sink.capacity(),
            ).consumed,
            t.sent == sent_acc + pump_trace(h.unread(), sink.capacity()).sent,
        decreases h.inbox@.len() - h.cursor,
    {
        let ghost u = h.unread();
        let ghost capn = sink.capacity();
        let c = h.cursor;
        proof {
            assert(u.len() > 0);
            assert(u[0] == h.inbox@[c as int]);
        }
        let mut payload: Option<String> = None;
        let mut done = false;
        match &h.inbox[c] {
            Event::TaskComplete => {
                done = true;
            },
            Event::AgentMessageDelta { delta } => {
                payload = Some(delta.clone());
            },
            Event::AgentMessage { message } => {
                payload = Some(message.clone());
            },
            Event::Other => {},
        }
        h.cursor = c + 1;
        proof {
            assert(h.unread() =~= u.drop_first());
        }
        if done {
            proof {
                assert(sink.log() =~= old(sink).log() + (sent_acc
                    + Seq::<Seq<char>>::empty()));
            }
            return Ok(());
        }
        if let Some(msg) = payload {
            let ghost msgv = msg@;
            proof {
                assert(forward_payload(u[0]) == Some(msgv));
            }
            match sink.send(msg) {
                Ok(()) => {
                    proof {
                        assert(cap_allows(capn));
                        assert(sink.capacity() == cap_minus_one(capn));
                        sent_acc = sent_acc.push(msgv);
                        assert(sink.log() =~= old(sink).log() + sent_acc);
                        assert(sent_acc + pump_trace(h.unread(), sink.capacity()).sent
                            =~= (sent_acc.drop_last() + (seq![msgv] + pump_trace(
                            h.unread(),
                            sink.capacity(),
                        ).sent)));
                    }
                },
                Err(e) => {
                    proof {
                        assert(!cap_allows(capn));
                        assert(sink.log() =~= old(sink).log() + (sent_acc
                            + Seq::<Seq<char>>::empty()));
                    }
                    return Err(e);
                },
            }
        }
    }
    proof {
        assert(h.unread() =~= Seq::<Event>::empty());
        assert(sink.log() =~= old(sink).log() + (sent_acc + Seq::<Seq<char>>::empty()));
    }
    Err(BridgeError::StreamClosedError)
}

/// A pump run ends in success, a closed stream, or a rejected forward —
/// never in any other way.
pub proof fn lemma_pump_outcome(events: Seq<Event>, cap: Option<int>)
    ensures
        pump_trace(events, cap).outcome == Ok::<(), BridgeError>(()) || pump_trace(
            events,
            cap,
        ).outcome == Err::<(), BridgeError>(BridgeError::StreamClosedError) || pump_trace(
            events,
            cap,
        ).outcome == Err::<(), BridgeError>(BridgeError::SinkError),
    decreases events.len(),
{
    if events.len() == 0 {
    } else if events[0] is TaskComplete {
    } else {
        match forward_payload(events[0]) {
            None => {
                lemma_pump_outcome(events.drop_first(), cap);
            },
            Some(p) => {
                if cap_allows(cap) {
                    lemma_pump_outcome(events.drop_first(), cap_minus_one(cap));
                }
            },
        }
    }
}

/// Event-order law: as long as the sink accepts every forward, the pump
/// forwards exactly the payloads that precede the first completion
/// event, in production order, and ends with success exactly when a
/// completion event occurs (and with a closed stream otherwise).
pub proof fn lemma_pump_ordered(events: Seq<Event>, cap: Option<int>)
    requires
        cap is Some ==> pump_log(events).len() <= cap->0,
    ensures
        pump_trace(events, cap).sent == pump_log(events),
        has_completion(events) ==> pump_trace(events, cap).outcome == Ok::<(), BridgeError>(()),
        !has_completion(events) ==> pump_trace(events, cap).outcome == Err::<(), BridgeError>(
            BridgeError::StreamClosedError,
        ),
    decreases events.len(),
{
    if events.len() == 0 {
    } else if events[0] is TaskComplete {
    } else {
        match forward_payload(events[0]) {
            None => {
                lemma_pump_ordered(events.drop_first(), cap);
            },
            Some(p) => {
                lemma_pump_ordered(events.drop_first(), cap_minus_one(cap));
            },
        }
    }
}

/// Sink-failure law: if the stream holds more forwardable payloads than
/// the sink will accept, the pump ends with `SinkError`, forwards
/// exactly the accepted prefix of the payloads, and consumes exactly
/// the events up to and including the one whose forward was rejected:
/// the consumed prefix holds exactly one more forwardable payload than
/// the sink accepted.
pub proof fn lemma_pump_sink_failure(events: Seq<Event>, cap: Option<int>)
    requires
        cap is Some,
        0 <= cap->0,
        pump_log(events).len() > cap->0,
    ensures
        pump_trace(events, cap).outcome == Err::<(), BridgeError>(BridgeError::SinkError),
        pump_trace(events, cap).sent == pump_log(events).take(cap->0),
        1 <= pump_trace(events, cap).consumed <= events.len(),
        pump_log(events.take(pump_trace(events, cap).consumed)).len() == cap->0 + 1,
    decreases events.len(),
{
    if events.len() == 0 {
    } else if events[0] is TaskComplete {
    } else {
        let rest = events.drop_first();
        let t = pump_trace(events, cap);
        match forward_payload(events[0]) {
            None => {
                lemma_pump_sink_failure(rest, cap);
                let tr = pump_trace(rest, cap);
                assert(t.consumed == tr.consumed + 1);
                assert(events.take(t.consumed).drop_first() =~= rest.take(tr.consumed));
                assert(events.take(t.consumed)[0] == events[0]);
                assert(events.take(t.consumed).len() == t.consumed);
                assert(pump_log(events.take(t.consumed)) == pump_log(rest.take(tr.consumed)));
            },
            Some(p) => {
                if cap->0 > 0 {
                    assert(pump_log(events) == seq![p] + pump_log(rest));
                    assert(pump_log(rest).len() > cap->0 - 1);
                    lemma_pump_sink_failure(rest, cap_minus_one(cap));
                    let tr = pump_trace(rest, cap_minus_one(cap));
                    assert(t.consumed == tr.consumed + 1);
                    assert(events.take(t.consumed).drop_first() =~= rest.take(tr.consumed));
                    assert(events.take(t.consumed)[0] == events[0]);
                    assert(events.take(t.consumed).len() == t.consumed);
                    assert(pump_log(events.take(t.consumed)) == seq![p] + pump_log(
                        rest.take(tr.consumed),
                    ));
                    assert((seq![p] + pump_log(rest)).take(cap->0) =~= seq![p] + pump_log(
                        rest,
                    ).take(cap->0 - 1));
                } else {
                    assert(t.consumed == 1);
                    assert(events.take(1).drop_first() =~= Seq::<Event>::empty());
                    assert(events.take(1)[0] == events[0]);
                    assert(events.take(1).len() == 1);
                    assert(pump_log(events.take(1)) == seq![p] + pump_log(Seq::<Event>::empty()));
                    assert(pump_log(events.take(1)).len() == 1);
                    assert(pump_log(events).take(0) =~= Seq::<Seq<char>>::empty());
                }
            },
        }
    }
}

} // verus!
