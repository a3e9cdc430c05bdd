//! Conversation handles and the session registry.
//!
//! A [`ConversationHandle`] is the bridge's view of one running
//! conversation task: an input queue of operations submitted by the
//! front-end and an output queue of events produced by the task. The
//! [`SessionRegistry`] maps opaque 128-bit session identifiers to
//! handles; at most one handle exists per identifier, and an insertion
//! never overwrites an existing entry.

use vstd::prelude::*;

use crate::config::Config;
use crate::errors::BridgeError;

verus! {

/// One unit of input carried by an operation.
pub enum InputItem {
    /// Plain user text.
    Text { text: String },
}

/// A request submitted into a running conversation.
pub enum Operation {
    /// The user submitted input items.
    UserInput { items: Vec<InputItem> },
}

/// A unit of output produced by a conversation task, in production order.
pub enum Event {
    /// An incremental fragment of the message under construction.
    AgentMessageDelta { delta: String },
    /// A complete message.
    AgentMessage { message: String },
    /// The running task has finished; the stream ends successfully.
    TaskComplete,
    /// Any other kind of event; the bridge passes over it silently.
    Other,
}

/// The mathematical value of an event: its kind and the characters of
/// its payload, if it carries one.
pub enum EventV {
    DeltaV(Seq<char>),
    MessageV(Seq<char>),
    DoneV,
    OtherV,
}

impl Event {
    /// The abstract value of this event.
    pub open spec fn view_of(self) -> EventV {
        match self {
            Event::AgentMessageDelta { delta } => EventV::DeltaV(delta@),
            Event::AgentMessage { message } => EventV::MessageV(message@),
            Event::TaskComplete => EventV::DoneV,
            Event::Other => EventV::OtherV,
        }
    }
}

/// The bridge's view of one running conversation task.
///
/// `inbox` holds the events the task has produced, oldest first;
/// `cursor` is the index of the next event the bridge will consume.
/// `outbox` holds the operations submitted to the task, oldest first.
/// `closed` is set once the task has terminated and rejects further
/// submissions.
pub struct ConversationHandle {
    pub id: u128,
    pub config: Config,
    pub inbox: Vec<Event>,
    pub cursor: usize,
    pub outbox: Vec<Operation>,
    pub closed: bool,
}

impl ConversationHandle {
    /// The handle never consumed more events than the task produced.
    pub open spec fn wf(self) -> bool {
        self.cursor <= self.inbox@.len()
    }

    /// The events produced but not yet consumed, oldest first.
    pub open spec fn unread(self) -> Seq<Event> {
        self.inbox@.skip(self.cursor as int)
    }

    /// A fresh handle for a task constructed from `config` that has
    /// already produced `events`.
    pub fn new(id: u128, config: Config, events: Vec<Event>) -> (h: ConversationHandle)
        ensures
            h.wf(),
            h.id == id,
            h.config == config,
            h.inbox@ == events@,
            h.cursor == 0,
            h.outbox@ == Seq::<Operation>::empty(),
            !h.closed,
    {
        ConversationHandle {
            id,
            config,
            inbox: events,
            cursor: 0,
            outbox: Vec::new(),
            closed: false,
        }
    }

    /// Hand an operation to the conversation task. Fails with
    /// `SubmissionError` once the task has terminated.
    pub fn submit(&mut self, op: Operation) -> (r: Result<(), BridgeError>)
        ensures
            old(self).closed ==> r == Err::<(), BridgeError>(BridgeError::SubmissionError)
                && *final(self) == *old(self),
            !old(self).closed ==> r == Ok::<(), BridgeError>(())
                && final(self).outbox@ == old(self).outbox@.push(op)
                && final(self).id == old(self).id
                && final(self).config == old(self).config
                && final(self).inbox@ == old(self).inbox@
                && final(self).cursor == old(self).cursor
                && final(self).closed == old(self).closed,
    {
        if self.closed {
            Err(BridgeError::SubmissionError)
        } else {
            self.outbox.push(op);
            Ok(())
        }
    }

    /// Consume the next event, in production order. Fails with
    /// `StreamClosedError` once every produced event has been consumed.
    pub fn next_event(&mut self) -> (r: Result<Event, BridgeError>)
        requires
            old(self).wf(),
        ensures
            final(self).wf(),
            final(self).id == old(self).id,
            final(self).config == old(self).config,
            final(self).inbox@ == old(self).inbox@,
            final(self).outbox@ == old(self).outbox@,
            final(self).closed == old(self).closed,
            old(self).cursor == old(self).inbox@.len() ==> r == Err::<Event, BridgeError>(
                BridgeError::StreamClosedError,
            ) && final(self).cursor == old(self).cursor,
            old(self).cursor < old(self).inbox@.len() ==> r is Ok
                && r->Ok_0.view_of() == old(self).inbox@[old(self).cursor as int].view_of()
                && final(self).cursor == old(self).cursor + 1,
    {
        if self.cursor == self.inbox.len() {
            Err(BridgeError::StreamClosedError)
        } else {
            let e = match &self.inbox[self.cursor] {
                Event::AgentMessageDelta { delta } => Event::AgentMessageDelta {
                    delta: delta.clone(),
                },
                Event::AgentMessage { message } => Event::AgentMessage {
                    message: message.clone(),
                },
                Event::TaskComplete => Event::TaskComplete,
                Event::Other => Event::Other,
            };
            self.cursor = self.cursor + 1;
            Ok(e)
        }
    }

    /// The conversation task appends one more event to its output.
    pub fn deliver(&mut self, e: Event)
        ensures
            final(self).inbox@ == old(self).inbox@.push(e),
            final(self).id == old(self).id,
            final(self).config == old(self).config,
            final(self).cursor == old(self).cursor,
            final(self).outbox@ == old(self).outbox@,
            final(self).closed == old(self).closed,
    {
        self.inbox.push(e);
    }

    /// The conversation task terminates: later submissions fail.
    pub fn close(&mut self)
        ensures
            final(self).closed,
            final(self).id == old(self).id,
            final(self).config == old(self).config,
            final(self).inbox@ == old(self).inbox@,
            final(self).cursor == old(self).cursor,
            final(self).outbox@ == old(self).outbox@,
    {
        self.closed = true;
    }
}

/// A mapping from session identifiers to conversation handles.
pub struct SessionRegistry {
    pub sessions: Vec<ConversationHandle>,
}

/// The handle the registry holds for `id`: the first (and, in a
/// well-formed registry, only) entry carrying that identifier.
pub open spec fn spec_lookup(sessions: Seq<ConversationHandle>, id: u128) -> Option<
    ConversationHandle,
>
    decreases sessions.len(),
{
    if sessions.len() == 0 {
        None
    } else if sessions[0].id == id {
        Some(sessions[0])
    } else {
        spec_lookup(sessions.drop_first(), id)
    }
}

impl SessionRegistry {
    /// Identifiers are unique and every handle is well formed.
    pub open spec fn wf(self) -> bool {
        &&& forall|i: int, j: int|
            0 <= i < j < self.sessions@.len() ==> self.sessions@[i].id != self.sessions@[j].id
        &&& forall|i: int| 0 <= i < self.sessions@.len() ==> (#[trigger] self.sessions@[i]).wf()
    }

    /// Some session carries this identifier.
    pub open spec fn contains_id(self, id: u128) -> bool {
        exists|i: int| 0 <= i < self.sessions@.len() && (#[trigger] self.sessions@[i]).id == id
    }

    /// An empty registry, created once at process start.
    pub fn new() -> (r: SessionRegistry)
        ensures
            r.wf(),
            r.sessions@ == Seq::<ConversationHandle>::empty(),
    {
        SessionRegistry { sessions: Vec::new() }
    }

    /// Insert a handle under its identifier. A colliding identifier is
    /// an error, never a silent replacement.
    pub fn insert(&mut self, h: ConversationHandle) -> (r: Result<(), BridgeError>)
        requires
            old(self).wf(),
            h.wf(),
        ensures
            final(self).wf(),
            old(self).contains_id(h.id) ==> r == Err::<(), BridgeError>(
                BridgeError::EngineStartupError,
            ) && *final(self) == *old(self),
            !old(self).contains_id(h.id) ==> r == Ok::<(), BridgeError>(())
                && final(self).sessions@ == old(self).sessions@.push(h),
    {
        let id = h.id;
        let mut i: usize = 0;
        while i < self.sessions.len()
            invariant
                i <= self.sessions@.len(),
                *self == *old(self),
                old(self).wf(),
                id == h.id,
                forall|j: int| 0 <= j < i ==> (#[trigger] self.sessions@[j]).id != id,
            decreases self.sessions@.len() - i,
        {
            if self.sessions[i].id == id {
                proof {
                    assert(old(self).sessions@[i as int].id == h.id);
                    assert(old(self).contains_id(h.id));
                }
                return Err(BridgeError::EngineStartupError);
            }
            i = i + 1;
        }
        self.sessions.push(h);
        Ok(())
    }

    /// Look a session up by identifier; fails with `UnknownSessionError`
    /// if no entry exists.
    pub fn lookup(&self, id: u128) -> (r: Result<&ConversationHandle, BridgeError>)
        requires
            self.wf(),
        ensures
            self.contains_id(id) <==> r is Ok,
            r is Ok ==> Some(*r->Ok_0) == spec_lookup(self.sessions@, id) && r->Ok_0.id == id,
            !self.contains_id(id) ==> r == Err::<&ConversationHandle, BridgeError>(
                BridgeError::UnknownSessionError,
            ),
    {
        proof {
            assert(self.sessions@.skip(0) =~= self.sessions@);
        }
        let mut i: usize = 0;
        while i < self.sessions.len()
            invariant
                self.wf(),
                i <= self.sessions@.len(),
                forall|j: int| 0 <= j < i ==> (#[trigger] self.sessions@[j]).id != id,
                spec_lookup(self.sessions@, id) == spec_lookup(self.sessions@.skip(i as int), id),
            decreases self.sessions@.len() - i,
        {
            proof {
                lemma_spec_lookup_step(self.sessions@, id, i as int);
            }
            if self.sessions[i].id == id {
                proof {
                    assert(self.sessions@[i as int].id == id);
                }
                return Ok(&self.sessions[i]);
            }
            i = i + 1;
        }
        proof {
            lemma_spec_lookup_step(self.sessions@, id, i as int);
        }
        Err(BridgeError::UnknownSessionError)
    }

    /// Submit an operation to the session with the given identifier:
    /// only that session's input queue grows, by exactly that operation.
    pub fn submit_to(&mut self, id: u128, op: Operation) -> (r: Result<(), BridgeError>)
        requires
            old(self).wf(),
        ensures
            final(self).wf(),
            !old(self).contains_id(id) ==> r == Err::<(), BridgeError>(
                BridgeError::UnknownSessionError,
            ) && *final(self) == *old(self),
            old(self).contains_id(id) && spec_lookup(old(self).sessions@, id)->Some_0.closed
                ==> r == Err::<(), BridgeError>(BridgeError::SubmissionError) && *final(self)
                == *old(self),
            old(self).contains_id(id) && !spec_lookup(old(self).sessions@, id)->Some_0.closed ==> r
                == Ok::<(), BridgeError>(()) && final(self).sessions@.len()
                == old(self).sessions@.len() && (forall|j: int|
                0 <= j < old(self).sessions@.len() && (#[trigger] old(self).sessions@[j]).id != id
                    ==> final(self).sessions@[j] == old(self).sessions@[j]) && (forall|j: int|
                0 <= j < old(self).sessions@.len() && (#[trigger] old(self).sessions@[j]).id == id
                    ==> {
                    &&& final(self).sessions@[j].id == id
                    &&& final(self).sessions@[j].config == old(self).sessions@[j].config
                    &&& final(self).sessions@[j].outbox@ == old(self).sessions@[j].outbox@.push(op)
                    &&& final(self).sessions@[j].inbox@ == old(self).sessions@[j].inbox@
                    &&& final(self).sessions@[j].cursor == old(self).sessions@[j].cursor
                    &&& final(self).sessions@[j].closed == old(self).sessions@[j].closed
                }),
    {
        let ghost s0 = self.sessions@;
        proof {
            assert(self.sessions@.skip(0) =~= self.sessions@);
        }
        let mut i: usize = 0;
        while i < self.sessions.len()
            invariant
                i <= self.sessions@.len(),
                *self == *old(self),
                old(self).wf(),
                s0 == self.sessions@,
                forall|j: int| 0 <= j < i ==> (#[trigger] self.sessions@[j]).id != id,
                spec_lookup(self.sessions@, id) == spec_lookup(self.sessions@.skip(i as int), id),
            decreases self.sessions@.len() - i,
        {
            proof {
                lemma_spec_lookup_step(self.sessions@, id, i as int);
            }
            if self.sessions[i].id == id {
                proof {
                    assert(self.sessions@[i as int].id == id);
                    assert(spec_lookup(s0, id) == Some(s0[i as int]));
                }
                if self.sessions[i].closed {
                    return Err(BridgeError::SubmissionError);
                }
                let ghost si = i as int;
                let mut h = self.sessions.remove(i);
                h.outbox.push(op);
                let ghost hn = h;
                self.sessions.insert(i, h);
                proof {
                    assert(self.sessions@ =~= s0.update(si, hn));
                    assert(hn.id == s0[si].id);
                    assert(hn.wf()) by {
                        assert(s0[si].wf());
                    }
                    assert forall|j: int|
                        0 <= j < s0.len() && (#[trigger] s0[j]).id == id implies j == si by {
                        if j < si {
                            assert(s0[j].id != id);
                        } else if j > si {
                            assert(s0[si].id != s0[j].id);
                        }
                    }
                }
                return Ok(());
            }
            i = i + 1;
        }
        proof {
            lemma_spec_lookup_step(self.sessions@, id, i as int);
        }
        Err(BridgeError::UnknownSessionError)
    }
}

/// An identifier that no session carries is found by no lookup.
pub proof fn lemma_lookup_unknown(sessions: Seq<ConversationHandle>, id: u128)
    requires
        forall|i: int| 0 <= i < sessions.len() ==> (#[trigger] sessions[i]).id != id,
    ensures
        spec_lookup(sessions, id) is None,
    decreases sessions.len(),
{
    if sessions.len() > 0 {
        assert forall|i: int|
            0 <= i < sessions.drop_first().len() implies (#[trigger] sessions.drop_first()[i]).id
            != id by {
            assert(sessions.drop_first()[i] == sessions[i + 1]);
        }
        lemma_lookup_unknown(sessions.drop_first(), id);
    }
}

/// Looking up in a registry extended by one handle: an already-known
/// identifier still finds its old handle; the new handle's own
/// identifier finds the new handle; everything else is still unknown.
proof fn lemma_spec_lookup_push(sessions: Seq<ConversationHandle>, h: ConversationHandle, id: u128)
    ensures
        spec_lookup(sessions.push(h), id) == (if spec_lookup(sessions, id) is Some {
            spec_lookup(sessions, id)
        } else if h.id == id {
            Some(h)
        } else {
            None
        }),
    decreases sessions.len(),
{
    let p = sessions.push(h);
    if sessions.len() == 0 {
        assert(p[0] == h);
        if h.id != id {
            assert(p.drop_first() =~= Seq::<ConversationHandle>::empty());
            assert(spec_lookup(Seq::<ConversationHandle>::empty(), id) is None);
        }
    } else {
        assert(p[0] == sessions[0]);
        if sessions[0].id != id {
            assert(p.drop_first() =~= sessions.drop_first().push(h));
            lemma_spec_lookup_push(sessions.drop_first(), h, id);
        }
    }
}

/// Fresh-session law: a handle inserted under an identifier that no
/// session carried is found by a lookup with exactly that identifier,
/// and the handle found is the inserted one, identity and all.
pub proof fn lemma_create_then_lookup(
    before: Seq<ConversationHandle>,
    after: Seq<ConversationHandle>,
    h: ConversationHandle,
)
    requires
        after == before.push(h),
        forall|i: int| 0 <= i < before.len() ==> (#[trigger] before[i]).id != h.id,
    ensures
        spec_lookup(after, h.id) == Some(h),
{
    lemma_lookup_unknown(before, h.id);
    lemma_spec_lookup_push(before, h, h.id);
}

/// Unfolding `spec_lookup` at index `i`: if no entry before `i` carries
/// `id`, the lookup over the suffix from `i` steps to the suffix from
/// `i + 1` unless entry `i` itself carries `id`.
pub proof fn lemma_spec_lookup_step(sessions: Seq<ConversationHandle>, id: u128, i: int)
    requires
        0 <= i <= sessions.len(),
    ensures
        i < sessions.len() && sessions[i].id == id ==> spec_lookup(sessions.skip(i), id) == Some(
            sessions[i],
        ),
        i < sessions.len() && sessions[i].id != id ==> spec_lookup(sessions.skip(i), id)
            == spec_lookup(sessions.skip(i + 1), id),
        i == sessions.len() ==> spec_lookup(sessions.skip(i), id) is None,
{
    if i < sessions.len() {
        assert(sessions.skip(i)[0] == sessions[i]);
        assert(sessions.skip(i).drop_first() =~= sessions.skip(i + 1));
    }
}

} // verus!
