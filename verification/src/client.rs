//! The client core: connection records, the handler registry, and the
//! dispatch of inbound envelopes.
//!
//! [`RpcClient`] is the verified heart of the RPC client.  It owns, per
//! connection, the outstanding-request map and the message-id counter, and,
//! per client, the ordered handler registry.  Each public operation is a
//! step of the protocol state machine: the surrounding (unverified) runtime
//! performs the actual reads and writes and feeds the results back in.

use std::collections::HashMap;
use vstd::prelude::*;

use crate::envelope::{spec_is_request_tag, spec_response_tag, Envelope, Payload};

verus! {

broadcast use vstd::std_specs::hash::group_hash_axioms;

/// Capacity of each handler's inbound queue; a full queue stalls dispatch
/// (backpressure onto the read loop).
pub const MESSAGE_QUEUE_CAPACITY: usize = 256;

/// Opaque handle to one connection of a client.  Its numeric value is
/// meaningful only to the client that minted it.
#[derive(Clone, Copy, PartialEq, Eq, Hash, Debug)]
pub struct ConnectionId(pub u32);

/// How the transport failed, as reported by the unverified I/O layer.
#[derive(Clone, Copy, PartialEq, Eq, Debug)]
pub enum TransportErrorKind {
    BrokenPipe,
    Other,
}

/// Errors surfaced to callers of client operations.
#[derive(Clone, Copy, PartialEq, Eq, Debug)]
pub enum RpcError {
    /// The operation targeted a `ConnectionId` with no record.
    UnknownConnection,
    /// A write or read failed in the transport; carries the original kind.
    TransportFailure(TransportErrorKind),
    /// A response arrived but did not decode as the expected response variant.
    ProtocolMismatch,
    /// The response slot was abandoned before a reply arrived.
    ChannelClosed,
}

/// A received envelope with its typing erased: the wire id, the connection
/// it arrived on, and the whole envelope as body.
#[derive(Clone, Copy, PartialEq, Eq, Debug)]
pub struct ErasedMessage {
    pub id: u32,
    pub connection_id: ConnectionId,
    pub body: Envelope,
}

/// Per-connection record: the set of outstanding request ids and the
/// counter that mints fresh message ids.
pub struct RpcConnection {
    response_slots: HashMap<u32, ()>,
    next_message_id: u32,
}

/// Spec-level state of one connection.
#[verifier::ext_equal]
pub ghost struct ConnectionView {
    pub pending: Set<u32>,
    pub next_message_id: u32,
}

impl ConnectionView {
    /// Every outstanding request id was minted by this connection's counter.
    pub open spec fn wf(self) -> bool {
        forall|r: u32| self.pending.contains(r) ==> r < self.next_message_id
    }
}

impl View for RpcConnection {
    type V = ConnectionView;

    closed spec fn view(&self) -> ConnectionView {
        ConnectionView { pending: self.response_slots@.dom(), next_message_id: self.next_message_id }
    }
}

/// One registered handler: a type key (at most one slot per key across the
/// client), the payload tags its filter accepts, whether it yields requests
/// or plain messages, and its bounded inbound queue.
pub struct HandlerSlot {
    type_key: u64,
    accepts: Vec<u32>,
    wants_requests: bool,
    queue: Vec<ErasedMessage>,
}

/// Spec-level state of one handler slot.
#[verifier::ext_equal]
pub ghost struct HandlerSlotView {
    pub type_key: u64,
    pub accepts: Seq<u32>,
    pub wants_requests: bool,
    pub queue: Seq<ErasedMessage>,
}

impl View for HandlerSlot {
    type V = HandlerSlotView;

    closed spec fn view(&self) -> HandlerSlotView {
        HandlerSlotView {
            type_key: self.type_key,
            accepts: self.accepts@,
            wants_requests: self.wants_requests,
            queue: self.queue@,
        }
    }
}

/// Spec-level state of a whole client.
#[verifier::ext_equal]
pub ghost struct ClientView {
    pub connections: Map<ConnectionId, ConnectionView>,
    pub handlers: Seq<HandlerSlotView>,
    pub next_connection_id: u32,
}

impl ClientView {
    pub open spec fn has_connection(self, cid: ConnectionId) -> bool {
        self.connections.contains_key(cid)
    }

    pub open spec fn conn(self, cid: ConnectionId) -> ConnectionView {
        self.connections[cid]
    }

    pub open spec fn has_handler_type(self, type_key: u64) -> bool {
        exists|i: int| 0 <= i < self.handlers.len() && self.handlers[i].type_key == type_key
    }

    /// The same client with one connection's state replaced.
    pub open spec fn with_conn(self, cid: ConnectionId, c: ConnectionView) -> ClientView {
        ClientView { connections: self.connections.insert(cid, c), ..self }
    }

    /// The same client with one handler's queue replaced.
    pub open spec fn with_queue(self, j: int, q: Seq<ErasedMessage>) -> ClientView {
        ClientView {
            handlers: self.handlers.update(j, HandlerSlotView { queue: q, ..self.handlers[j] }),
            ..self
        }
    }

    /// Well-formedness: connections are well formed and were minted by the
    /// client's counter, and handler type keys are pairwise distinct.
    pub open spec fn wf(self) -> bool {
        &&& forall|c: ConnectionId| #[trigger]
            self.connections.contains_key(c) ==> self.connections[c].wf()
        &&& forall|c: ConnectionId| #[trigger]
            self.connections.contains_key(c) ==> c.0 < self.next_connection_id
        &&& forall|i: int, j: int|
            0 <= i < j < self.handlers.len() ==> self.handlers[i].type_key
                != self.handlers[j].type_key
    }
}

/// Index of the first handler slot whose filter accepts `tag`, if any.
pub open spec fn spec_first_accepting(handlers: Seq<HandlerSlotView>, tag: u32) -> Option<int>
    decreases handlers.len(),
{
    if handlers.len() == 0 {
        None
    } else if handlers[0].accepts.contains(tag) {
        Some(0int)
    } else {
        match spec_first_accepting(handlers.drop_first(), tag) {
            Some(j) => Some(j + 1),
            None => None,
        }
    }
}

/// `spec_first_accepting` returns exactly the first accepting slot: the slot
/// it names accepts the tag, every earlier slot rejects it, and `None` means
/// no slot accepts it at all.  This is the at-most-one-match, first-match
/// dispatch law.
pub proof fn lemma_first_accepting_is_first(handlers: Seq<HandlerSlotView>, tag: u32)
    ensures
        match spec_first_accepting(handlers, tag) {
            Some(j) => 0 <= j < handlers.len() && handlers[j].accepts.contains(tag) && (forall|
                k: int,
            |
                0 <= k < j ==> !handlers[k].accepts.contains(tag)),
            None => forall|k: int|
                0 <= k < handlers.len() ==> !handlers[k].accepts.contains(tag),
        },
    decreases handlers.len(),
{
    if handlers.len() > 0 && !handlers[0].accepts.contains(tag) {
        let rest = handlers.drop_first();
        lemma_first_accepting_is_first(rest, tag);
        assert(forall|k: int| 0 <= k < rest.len() ==> rest[k] == handlers[k + 1]);
        match spec_first_accepting(rest, tag) {
            Some(j) => {
                assert(handlers[j + 1].accepts.contains(tag));
                assert forall|k: int| 0 <= k < j + 1 implies !handlers[k].accepts.contains(
                    tag,
                ) by {
                    if k > 0 {
                        assert(handlers[k] == rest[k - 1]);
                    }
                }
            },
            None => {
                assert forall|k: int| 0 <= k < handlers.len() implies !handlers[k].accepts.contains(
                    tag,
                ) by {
                    if k > 0 {
                        assert(handlers[k] == rest[k - 1]);
                    }
                }
            },
        }
    }
}

/// A slot that accepts `tag` while every earlier slot rejects it is the one
/// `spec_first_accepting` names.
pub proof fn lemma_first_accepting_witness(handlers: Seq<HandlerSlotView>, tag: u32, j: int)
    requires
        0 <= j < handlers.len(),
        handlers[j].accepts.contains(tag),
        forall|k: int| 0 <= k < j ==> !handlers[k].accepts.contains(tag),
    ensures
        spec_first_accepting(handlers, tag) == Some(j),
    decreases handlers.len(),
{
    if j > 0 {
        assert(forall|k: int|
            0 <= k < handlers.drop_first().len() ==> handlers.drop_first()[k] == handlers[k + 1]);
        lemma_first_accepting_witness(handlers.drop_first(), tag, j - 1);
    }
}

/// If no slot accepts `tag`, `spec_first_accepting` is `None`.
pub proof fn lemma_first_accepting_none(handlers: Seq<HandlerSlotView>, tag: u32)
    requires
        forall|k: int| 0 <= k < handlers.len() ==> !handlers[k].accepts.contains(tag),
    ensures
        spec_first_accepting(handlers, tag) is None,
    decreases handlers.len(),
{
    if handlers.len() > 0 {
        assert(forall|k: int|
            0 <= k < handlers.drop_first().len() ==> handlers.drop_first()[k] == handlers[k + 1]);
        lemma_first_accepting_none(handlers.drop_first(), tag);
    }
}

/// What the read loop did with one inbound envelope.
#[derive(Clone, Copy, PartialEq, Eq, Debug)]
pub enum Dispatch {
    /// The envelope answered the outstanding request `request_id`; its slot
    /// was removed and the envelope belongs to that request's caller.
    Response { request_id: u32, envelope: Envelope },
    /// The envelope claimed to answer `responding_to`, but no such request
    /// is outstanding; it is dropped.
    StaleResponse { responding_to: u32 },
    /// The envelope was moved into the queue of handler slot `handler`.
    Delivered { handler: usize },
    /// Handler slot `handler` is the first match but its queue is full; the
    /// envelope is handed back so the caller can retry (backpressure).
    Busy { handler: usize, envelope: Envelope },
    /// No handler's filter accepts the payload; the envelope is dropped.
    Unhandled { envelope: Envelope },
}

/// One step of the read loop: where an inbound envelope goes and how the
/// client state changes.
pub open spec fn spec_dispatch(v: ClientView, cid: ConnectionId, env: Envelope) -> (ClientView,
    Dispatch) {
    match env.responding_to {
        Some(r) => {
            if v.has_connection(cid) && v.conn(cid).pending.contains(r) {
                (
                    v.with_conn(
                        cid,
                        ConnectionView { pending: v.conn(cid).pending.remove(r), ..v.conn(cid) },
                    ),
                    Dispatch::Response { request_id: r, envelope: env },
                )
            } else {
                (v, Dispatch::StaleResponse { responding_to: r })
            }
        },
        None => {
            match spec_first_accepting(v.handlers, env.payload.spec_tag()) {
                Some(j) => {
                    if v.handlers[j].queue.len() < MESSAGE_QUEUE_CAPACITY {
                        (
                            v.with_queue(
                                j,
                                v.handlers[j].queue.push(
                                    ErasedMessage { id: env.id, connection_id: cid, body: env },
                                ),
                            ),
                            Dispatch::Delivered { handler: j as usize },
                        )
                    } else {
                        (v, Dispatch::Busy { handler: j as usize, envelope: env })
                    }
                },
                None => (v, Dispatch::Unhandled { envelope: env }),
            }
        },
    }
}

/// The client after the connection record for `cid` is removed.
pub open spec fn spec_disconnect(v: ClientView, cid: ConnectionId) -> ClientView {
    ClientView { connections: v.connections.remove(cid), ..v }
}

/// An outbound request on `cid`: mints a fresh message id, records a
/// one-shot response slot under it, and yields the envelope to write.
pub open spec fn spec_request(v: ClientView, cid: ConnectionId, p: Payload) -> (ClientView, Result<
    (u32, Envelope),
    RpcError,
>) {
    if !v.has_connection(cid) {
        (v, Err(RpcError::UnknownConnection))
    } else {
        let c = v.conn(cid);
        (
            v.with_conn(
                cid,
                ConnectionView {
                    pending: c.pending.insert(c.next_message_id),
                    next_message_id: (c.next_message_id + 1) as u32,
                },
            ),
            Ok((c.next_message_id, Envelope { id: c.next_message_id, responding_to: None, payload: p })),
        )
    }
}

/// An outbound fire-and-forget message on `cid`: mints a fresh message id
/// and yields the envelope to write; no response slot is recorded.
pub open spec fn spec_send(v: ClientView, cid: ConnectionId, p: Payload) -> (ClientView, Result<
    Envelope,
    RpcError,
>) {
    if !v.has_connection(cid) {
        (v, Err(RpcError::UnknownConnection))
    } else {
        let c = v.conn(cid);
        (
            v.with_conn(
                cid,
                ConnectionView {
                    pending: c.pending,
                    next_message_id: (c.next_message_id + 1) as u32,
                },
            ),
            Ok(Envelope { id: c.next_message_id, responding_to: None, payload: p }),
        )
    }
}

/// An outbound response on `cid` answering the peer's request
/// `responding_to`: mints a fresh local message id and yields the envelope.
pub open spec fn spec_respond(
    v: ClientView,
    cid: ConnectionId,
    responding_to: u32,
    p: Payload,
) -> (ClientView, Result<Envelope, RpcError>) {
    if !v.has_connection(cid) {
        (v, Err(RpcError::UnknownConnection))
    } else {
        let c = v.conn(cid);
        (
            v.with_conn(
                cid,
                ConnectionView {
                    pending: c.pending,
                    next_message_id: (c.next_message_id + 1) as u32,
                },
            ),
            Ok(Envelope { id: c.next_message_id, responding_to: Some(responding_to), payload: p }),
        )
    }
}

/// The client after the caller of request `request_id` on `cid` abandons
/// its response slot (drops the pending future).
pub open spec fn spec_cancel(v: ClientView, cid: ConnectionId, request_id: u32) -> ClientView {
    if v.has_connection(cid) {
        v.with_conn(
            cid,
            ConnectionView { pending: v.conn(cid).pending.remove(request_id), ..v.conn(cid) },
        )
    } else {
        v
    }
}

/// Returns whether `tags` holds `tag`.
fn tag_list_contains(tags: &Vec<u32>, tag: u32) -> (r: bool)
    ensures
        r == tags@.contains(tag),
{
    let mut i: usize = 0;
    while i < tags.len()
        invariant
            i <= tags@.len(),
            forall|k: int| 0 <= k < i ==> tags@[k] != tag,
        decreases tags@.len() - i,
    {
        if tags[i] == tag {
            return true;
        }
        i += 1;
    }
    false
}

/// The client: a set of live connections, the ordered handler registry, and
/// the counter minting connection ids.
pub struct RpcClient {
    connections: HashMap<u32, RpcConnection>,
    message_handlers: Vec<HandlerSlot>,
    next_connection_id: u32,
}

impl View for RpcClient {
    type V = ClientView;

    closed spec fn view(&self) -> ClientView {
        ClientView {
            connections: Map::new(
                |cid: ConnectionId| self.connections@.contains_key(cid.0),
                |cid: ConnectionId| self.connections@[cid.0]@,
            ),
            handlers: self.message_handlers@.map_values(|s: HandlerSlot| s@),
            next_connection_id: self.next_connection_id,
        }
    }
}

impl RpcClient {
    pub open spec fn inv(&self) -> bool {
        self@.wf()
    }

    /// Creates a client with no connections, no handlers, and its
    /// connection-id counter at 0.
    pub fn new() -> (client: RpcClient)
        ensures
            client.inv(),
            client@.connections == Map::<ConnectionId, ConnectionView>::empty(),
            client@.handlers == Seq::<HandlerSlotView>::empty(),
            client@.next_connection_id == 0,
    {
        let client = RpcClient {
            connections: HashMap::new(),
            message_handlers: Vec::new(),
            next_connection_id: 0,
        };
        proof {
            assert(client@.connections =~= Map::<ConnectionId, ConnectionView>::empty());
            assert(client@.handlers =~= Seq::<HandlerSlotView>::empty());
        }
        client
    }

    /// Returns whether a connection record exists for `cid`.
    pub fn has_connection(&self, cid: ConnectionId) -> (r: bool)
        ensures
            r == self@.has_connection(cid),
    {
        self.connections.contains_key(&cid.0)
    }

    /// Inserts a fresh connection record and hands back its id.  Handles
    /// are allocated monotonically from the client's counter, so an id is
    /// never handed out twice, not even after a disconnect.  The caller owns
    /// driving the connection: reading envelopes and feeding them to
    /// [`RpcClient::handle_incoming`].
    pub fn add_connection(&mut self) -> (cid: ConnectionId)
        requires
            old(self).inv(),
            old(self)@.next_connection_id < u32::MAX,
        ensures
            final(self).inv(),
            cid.0 == old(self)@.next_connection_id,
            !old(self)@.has_connection(cid),
            final(self)@ == (ClientView {
                connections: old(self)@.connections.insert(
                    cid,
                    ConnectionView { pending: Set::empty(), next_message_id: 0 },
                ),
                next_connection_id: (old(self)@.next_connection_id + 1) as u32,
                ..old(self)@
            }),
    {
        let id = self.next_connection_id;
        self.next_connection_id = id + 1;
        let conn = RpcConnection { response_slots: HashMap::new(), next_message_id: 0 };
        proof {
            assert(conn@.pending =~= Set::<u32>::empty());
        }
        self.connections.insert(id, conn);
        let cid = ConnectionId(id);
        proof {
            let prior = old(self)@;
            assert(self@.connections =~= prior.connections.insert(
                cid,
                ConnectionView { pending: Set::empty(), next_message_id: 0 },
            ));
            assert(self@ =~= (ClientView {
                connections: prior.connections.insert(
                    cid,
                    ConnectionView { pending: Set::empty(), next_message_id: 0 },
                ),
                next_connection_id: (prior.next_connection_id + 1) as u32,
                ..prior
            }));
        }
        cid
    }

    /// Removes the connection record for `cid`, dropping any outstanding
    /// request slots with it.  Disconnecting an unknown id is not an error:
    /// the operation is idempotent.
    pub fn disconnect(&mut self, cid: ConnectionId)
        requires
            old(self).inv(),
        ensures
            final(self).inv(),
            !final(self)@.has_connection(cid),
            final(self)@ == (ClientView {
                connections: old(self)@.connections.remove(cid),
                ..old(self)@
            }),
    {
        self.connections.remove(&cid.0);
        proof {
            let prior = old(self)@;
            assert(self@.connections =~= prior.connections.remove(cid));
            assert(self@ =~= (ClientView { connections: prior.connections.remove(cid), ..prior }));
        }
    }

    /// The id that `cid`'s counter will mint for the next outbound
    /// envelope, or `None` for an unknown connection.
    pub fn next_message_id(&self, cid: ConnectionId) -> (r: Option<u32>)
        ensures
            r == if self@.has_connection(cid) {
                Some(self@.conn(cid).next_message_id)
            } else {
                None::<u32>
            },
    {
        match self.connections.get(&cid.0) {
            Some(conn) => Some(conn.next_message_id),
            None => None,
        }
    }

    /// The numeric handle the client will mint for the next connection.
    pub fn next_connection_id(&self) -> (r: u32)
        ensures
            r == self@.next_connection_id,
    {
        self.next_connection_id
    }

    /// Returns whether a handler with this type key is registered.
    pub fn has_handler_type(&self, type_key: u64) -> (r: bool)
        ensures
            r == self@.has_handler_type(type_key),
    {
        let mut i: usize = 0;
        while i < self.message_handlers.len()
            invariant
                i <= self@.handlers.len(),
                self@.handlers.len() == self.message_handlers@.len(),
                forall|k: int| 0 <= k < i ==> self@.handlers[k].type_key != type_key,
            decreases self@.handlers.len() - i,
        {
            if self.message_handlers[i].type_key == type_key {
                assert(self@.handlers[i as int].type_key == type_key);
                return true;
            }
            i += 1;
        }
        false
    }

    /// Appends a handler slot.  `wants_requests` records whether its queue
    /// is consumed as typed requests or as plain messages.
    fn push_handler(&mut self, type_key: u64, accepts: Vec<u32>, wants_requests: bool) -> (h: usize)
        requires
            old(self).inv(),
            !old(self)@.has_handler_type(type_key),
        ensures
            final(self).inv(),
            h == old(self)@.handlers.len(),
            final(self)@ == (ClientView {
                handlers: old(self)@.handlers.push(
                    HandlerSlotView {
                        type_key,
                        accepts: accepts@,
                        wants_requests,
                        queue: Seq::empty(),
                    },
                ),
                ..old(self)@
            }),
    {
        let h = self.message_handlers.len();
        let slot = HandlerSlot { type_key, accepts, wants_requests, queue: Vec::new() };
        let ghost slot_view = slot@;
        self.message_handlers.push(slot);
        proof {
            let prior = old(self)@;
            assert(slot_view == (HandlerSlotView {
                type_key,
                accepts: accepts@,
                wants_requests,
                queue: Seq::empty(),
            }));
            assert(self@.handlers =~= prior.handlers.push(slot_view));
            assert(self@.connections =~= prior.connections);
            assert(self@ =~= (ClientView { handlers: prior.handlers.push(slot_view), ..prior }));
            assert forall|i: int, j: int|
                0 <= i < j < self@.handlers.len() implies self@.handlers[i].type_key
                != self@.handlers[j].type_key by {
                if j == self@.handlers.len() - 1 {
                    assert(prior.handlers[i] == self@.handlers[i]);
                }
            }
        }
        h
    }

    /// Registers a handler for a request variant.  At most one handler per
    /// type key may exist on a client; registering a duplicate is a caller
    /// contract violation, excluded by the precondition.  Envelopes accepted
    /// by this slot are consumed from its queue as [`Request`] values.
    pub fn add_request_handler(&mut self, type_key: u64, accepts: Vec<u32>) -> (h: usize)
        requires
            old(self).inv(),
            !old(self)@.has_handler_type(type_key),
        ensures
            final(self).inv(),
            h == old(self)@.handlers.len(),
            final(self)@ == (ClientView {
                handlers: old(self)@.handlers.push(
                    HandlerSlotView {
                        type_key,
                        accepts: accepts@,
                        wants_requests: true,
                        queue: Seq::empty(),
                    },
                ),
                ..old(self)@
            }),
    {
        self.push_handler(type_key, accepts, true)
    }

    /// Registers a handler for a non-request message variant.  Same
    /// semantics as [`RpcClient::add_request_handler`]; its queue is
    /// consumed as [`Message`] values.
    pub fn add_message_handler(&mut self, type_key: u64, accepts: Vec<u32>) -> (h: usize)
        requires
            old(self).inv(),
            !old(self)@.has_handler_type(type_key),
        ensures
            final(self).inv(),
            h == old(self)@.handlers.len(),
            final(self)@ == (ClientView {
                handlers: old(self)@.handlers.push(
                    HandlerSlotView {
                        type_key,
                        accepts: accepts@,
                        wants_requests: false,
                        queue: Seq::empty(),
                    },
                ),
                ..old(self)@
            }),
    {
        self.push_handler(type_key, accepts, false)
    }

    /// Index of the first handler slot accepting `tag`, if any.
    fn first_accepting_index(&self, tag: u32) -> (r: Option<usize>)
        ensures
            match r {
                Some(j) => j < self@.handlers.len() && spec_first_accepting(self@.handlers, tag)
                    == Some(j as int),
                None => spec_first_accepting(self@.handlers, tag) is None,
            },
    {
        let mut i: usize = 0;
        while i < self.message_handlers.len()
            invariant
                i <= self@.handlers.len(),
                self@.handlers.len() == self.message_handlers@.len(),
                forall|k: int| 0 <= k < i ==> !self@.handlers[k].accepts.contains(tag),
            decreases self@.handlers.len() - i,
        {
            if tag_list_contains(&self.message_handlers[i].accepts, tag) {
                proof {
                    assert(self@.handlers[i as int].accepts.contains(tag));
                    lemma_first_accepting_witness(self@.handlers, tag, i as int);
                }
                return Some(i);
            }
            i += 1;
        }
        proof {
            lemma_first_accepting_none(self@.handlers, tag);
        }
        None
    }

    /// One step of the read loop: demultiplexes one inbound envelope read
    /// from connection `cid`.
    ///
    /// A response envelope completes the outstanding request it correlates
    /// to, removing its slot, or is reported stale.  Any other envelope is
    /// moved into the queue of the first handler slot whose filter accepts
    /// its payload, is handed back when that queue is full, or is reported
    /// unhandled.
    pub fn handle_incoming(&mut self, cid: ConnectionId, env: Envelope) -> (d: Dispatch)
        requires
            old(self).inv(),
        ensures
            final(self).inv(),
            final(self)@ == spec_dispatch(old(self)@, cid, env).0,
            d == spec_dispatch(old(self)@, cid, env).1,
    {
        match env.responding_to {
            Some(r) => {
                match self.connections.remove(&cid.0) {
                    Some(mut conn) => {
                        let had = conn.response_slots.remove(&r).is_some();
                        let ghost conn_view = conn@;
                        self.connections.insert(cid.0, conn);
                        proof {
                            let prior = old(self)@;
                            if had {
                                assert(conn_view.pending =~= prior.conn(cid).pending.remove(r));
                                assert(self@.connections =~= prior.connections.insert(
                                    cid,
                                    ConnectionView {
                                        pending: prior.conn(cid).pending.remove(r),
                                        ..prior.conn(cid)
                                    },
                                ));
                                assert(self@ =~= spec_dispatch(prior, cid, env).0);
                            } else {
                                assert(conn_view.pending =~= prior.conn(cid).pending);
                                assert(conn_view =~= prior.conn(cid));
                                assert(self@.connections =~= prior.connections);
                                assert(self@ =~= prior);
                            }
                        }
                        if had {
                            Dispatch::Response { request_id: r, envelope: env }
                        } else {
                            Dispatch::StaleResponse { responding_to: r }
                        }
                    },
                    None => {
                        proof {
                            let prior = old(self)@;
                            assert(self@.connections =~= prior.connections);
                            assert(self@ =~= prior);
                        }
                        Dispatch::StaleResponse { responding_to: r }
                    },
                }
            },
            None => {
                let tag = env.payload.tag();
                match self.first_accepting_index(tag) {
                    Some(j) => {
                        if self.message_handlers[j].queue.len() < MESSAGE_QUEUE_CAPACITY {
                            let mut slot = self.message_handlers.remove(j);
                            slot.queue.push(ErasedMessage { id: env.id, connection_id: cid, body: env });
                            let ghost slot_view = slot@;
                            self.message_handlers.insert(j, slot);
                            proof {
                                let prior = old(self)@;
                                assert(self@.handlers =~= prior.handlers.update(j as int, slot_view));
                                assert(slot_view == (HandlerSlotView {
                                    queue: prior.handlers[j as int].queue.push(
                                        ErasedMessage { id: env.id, connection_id: cid, body: env },
                                    ),
                                    ..prior.handlers[j as int]
                                }));
                                assert(self@.connections =~= prior.connections);
                                assert(self@ =~= spec_dispatch(prior, cid, env).0);
                            }
                            Dispatch::Delivered { handler: j }
                        } else {
                            Dispatch::Busy { handler: j, envelope: env }
                        }
                    },
                    None => Dispatch::Unhandled { envelope: env },
                }
            },
        }
    }

    /// Takes the oldest queued message out of handler slot `handler`, if
    /// any.  Messages leave a queue in the order they were dispatched into
    /// it: wire order, per connection.
    pub fn next_erased(&mut self, handler: usize) -> (m: Option<ErasedMessage>)
        requires
            old(self).inv(),
            handler < old(self)@.handlers.len(),
        ensures
            final(self).inv(),
            ({
                let q = old(self)@.handlers[handler as int].queue;
                if q.len() == 0 {
                    m is None && final(self)@ == old(self)@
                } else {
                    m == Some(q[0]) && final(self)@ == old(self)@.with_queue(
                        handler as int,
                        q.drop_first(),
                    )
                }
            }),
    {
        let mut slot = self.message_handlers.remove(handler);
        let ghost prior_slot = slot@;
        let m = if slot.queue.len() == 0 {
            None
        } else {
            Some(slot.queue.remove(0))
        };
        let ghost slot_view = slot@;
        self.message_handlers.insert(handler, slot);
        proof {
            let prior = old(self)@;
            assert(self@.connections =~= prior.connections);
            assert(self@.handlers =~= prior.handlers.update(handler as int, slot_view));
            if prior.handlers[handler as int].queue.len() == 0 {
                assert(slot_view =~= prior.handlers[handler as int]);
                assert(self@ =~= prior);
            } else {
                assert(slot_view.queue =~= prior.handlers[handler as int].queue.drop_first());
                assert(self@ =~= prior.with_queue(
                    handler as int,
                    prior.handlers[handler as int].queue.drop_first(),
                ));
            }
        }
        m
    }

    /// Begins a request on connection `cid`: mints a fresh message id,
    /// records a one-shot response slot under it, and returns the id
    /// together with the envelope to put on the wire.
    ///
    /// The slot is recorded before the envelope is handed out, so a response
    /// can never arrive before the outstanding-request map knows about the
    /// request.  The caller awaits the slot and settles it with
    /// [`complete_request`].
    pub fn request(&mut self, cid: ConnectionId, payload: Payload) -> (r: Result<
        (u32, Envelope),
        RpcError,
    >)
        requires
            old(self).inv(),
            spec_is_request_tag(payload.spec_tag()),
            old(self)@.has_connection(cid) ==> old(self)@.conn(cid).next_message_id < u32::MAX,
        ensures
            final(self).inv(),
            final(self)@ == spec_request(old(self)@, cid, payload).0,
            r == spec_request(old(self)@, cid, payload).1,
            r is Err <==> !old(self)@.has_connection(cid),
            r is Err ==> r == Err::<(u32, Envelope), RpcError>(RpcError::UnknownConnection),
            r matches Ok((id, env)) ==> !old(self)@.conn(cid).pending.contains(id)
                && final(self)@.conn(cid).pending.contains(id) && env == (Envelope {
                id,
                responding_to: None,
                payload,
            }),
    {
        match self.connections.remove(&cid.0) {
            None => {
                proof {
                    assert(self@.connections =~= old(self)@.connections);
                    assert(self@ =~= old(self)@);
                }
                Err(RpcError::UnknownConnection)
            },
            Some(mut conn) => {
                let id = conn.next_message_id;
                conn.next_message_id = id + 1;
                conn.response_slots.insert(id, ());
                let ghost conn_view = conn@;
                self.connections.insert(cid.0, conn);
                proof {
                    let prior = old(self)@;
                    assert(conn_view.pending =~= prior.conn(cid).pending.insert(id));
                    assert(self@.connections =~= prior.connections.insert(cid, conn_view));
                    assert(self@ =~= spec_request(prior, cid, payload).0);
                }
                Ok((id, Envelope { id, responding_to: None, payload }))
            },
        }
    }

    /// Sends a fire-and-forget message on `cid`: mints a fresh message id
    /// and returns the envelope to put on the wire.  No response slot is
    /// recorded and no reply is expected.
    pub fn send(&mut self, cid: ConnectionId, payload: Payload) -> (r: Result<Envelope, RpcError>)
        requires
            old(self).inv(),
            old(self)@.has_connection(cid) ==> old(self)@.conn(cid).next_message_id < u32::MAX,
        ensures
            final(self).inv(),
            final(self)@ == spec_send(old(self)@, cid, payload).0,
            r == spec_send(old(self)@, cid, payload).1,
            r is Err <==> !old(self)@.has_connection(cid),
            r matches Ok(env) ==> env == (Envelope {
                id: old(self)@.conn(cid).next_message_id,
                responding_to: None,
                payload,
            }),
    {
        match self.connections.remove(&cid.0) {
            None => {
                proof {
                    assert(self@.connections =~= old(self)@.connections);
                    assert(self@ =~= old(self)@);
                }
                Err(RpcError::UnknownConnection)
            },
            Some(mut conn) => {
                let id = conn.next_message_id;
                conn.next_message_id = id + 1;
                let ghost conn_view = conn@;
                self.connections.insert(cid.0, conn);
                proof {
                    let prior = old(self)@;
                    assert(conn_view.pending =~= prior.conn(cid).pending);
                    assert(conn_view =~= (ConnectionView {
                        pending: prior.conn(cid).pending,
                        next_message_id: (prior.conn(cid).next_message_id + 1) as u32,
                    }));
                    assert(self@.connections =~= prior.connections.insert(cid, conn_view));
                    assert(self@ =~= spec_send(prior, cid, payload).0);
                }
                Ok(Envelope { id, responding_to: None, payload })
            },
        }
    }

    /// Answers a peer-initiated request: the outbound envelope carries a
    /// fresh local message id and `responding_to` set to the id the peer
    /// used on its request, so the peer can correlate it.
    pub fn respond(&mut self, request: Request, response: Payload) -> (r: Result<Envelope, RpcError>)
        requires
            old(self).inv(),
            old(self)@.has_connection(request.connection_id) ==> old(self)@.conn(
                request.connection_id,
            ).next_message_id < u32::MAX,
        ensures
            final(self).inv(),
            final(self)@ == spec_respond(old(self)@, request.connection_id, request.id, response).0,
            r == spec_respond(old(self)@, request.connection_id, request.id, response).1,
            r is Err <==> !old(self)@.has_connection(request.connection_id),
            r matches Ok(env) ==> env == (Envelope {
                id: old(self)@.conn(request.connection_id).next_message_id,
                responding_to: Some(request.id),
                payload: response,
            }),
    {
        let cid = request.connection_id;
        match self.connections.remove(&cid.0) {
            None => {
                proof {
                    assert(self@.connections =~= old(self)@.connections);
                    assert(self@ =~= old(self)@);
                }
                Err(RpcError::UnknownConnection)
            },
            Some(mut conn) => {
                let id = conn.next_message_id;
                conn.next_message_id = id + 1;
                let ghost conn_view = conn@;
                self.connections.insert(cid.0, conn);
                proof {
                    let prior = old(self)@;
                    assert(conn_view.pending =~= prior.conn(cid).pending);
                    assert(conn_view =~= (ConnectionView {
                        pending: prior.conn(cid).pending,
                        next_message_id: (prior.conn(cid).next_message_id + 1) as u32,
                    }));
                    assert(self@.connections =~= prior.connections.insert(cid, conn_view));
                    assert(self@ =~= spec_respond(prior, cid, request.id, response).0);
                }
                Ok(Envelope { id, responding_to: Some(request.id), payload: response })
            },
        }
    }

    /// Abandons the response slot of request `request_id` on `cid`, as
    /// dropping the pending request future does.  A reply that arrives
    /// afterwards finds no slot and is discarded as stale.
    pub fn cancel_request(&mut self, cid: ConnectionId, request_id: u32)
        requires
            old(self).inv(),
        ensures
            final(self).inv(),
            final(self)@ == spec_cancel(old(self)@, cid, request_id),
    {
        match self.connections.remove(&cid.0) {
            None => {
                proof {
                    assert(self@.connections =~= old(self)@.connections);
                    assert(self@ =~= old(self)@);
                }
            },
            Some(mut conn) => {
                conn.response_slots.remove(&request_id);
                let ghost conn_view = conn@;
                self.connections.insert(cid.0, conn);
                proof {
                    let prior = old(self)@;
                    assert(conn_view.pending =~= prior.conn(cid).pending.remove(request_id));
                    assert(self@.connections =~= prior.connections.insert(cid, conn_view));
                    assert(self@ =~= spec_cancel(prior, cid, request_id));
                }
            },
        }
    }
}

/// Typed view over a received fire-and-forget message: the connection it
/// arrived on and a one-shot extraction of its body.
pub struct Message {
    pub connection_id: ConnectionId,
    pub body: Option<Payload>,
}

impl Message {
    /// Re-projects an erased queue entry into a message view.
    pub fn from_erased(m: ErasedMessage) -> (msg: Message)
        ensures
            msg.connection_id == m.connection_id,
            msg.body == Some(m.body.payload),
    {
        Message { connection_id: m.connection_id, body: Some(m.body.payload) }
    }

    /// The connection the message arrived on.
    pub fn connection_id(&self) -> (c: ConnectionId)
        ensures
            c == self.connection_id,
    {
        self.connection_id
    }

    /// Extracts the body.  Extracting it twice is a caller contract
    /// violation, excluded by the precondition.
    pub fn body(&mut self) -> (b: Payload)
        requires
            old(self).body is Some,
        ensures
            Some(b) == old(self).body,
            final(self).body is None,
            final(self).connection_id == old(self).connection_id,
    {
        let b = self.body;
        self.body = None;
        b.unwrap()
    }
}

/// Typed view over a peer-initiated request: as [`Message`], plus the
/// peer's request id, needed to build a correlated response via
/// [`RpcClient::respond`].
pub struct Request {
    pub id: u32,
    pub connection_id: ConnectionId,
    pub body: Option<Payload>,
}

impl Request {
    /// Re-projects an erased queue entry into a request view.
    pub fn from_erased(m: ErasedMessage) -> (req: Request)
        ensures
            req.id == m.id,
            req.connection_id == m.connection_id,
            req.body == Some(m.body.payload),
    {
        Request { id: m.id, connection_id: m.connection_id, body: Some(m.body.payload) }
    }

    /// The connection the request arrived on.
    pub fn connection_id(&self) -> (c: ConnectionId)
        ensures
            c == self.connection_id,
    {
        self.connection_id
    }

    /// Extracts the body.  Extracting it twice is a caller contract
    /// violation, excluded by the precondition.
    pub fn body(&mut self) -> (b: Payload)
        requires
            old(self).body is Some,
        ensures
            Some(b) == old(self).body,
            final(self).body is None,
            final(self).id == old(self).id,
            final(self).connection_id == old(self).connection_id,
    {
        let b = self.body;
        self.body = None;
        b.unwrap()
    }
}

/// How the one-shot slot of an outbound request was settled.
#[derive(Clone, Copy, PartialEq, Eq, Debug)]
pub enum SlotOutcome {
    /// The read loop delivered a response envelope into the slot.
    Delivered(Envelope),
    /// The slot was dropped before a reply arrived (connection torn down).
    Abandoned,
    /// Writing the request envelope failed with this transport error.
    WriteFailed(TransportErrorKind),
}

/// Settles an outbound request from the way its slot ended: decodes a
/// delivered envelope as the request's response variant, and maps each
/// failure to the error surfaced to the caller.
pub fn complete_request(request: &Payload, outcome: SlotOutcome) -> (r: Result<Payload, RpcError>)
    requires
        spec_is_request_tag(request.spec_tag()),
    ensures
        match outcome {
            SlotOutcome::Delivered(env) => if env.payload.spec_tag() == spec_response_tag(
                request.spec_tag(),
            ) {
                r == Ok::<Payload, RpcError>(env.payload)
            } else {
                r == Err::<Payload, RpcError>(RpcError::ProtocolMismatch)
            },
            SlotOutcome::Abandoned => r == Err::<Payload, RpcError>(RpcError::ChannelClosed),
            SlotOutcome::WriteFailed(k) => r == Err::<Payload, RpcError>(
                RpcError::TransportFailure(k),
            ),
        },
{
    match outcome {
        SlotOutcome::Delivered(env) => {
            let expected = crate::envelope::response_tag(request.tag());
            if env.payload.tag() == expected {
                Ok(env.payload)
            } else {
                Err(RpcError::ProtocolMismatch)
            }
        },
        SlotOutcome::Abandoned => Err(RpcError::ChannelClosed),
        SlotOutcome::WriteFailed(k) => Err(RpcError::TransportFailure(k)),
    }
}

/// How writing a fire-and-forget or response envelope ended.
#[derive(Clone, Copy, PartialEq, Eq, Debug)]
pub enum WriteOutcome {
    /// The whole frame was accepted by the transport.
    Written,
    /// The write failed with this transport error.
    WriteFailed(TransportErrorKind),
}

/// Settles a plain outbound envelope (a send, or a response to a peer
/// request) from the way its write ended: success once the frame is
/// accepted, else the transport failure with its original kind.
pub fn complete_send(outcome: WriteOutcome) -> (r: Result<(), RpcError>)
    ensures
        match outcome {
            WriteOutcome::Written => r == Ok::<(), RpcError>(()),
            WriteOutcome::WriteFailed(k) => r == Err::<(), RpcError>(
                RpcError::TransportFailure(k),
            ),
        },
{
    match outcome {
        WriteOutcome::Written => Ok(()),
        WriteOutcome::WriteFailed(k) => Err(RpcError::TransportFailure(k)),
    }
}

/// Correlation law: a response envelope completes exactly the outstanding
/// request named by its `responding_to` — even when replies arrive out of
/// order — and every other outstanding request stays pending.
pub proof fn lemma_response_correlation(
    v: ClientView,
    cid: ConnectionId,
    env: Envelope,
    r: u32,
    other: u32,
)
    requires
        v.wf(),
        v.has_connection(cid),
        env.responding_to == Some(r),
        v.conn(cid).pending.contains(r),
        v.conn(cid).pending.contains(other),
        other != r,
    ensures
        spec_dispatch(v, cid, env).1 == (Dispatch::Response { request_id: r, envelope: env }),
        spec_dispatch(v, cid, env).0.conn(cid).pending.contains(other),
        !spec_dispatch(v, cid, env).0.conn(cid).pending.contains(r),
{
}

/// Freshness law: successive requests on one connection mint distinct ids,
/// and both stay outstanding until their responses arrive, so two callers'
/// replies can never be confused with each other.
pub proof fn lemma_request_ids_distinct(v: ClientView, cid: ConnectionId, p1: Payload, p2: Payload)
    requires
        v.wf(),
        v.has_connection(cid),
        v.conn(cid).next_message_id < u32::MAX,
    ensures
        ({
            let (v1, r1) = spec_request(v, cid, p1);
            let (v2, r2) = spec_request(v1, cid, p2);
            &&& r1 is Ok
            &&& r2 is Ok
            &&& r1 matches Ok((id1, _)) ==> r2 matches Ok((id2, _)) ==> id1 != id2
                && v2.conn(cid).pending.contains(id1) && v2.conn(cid).pending.contains(id2)
        }),
{
}

/// One-shot law: once a response has completed request `r`, a second
/// envelope answering `r` is stale and leaves the client untouched.
pub proof fn lemma_completion_is_one_shot(
    v: ClientView,
    cid: ConnectionId,
    env: Envelope,
    env2: Envelope,
    r: u32,
)
    requires
        v.wf(),
        v.has_connection(cid),
        env.responding_to == Some(r),
        v.conn(cid).pending.contains(r),
        env2.responding_to == Some(r),
    ensures
        ({
            let v1 = spec_dispatch(v, cid, env).0;
            spec_dispatch(v1, cid, env2) == (v1, Dispatch::StaleResponse { responding_to: r })
        }),
{
}

/// First-match law: an envelope that is not a response is delivered to at
/// most one handler, namely the first whose filter accepts its payload tag;
/// every other queue and every connection is left untouched.
pub proof fn lemma_dispatch_first_match(v: ClientView, cid: ConnectionId, env: Envelope)
    requires
        v.wf(),
        v.handlers.len() <= usize::MAX,
        env.responding_to is None,
    ensures
        ({
            let (v1, d) = spec_dispatch(v, cid, env);
            let tag = env.payload.spec_tag();
            match d {
                Dispatch::Delivered { handler } => {
                    &&& handler < v.handlers.len()
                    &&& v.handlers[handler as int].accepts.contains(tag)
                    &&& forall|k: int|
                        0 <= k < handler ==> !v.handlers[k].accepts.contains(tag)
                    &&& v1.handlers[handler as int].queue == v.handlers[handler as int].queue.push(
                        ErasedMessage { id: env.id, connection_id: cid, body: env },
                    )
                    &&& forall|k: int|
                        0 <= k < v.handlers.len() && k != handler ==> v1.handlers[k]
                            == v.handlers[k]
                    &&& v1.connections == v.connections
                },
                Dispatch::Busy { handler, envelope } => {
                    &&& handler < v.handlers.len()
                    &&& v.handlers[handler as int].accepts.contains(tag)
                    &&& forall|k: int|
                        0 <= k < handler ==> !v.handlers[k].accepts.contains(tag)
                    &&& v1 == v
                    &&& envelope == env
                },
                Dispatch::Unhandled { envelope } => {
                    &&& forall|k: int|
                        0 <= k < v.handlers.len() ==> !v.handlers[k].accepts.contains(tag)
                    &&& v1 == v
                    &&& envelope == env
                },
                _ => false,
            }
        }),
{
    lemma_first_accepting_is_first(v.handlers, env.payload.spec_tag());
}

/// Idempotence law: disconnecting an id twice is the same as once, and
/// later operations on the removed id fail with `UnknownConnection` and
/// change nothing.
pub proof fn lemma_disconnect_idempotent(v: ClientView, cid: ConnectionId, p: Payload)
    ensures
        ({
            let v1 = spec_disconnect(v, cid);
            &&& !v1.has_connection(cid)
            &&& spec_disconnect(v1, cid) == v1
            &&& spec_request(v1, cid, p) == (v1, Err::<(u32, Envelope), RpcError>(
                RpcError::UnknownConnection,
            ))
            &&& spec_send(v1, cid, p) == (v1, Err::<Envelope, RpcError>(
                RpcError::UnknownConnection,
            ))
        }),
{
    let v1 = spec_disconnect(v, cid);
    assert(v1.connections.remove(cid) =~= v1.connections);
    assert(spec_disconnect(v1, cid) =~= v1);
}

/// Cancellation-safety law: abandoning the slot of request `r` makes a late
/// reply to `r` stale (discarded, nothing changes), leaves every other
/// outstanding request pending, and later requests still succeed and can
/// never mint `r` again.
pub proof fn lemma_cancel_safety(
    v: ClientView,
    cid: ConnectionId,
    r: u32,
    env: Envelope,
    p: Payload,
)
    requires
        v.wf(),
        v.has_connection(cid),
        v.conn(cid).pending.contains(r),
        env.responding_to == Some(r),
    ensures
        ({
            let v1 = spec_cancel(v, cid, r);
            &&& spec_dispatch(v1, cid, env) == (v1, Dispatch::StaleResponse { responding_to: r })
            &&& forall|o: u32|
                o != r && v.conn(cid).pending.contains(o) ==> v1.conn(cid).pending.contains(o)
            &&& spec_request(v1, cid, p).1 is Ok
            &&& spec_request(v1, cid, p).1 matches Ok((id, _)) ==> id != r
        }),
{
}

} // verus!
