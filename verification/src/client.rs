//! The client's side of the protocol: request ids, calls awaiting an
//! answer, and what each message from the server means for them.
//!
//! Moving bytes and waking the waiting callers are left to the caller,
//! which feeds each received message to [`ClientState::on_message`] and
//! delivers what the returned action says.

use crate::leb128::leb128_encoding;
use crate::rpc_error::{is_stream_closed_error, RpcError};
use crate::server::{lemma_server_reads_request, server_decision, CallKind, ServerDecision};
use crate::wire::{
    bytes_from, cancel_packet, lemma_header_of, make_cancel_packet, make_request_packet,
    message_header, parse_header, request_packet, response_packet, status_error, status_packet,
    status_text, stream_end_packet, stream_item_packet, RPC_TYPE_RESPONSE, RPC_TYPE_RESPONSE_STREAM,
    STATUS_OK, STATUS_UNKNOWN_METHOD,
};
use std::collections::HashMap;
use vstd::prelude::*;
use vstd::std_specs::hash::{axiom_spec_keys_iter, spec_keys_iter};
use vstd::std_specs::iter::IteratorSpec;

verus! {

broadcast use vstd::std_specs::hash::group_hash_axioms;

/// What the client does with one message from the server.
#[derive(Debug)]
pub enum ClientAction {
    /// Nothing: the message is malformed, for no waiting call, or of the
    /// wrong kind for it.
    Ignore,
    /// The unary call has its successful response.
    Respond { request_id: u64, payload: Vec<u8> },
    /// The streaming call has one more item.
    StreamItem { request_id: u64, payload: Vec<u8> },
    /// The streaming call has ended successfully.
    StreamEnd { request_id: u64 },
    /// The call has ended with a status other than OK.
    Fail { request_id: u64, kind: CallKind, error: RpcError },
}

/// A [`ClientAction`] as plain values.
pub enum ClientDecision {
    Ignore,
    Respond { request_id: u64, payload: Seq<u8> },
    StreamItem { request_id: u64, payload: Seq<u8> },
    StreamEnd { request_id: u64 },
    Fail { request_id: u64, kind: CallKind, code: u32, message: Seq<char> },
}

impl View for ClientAction {
    type V = ClientDecision;

    open spec fn view(&self) -> ClientDecision {
        match self {
            ClientAction::Ignore => ClientDecision::Ignore,
            ClientAction::Respond { request_id, payload } => ClientDecision::Respond {
                request_id: *request_id,
                payload: payload@,
            },
            ClientAction::StreamItem { request_id, payload } => ClientDecision::StreamItem {
                request_id: *request_id,
                payload: payload@,
            },
            ClientAction::StreamEnd { request_id } => ClientDecision::StreamEnd {
                request_id: *request_id,
            },
            ClientAction::Fail { request_id, kind, error } => ClientDecision::Fail {
                request_id: *request_id,
                kind: *kind,
                code: error.code,
                message: error.message@,
            },
        }
    }
}

/// What the client does with the message `data`, given the calls awaiting
/// an answer: a message for no waiting call is ignored. A response of
/// status OK delivers its body to a unary call and ends a streaming call; a
/// response of any other status fails the call of either kind with that
/// status; a response without a status byte is ignored. A stream item goes
/// to a streaming call and is ignored by a unary call. Every other message
/// is ignored.
pub open spec fn client_decision(pending: Map<u64, CallKind>, data: Seq<u8>) -> ClientDecision {
    match message_header(data) {
        None => ClientDecision::Ignore,
        Some((t, id, pos)) => if !pending.contains_key(id) {
            ClientDecision::Ignore
        } else if t == RPC_TYPE_RESPONSE {
            if data.len() <= pos {
                ClientDecision::Ignore
            } else if data[pos] == STATUS_OK {
                if pending[id] == CallKind::Unary {
                    ClientDecision::Respond { request_id: id, payload: data.skip(pos + 1) }
                } else {
                    ClientDecision::StreamEnd { request_id: id }
                }
            } else {
                ClientDecision::Fail {
                    request_id: id,
                    kind: pending[id],
                    code: data[pos] as u32,
                    message: status_text(data[pos]),
                }
            }
        } else if t == RPC_TYPE_RESPONSE_STREAM {
            if pending[id] == CallKind::Stream {
                ClientDecision::StreamItem { request_id: id, payload: data.skip(pos) }
            } else {
                ClientDecision::Ignore
            }
        } else {
            ClientDecision::Ignore
        },
    }
}

/// The calls awaiting an answer after carrying out `decision`: a
/// response, a stream end and a failure each finish their call.
pub open spec fn pending_after(pending: Map<u64, CallKind>, decision: ClientDecision) -> Map<
    u64,
    CallKind,
> {
    match decision {
        ClientDecision::Respond { request_id, .. } => pending.remove(request_id),
        ClientDecision::StreamEnd { request_id } => pending.remove(request_id),
        ClientDecision::Fail { request_id, .. } => pending.remove(request_id),
        _ => pending,
    }
}

/// The error every waiting call gets when the connection goes away.
pub fn transport_closed_error() -> (e: RpcError)
    ensures
        e.code == 0,
        e.message@ == "transport closed"@,
{
    RpcError::new(0, String::from_str("transport closed"))
}

/// The client's next request id and the calls awaiting an answer.
pub struct ClientState {
    next_id: u64,
    pending: HashMap<u64, CallKind>,
}

impl ClientState {
    /// Every waiting call has an id that was handed out before the next one.
    #[verifier::type_invariant]
    closed spec fn ids_below_next(self) -> bool {
        &&& 1 <= self.next_id
        &&& forall|id: u64| #[trigger] self.pending@.contains_key(id) ==> 1 <= id < self.next_id
    }

    /// The id the next call gets.
    pub closed spec fn next_request_id(&self) -> u64 {
        self.next_id
    }

    /// The calls awaiting an answer, by id.
    pub closed spec fn pending(&self) -> Map<u64, CallKind> {
        self.pending@
    }

    /// A client with no calls; the first call gets id 1.
    pub fn new() -> (s: Self)
        ensures
            s.next_request_id() == 1,
            s.pending() == Map::<u64, CallKind>::empty(),
    {
        ClientState { next_id: 1, pending: HashMap::new() }
    }

    /// The id the next call gets.
    pub fn next_id(&self) -> (id: u64)
        ensures
            id == self.next_request_id(),
    {
        self.next_id
    }

    fn take_pending(&mut self) -> (taken: HashMap<u64, CallKind>)
        ensures
            taken@ == old(self).pending(),
            final(self).pending() == Map::<u64, CallKind>::empty(),
            final(self).next_request_id() == old(self).next_request_id(),
            forall|id: u64| #[trigger]
                taken@.contains_key(id) ==> 1 <= id < old(self).next_request_id(),
            1 <= old(self).next_request_id(),
    {
        proof {
            use_type_invariant(&*self);
        }
        let mut taken = HashMap::new();
        std::mem::swap(&mut taken, &mut self.pending);
        taken
    }

    /// Starts a call of `method_index`: allocates its id, records it as
    /// waiting, and builds the request message.
    pub fn begin_call(&mut self, kind: CallKind, method_index: u32, payload: &[u8]) -> (r: (
        u64,
        Vec<u8>,
    ))
        requires
            old(self).next_request_id() < u64::MAX,
        ensures
            r.0 == old(self).next_request_id(),
            !old(self).pending().contains_key(r.0),
            final(self).next_request_id() == old(self).next_request_id() + 1,
            final(self).pending() == old(self).pending().insert(r.0, kind),
            r.1@ == request_packet(r.0, method_index, payload@),
    {
        let mut pending = self.take_pending();
        let id = self.next_id;
        self.next_id = id + 1;
        pending.insert(id, kind);
        self.pending = pending;
        (id, make_request_packet(id, method_index, payload))
    }

    /// Forgets a call whose request could not be sent.
    pub fn abandon_call(&mut self, request_id: u64)
        ensures
            final(self).next_request_id() == old(self).next_request_id(),
            final(self).pending() == old(self).pending().remove(request_id),
    {
        self.forget(request_id);
    }

    fn forget(&mut self, request_id: u64)
        ensures
            final(self).next_request_id() == old(self).next_request_id(),
            final(self).pending() == old(self).pending().remove(request_id),
    {
        let mut pending = self.take_pending();
        pending.remove(&request_id);
        self.pending = pending;
    }

    /// Ends every waiting call, as when the connection goes away: forgets
    /// them all and lists each once, with its kind, in no particular order.
    pub fn fail_all(&mut self) -> (calls: Vec<(u64, CallKind)>)
        ensures
            final(self).next_request_id() == old(self).next_request_id(),
            final(self).pending() == Map::<u64, CallKind>::empty(),
            forall|i: int|
                0 <= i < calls@.len() ==> old(self).pending().contains_key(#[trigger] calls@[i].0)
                    && old(self).pending()[calls@[i].0] == calls@[i].1,
            forall|id: u64|
                old(self).pending().contains_key(id) ==> exists|i: int|
                    0 <= i < calls@.len() && #[trigger] calls@[i].0 == id,
            forall|i: int, j: int|
                0 <= i < j < calls@.len() ==> calls@[i].0 != calls@[j].0,
    {
        let pending = self.take_pending();
        let mut calls: Vec<(u64, CallKind)> = Vec::new();
        let ghost ks = spec_keys_iter(&pending).remaining().unref();
        proof {
            axiom_spec_keys_iter(&pending);
        }
        for k in it: pending.keys()
            invariant
                it.seq().unref() == ks,
                ks.to_set() == pending@.dom(),
                calls@.len() == it.index(),
                forall|i: int|
                    0 <= i < it.index() ==> #[trigger] calls@[i] == (ks[i], pending@[ks[i]]),
        {
            assert(ks[it.index()] == *k);
            assert(ks.to_set().contains(*k));
            let kind = *pending.get(k).unwrap();
            calls.push((*k, kind));
        }
        proof {
            assert forall|i: int| 0 <= i < calls@.len() implies pending@.contains_key(
                #[trigger] calls@[i].0,
            ) && pending@[calls@[i].0] == calls@[i].1 by {
                assert(ks.to_set().contains(ks[i]));
            }
            assert forall|id: u64| pending@.contains_key(id) implies exists|i: int|
                0 <= i < calls@.len() && #[trigger] calls@[i].0 == id by {
                assert(ks.to_set().contains(id));
                let i = choose|i: int| 0 <= i < ks.len() && ks[i] == id;
                assert(calls@[i].0 == id);
            }
        }
        calls
    }

    /// Gives up waiting on a unary call: forgets it and builds the
    /// cancellation message.
    pub fn cancel_unary(&mut self, request_id: u64) -> (packet: Vec<u8>)
        ensures
            final(self).next_request_id() == old(self).next_request_id(),
            final(self).pending() == old(self).pending().remove(request_id),
            packet@ == cancel_packet(request_id),
    {
        self.forget(request_id);
        make_cancel_packet(request_id)
    }

    /// Gives up on a streaming call: if it is still waiting, forgets it and
    /// builds the cancellation message.
    pub fn cancel_stream(&mut self, request_id: u64) -> (packet: Option<Vec<u8>>)
        ensures
            final(self).next_request_id() == old(self).next_request_id(),
            final(self).pending() == old(self).pending().remove(request_id),
            old(self).pending().contains_key(request_id) ==> (packet matches Some(p) && p@
                == cancel_packet(request_id)),
            !old(self).pending().contains_key(request_id) ==> packet is None,
    {
        let mut pending = self.take_pending();
        let removed = pending.remove(&request_id);
        self.pending = pending;
        match removed {
            Some(_) => Some(make_cancel_packet(request_id)),
            None => None,
        }
    }

    /// Decides what the message `data` from the server means and forgets
    /// the call it finishes.
    pub fn on_message(&mut self, data: &[u8]) -> (action: ClientAction)
        ensures
            action@ == client_decision(old(self).pending(), data@),
            final(self).next_request_id() == old(self).next_request_id(),
            final(self).pending() == pending_after(old(self).pending(), action@),
    {
        let (message_type, request_id, pos) = match parse_header(data) {
            Some(h) => h,
            None => return ClientAction::Ignore,
        };
        let kind = match self.pending.get(&request_id) {
            Some(k) => *k,
            None => return ClientAction::Ignore,
        };
        if message_type == RPC_TYPE_RESPONSE {
            if data.len() <= pos {
                return ClientAction::Ignore;
            }
            let status = data[pos];
            self.forget(request_id);
            if status == STATUS_OK {
                if kind == CallKind::Unary {
                    ClientAction::Respond { request_id, payload: bytes_from(data, pos + 1) }
                } else {
                    ClientAction::StreamEnd { request_id }
                }
            } else {
                ClientAction::Fail { request_id, kind, error: status_error(status) }
            }
        } else if message_type == RPC_TYPE_RESPONSE_STREAM {
            if kind == CallKind::Stream {
                ClientAction::StreamItem { request_id, payload: bytes_from(data, pos) }
            } else {
                ClientAction::Ignore
            }
        } else {
            ClientAction::Ignore
        }
    }
}

/// What a streaming call's receiver gets next.
#[derive(Debug)]
pub enum StreamEvent {
    /// One item.
    Item(Vec<u8>),
    /// The stream ended normally.
    End,
    /// The stream failed.
    Error(RpcError),
}

/// What receiving from a stream returns for its next event, `None` when no
/// event can come any more: an item is returned; the end of the stream, and
/// a stream that can deliver nothing more, read as the end-of-stream error;
/// a failure is returned as its error.
pub fn stream_event_result(event: Option<StreamEvent>) -> (r: Result<Vec<u8>, RpcError>)
    ensures
        match event {
            Some(StreamEvent::Item(data)) => r == Ok::<Vec<u8>, RpcError>(data),
            Some(StreamEvent::Error(e)) => r == Err::<Vec<u8>, RpcError>(e),
            _ => r matches Err(e) && is_stream_closed_error(e),
        },
{
    match event {
        Some(StreamEvent::Item(data)) => Ok(data),
        Some(StreamEvent::End) => Err(RpcError::stream_closed()),
        Some(StreamEvent::Error(e)) => Err(e),
        None => Err(RpcError::stream_closed()),
    }
}

/// A successful response delivers its body to the unary call it answers
/// and ends the streaming call it answers; it is ignored when no call with
/// its id is waiting.
pub proof fn lemma_client_reads_response(pending: Map<u64, CallKind>, call_id: u64, payload: Seq<u8>)
    ensures
        client_decision(pending, response_packet(call_id, payload)) == if !pending.contains_key(
            call_id,
        ) {
            ClientDecision::Ignore
        } else if pending[call_id] == CallKind::Unary {
            ClientDecision::Respond { request_id: call_id, payload }
        } else {
            ClientDecision::StreamEnd { request_id: call_id }
        },
{
    let data = response_packet(call_id, payload);
    let body = seq![STATUS_OK] + payload;
    assert(data =~= seq![RPC_TYPE_RESPONSE] + leb128_encoding(call_id as nat) + body);
    lemma_header_of(RPC_TYPE_RESPONSE, call_id, body);
    let pos = 1 + leb128_encoding(call_id as nat).len() as int;
    assert(data[pos] == body[0]);
    assert(data.skip(pos + 1) =~= payload);
}

/// The end of a stream ends the streaming call it belongs to; it is
/// ignored when no call with its id is waiting.
pub proof fn lemma_client_reads_stream_end(pending: Map<u64, CallKind>, call_id: u64)
    requires
        pending.contains_key(call_id) ==> pending[call_id] == CallKind::Stream,
    ensures
        client_decision(pending, stream_end_packet(call_id)) == if pending.contains_key(call_id) {
            ClientDecision::StreamEnd { request_id: call_id }
        } else {
            ClientDecision::Ignore
        },
{
    lemma_client_reads_response(pending, call_id, Seq::<u8>::empty());
}

/// A response with a status other than OK fails the waiting call it
/// answers, of either kind, with that status as the code and the status's
/// text as the message; it is ignored when no call with its id is waiting.
pub proof fn lemma_client_reads_status(pending: Map<u64, CallKind>, call_id: u64, status: u8)
    requires
        status != STATUS_OK,
    ensures
        client_decision(pending, status_packet(call_id, status)) == if pending.contains_key(call_id) {
            ClientDecision::Fail {
                request_id: call_id,
                kind: pending[call_id],
                code: status as u32,
                message: status_text(status),
            }
        } else {
            ClientDecision::Ignore
        },
{
    let data = status_packet(call_id, status);
    let body = seq![status];
    lemma_header_of(RPC_TYPE_RESPONSE, call_id, body);
    let pos = 1 + leb128_encoding(call_id as nat).len() as int;
    assert(data[pos] == status);
}

/// A stream item reaches the streaming call it belongs to, carrying its
/// body; it is ignored by a unary call and when no call with its id is
/// waiting.
pub proof fn lemma_client_reads_stream_item(
    pending: Map<u64, CallKind>,
    call_id: u64,
    payload: Seq<u8>,
)
    ensures
        client_decision(pending, stream_item_packet(call_id, payload)) == if pending.contains_key(
            call_id,
        ) && pending[call_id] == CallKind::Stream {
            ClientDecision::StreamItem { request_id: call_id, payload }
        } else {
            ClientDecision::Ignore
        },
{
    lemma_header_of(RPC_TYPE_RESPONSE_STREAM, call_id, payload);
}

/// A request for a method the server has not registered fails at the
/// client: the server's answer, read by the client that is waiting on the
/// call, ends it with code `STATUS_UNKNOWN_METHOD` and the message
/// "unknown method".
pub proof fn lemma_unknown_method_answer(
    methods: Map<u32, CallKind>,
    active: Set<u64>,
    pending: Map<u64, CallKind>,
    call_id: u64,
    method_index: u32,
    payload: Seq<u8>,
)
    requires
        !methods.contains_key(method_index),
        pending.contains_key(call_id),
    ensures
        (server_decision(methods, active, request_packet(call_id, method_index, payload)) matches ServerDecision::Reply(
            answer,
        ) && client_decision(pending, answer) == (ClientDecision::Fail {
            request_id: call_id,
            kind: pending[call_id],
            code: STATUS_UNKNOWN_METHOD as u32,
            message: "unknown method"@,
        })),
{
    lemma_server_reads_request(methods, active, call_id, method_index, payload);
    lemma_client_reads_status(pending, call_id, STATUS_UNKNOWN_METHOD);
}

/// The calls a client starts get the ids 1, 2, 3, ... in order: if the
/// first call is started when the next id is 1, and each call gets the next
/// id and then advances it by one, the `k`-th call gets id `k`.
pub proof fn lemma_call_ids_count_up(ids: Seq<u64>, next_ids: Seq<u64>)
    requires
        next_ids.len() == ids.len() + 1,
        next_ids[0] == 1,
        forall|i: int|
            0 <= i < ids.len() ==> #[trigger] ids[i] == next_ids[i] && next_ids[i + 1] == next_ids[i]
                + 1,
    ensures
        forall|i: int| 0 <= i < ids.len() ==> #[trigger] ids[i] == i + 1,
    decreases ids.len(),
{
    if ids.len() > 0 {
        let n = ids.len() - 1;
        lemma_call_ids_count_up(ids.take(n), next_ids.take(n + 1));
        assert forall|i: int| 0 <= i < ids.len() implies #[trigger] ids[i] == i + 1 by {
            if i < n {
                assert(ids.take(n)[i] == ids[i]);
            } else {
                assert(ids.take(n).len() == n);
                if n > 0 {
                    assert(ids.take(n)[n - 1] == ids[n - 1]);
                    assert(next_ids[n] == next_ids[n - 1] + 1);
                }
            }
        }
    }
}

/// The decisions the client takes for the messages `msgs`, received in
/// order starting from the waiting calls `pending`, and the calls still
/// waiting afterwards.
pub open spec fn client_run(pending: Map<u64, CallKind>, msgs: Seq<Seq<u8>>) -> (
    Seq<ClientDecision>,
    Map<u64, CallKind>,
)
    decreases msgs.len(),
{
    if msgs.len() == 0 {
        (seq![], pending)
    } else {
        let d = client_decision(pending, msgs[0]);
        let (rest, after) = client_run(pending_after(pending, d), msgs.drop_first());
        (seq![d] + rest, after)
    }
}

/// The messages of a stream: one item per body, in order, then the end.
pub open spec fn stream_messages(call_id: u64, items: Seq<Seq<u8>>) -> Seq<Seq<u8>> {
    items.map_values(|q: Seq<u8>| stream_item_packet(call_id, q)) + seq![stream_end_packet(call_id)]
}

/// What a stream's messages mean to the client: each item, in order, then
/// the end.
pub open spec fn stream_decisions(call_id: u64, items: Seq<Seq<u8>>) -> Seq<ClientDecision> {
    items.map_values(|q: Seq<u8>| ClientDecision::StreamItem { request_id: call_id, payload: q })
        + seq![ClientDecision::StreamEnd { request_id: call_id }]
}

/// A streaming call receives what the server streams, in order: for the
/// items and the end the server sends, the client delivers every item to
/// the call in the order sent, then ends the call, which stops waiting.
pub proof fn lemma_stream_delivered_in_order(
    pending: Map<u64, CallKind>,
    call_id: u64,
    items: Seq<Seq<u8>>,
)
    requires
        pending.contains_key(call_id),
        pending[call_id] == CallKind::Stream,
    ensures
        client_run(pending, stream_messages(call_id, items)) == (
            stream_decisions(call_id, items),
            pending.remove(call_id),
        ),
    decreases items.len(),
{
    let msgs = stream_messages(call_id, items);
    if items.len() == 0 {
        assert(msgs =~= seq![stream_end_packet(call_id)]);
        lemma_client_reads_stream_end(pending, call_id);
        assert(msgs.drop_first() =~= Seq::<Seq<u8>>::empty());
        assert(stream_decisions(call_id, items) =~= seq![
            ClientDecision::StreamEnd { request_id: call_id },
        ]);
        let (rest, after) = client_run(pending.remove(call_id), msgs.drop_first());
        assert(rest =~= Seq::<ClientDecision>::empty());
        assert(seq![ClientDecision::StreamEnd { request_id: call_id }] + rest =~= stream_decisions(
            call_id,
            items,
        ));
    } else {
        let tail = items.drop_first();
        lemma_stream_delivered_in_order(pending, call_id, tail);
        lemma_client_reads_stream_item(pending, call_id, items[0]);
        assert(msgs[0] == stream_item_packet(call_id, items[0]));
        assert(msgs.drop_first() =~= stream_messages(call_id, tail));
        assert(stream_decisions(call_id, items) =~= seq![
            ClientDecision::StreamItem { request_id: call_id, payload: items[0] },
        ] + stream_decisions(call_id, tail));
    }
}

/// Every response finishes the waiting call it answers, of either kind and
/// whatever its status: afterwards the call no longer waits and the other
/// calls are untouched. A stream item leaves every call waiting.
pub proof fn lemma_responses_finish_calls(
    pending: Map<u64, CallKind>,
    call_id: u64,
    status: u8,
    payload: Seq<u8>,
)
    requires
        pending.contains_key(call_id),
    ensures
        status != STATUS_OK ==> pending_after(
            pending,
            client_decision(pending, status_packet(call_id, status)),
        ) == pending.remove(call_id),
        pending_after(pending, client_decision(pending, response_packet(call_id, payload)))
            == pending.remove(call_id),
        pending_after(pending, client_decision(pending, stream_item_packet(call_id, payload)))
            == pending,
{
    if status != STATUS_OK {
        lemma_client_reads_status(pending, call_id, status);
    }
    lemma_client_reads_response(pending, call_id, payload);
    lemma_client_reads_stream_item(pending, call_id, payload);
}

/// A message the client acts on finishes exactly the call it is for, or
/// none: a failure, a response or a stream end leaves that call no longer
/// waiting; a stream item or an ignored message leaves every call waiting;
/// no other call is touched.
pub proof fn lemma_client_step(pending: Map<u64, CallKind>, data: Seq<u8>)
    ensures
        ({
            let d = client_decision(pending, data);
            let after = pending_after(pending, d);
            &&& d matches ClientDecision::Fail { request_id, .. } ==> pending.contains_key(request_id)
                && after == pending.remove(request_id)
            &&& d matches ClientDecision::Respond { request_id, .. } ==> pending.contains_key(request_id)
                && after == pending.remove(request_id)
            &&& d matches ClientDecision::StreamEnd { request_id } ==> pending.contains_key(request_id)
                && after == pending.remove(request_id)
            &&& (d is StreamItem || d is Ignore) ==> after == pending
        }),
{
}

} // verus!
