//! The server's side of the protocol: which methods exist, which calls are
//! running, and what to do with each message that arrives.
//!
//! Running handlers and moving bytes are left to the caller, which feeds
//! each received message to [`ServerState::on_message`] and carries out the
//! action it returns.

use crate::leb128::{decode_leb128_u64, leb128_decode_at, leb128_encoding, lemma_leb128_roundtrip};
use crate::rpc_error::RpcError;
use crate::wire::{
    bytes_from, cancel_packet, error_status, handler_error_status, lemma_header_of,
    make_response_packet, make_status_packet, make_stream_end_packet, make_stream_item_packet,
    message_header, parse_header, request_packet, response_packet, status_packet,
    stream_end_packet, stream_item_packet, RPC_TYPE_CANCEL, RPC_TYPE_REQUEST, STATUS_CANCELLED,
    STATUS_DECODE_ERROR, STATUS_UNKNOWN_METHOD,
};
use std::collections::HashMap;
use std::collections::HashSet;
use vstd::prelude::*;

verus! {

broadcast use vstd::std_specs::hash::group_hash_axioms;

/// Whether a method answers once or with a stream of items.
#[derive(Debug, Clone, Copy, PartialEq, Eq, Structural)]
pub enum CallKind {
    Unary,
    Stream,
}

/// What the server does with one received message.
#[derive(Debug)]
pub enum ServerAction {
    /// Nothing: the message is malformed or of no concern.
    Ignore,
    /// Send this message back.
    Reply(Vec<u8>),
    /// Run the handler of `method_index` on `payload`.
    Start { call_id: u64, method_index: u32, kind: CallKind, payload: Vec<u8> },
    /// Abort the running call and send `reply`, its cancelled response.
    Abort { call_id: u64, reply: Vec<u8> },
}

/// A [`ServerAction`] as plain values.
pub enum ServerDecision {
    Ignore,
    Reply(Seq<u8>),
    Start { call_id: u64, method_index: u32, kind: CallKind, payload: Seq<u8> },
    Abort { call_id: u64, reply: Seq<u8> },
}

impl View for ServerAction {
    type V = ServerDecision;

    open spec fn view(&self) -> ServerDecision {
        match self {
            ServerAction::Ignore => ServerDecision::Ignore,
            ServerAction::Reply(p) => ServerDecision::Reply(p@),
            ServerAction::Start { call_id, method_index, kind, payload } => ServerDecision::Start {
                call_id: *call_id,
                method_index: *method_index,
                kind: *kind,
                payload: payload@,
            },
            ServerAction::Abort { call_id, reply } => ServerDecision::Abort {
                call_id: *call_id,
                reply: reply@,
            },
        }
    }
}

/// What the server does with the message `data`, given its registered
/// methods and running calls: a request for a registered method starts it;
/// a request whose method index cannot be read is answered with status
/// decode error, one that names no method with status unknown method; a
/// cancellation aborts the call if it is running and answers it with
/// status cancelled; everything else is ignored.
pub open spec fn server_decision(
    methods: Map<u32, CallKind>,
    active: Set<u64>,
    data: Seq<u8>,
) -> ServerDecision {
    match message_header(data) {
        None => ServerDecision::Ignore,
        Some((t, call_id, pos)) => if t == RPC_TYPE_REQUEST {
            match leb128_decode_at(data, pos) {
                Err(_) => ServerDecision::Reply(status_packet(call_id, STATUS_DECODE_ERROR)),
                Ok((m, end)) => {
                    let method_index = m as u32;
                    if methods.contains_key(method_index) {
                        ServerDecision::Start {
                            call_id,
                            method_index,
                            kind: methods[method_index],
                            payload: data.skip(end as int),
                        }
                    } else {
                        ServerDecision::Reply(status_packet(call_id, STATUS_UNKNOWN_METHOD))
                    }
                },
            }
        } else if t == RPC_TYPE_CANCEL {
            if active.contains(call_id) {
                ServerDecision::Abort {
                    call_id,
                    reply: status_packet(call_id, STATUS_CANCELLED),
                }
            } else {
                ServerDecision::Ignore
            }
        } else {
            ServerDecision::Ignore
        },
    }
}

/// The running calls after carrying out `decision`.
pub open spec fn active_after(active: Set<u64>, decision: ServerDecision) -> Set<u64> {
    match decision {
        ServerDecision::Start { call_id, .. } => active.insert(call_id),
        ServerDecision::Abort { call_id, .. } => active.remove(call_id),
        _ => active,
    }
}

/// The server's registered methods and running calls.
pub struct ServerState {
    methods: HashMap<u32, CallKind>,
    active: HashSet<u64>,
}

impl ServerState {
    /// The registered methods and their kinds.
    pub closed spec fn methods(&self) -> Map<u32, CallKind> {
        self.methods@
    }

    /// The ids of the running calls.
    pub closed spec fn active(&self) -> Set<u64> {
        self.active@
    }

    /// A server with no methods and no running calls.
    pub fn new() -> (s: Self)
        ensures
            s.methods() == Map::<u32, CallKind>::empty(),
            s.active() == Set::<u64>::empty(),
    {
        ServerState { methods: HashMap::new(), active: HashSet::new() }
    }

    /// Registers method `method_index`, replacing any earlier registration.
    pub fn register(&mut self, method_index: u32, kind: CallKind)
        ensures
            final(self).methods() == old(self).methods().insert(method_index, kind),
            final(self).active() == old(self).active(),
    {
        self.methods.insert(method_index, kind);
    }

    /// Decides what to do with the received message `data` and records a
    /// started or aborted call.
    pub fn on_message(&mut self, data: &[u8]) -> (action: ServerAction)
        ensures
            action@ == server_decision(old(self).methods(), old(self).active(), data@),
            final(self).methods() == old(self).methods(),
            final(self).active() == active_after(old(self).active(), action@),
    {
        let (message_type, call_id, pos) = match parse_header(data) {
            Some(h) => h,
            None => return ServerAction::Ignore,
        };
        if message_type == RPC_TYPE_REQUEST {
            let method_index = match decode_leb128_u64(data, pos) {
                Ok((m, end)) => (m as u32, end),
                Err(_) => {
                    return ServerAction::Reply(make_status_packet(call_id, STATUS_DECODE_ERROR));
                },
            };
            let (index, end) = method_index;
            match self.methods.get(&index) {
                Some(kind) => {
                    let kind = *kind;
                    let payload = bytes_from(data, end);
                    self.active.insert(call_id);
                    ServerAction::Start { call_id, method_index: index, kind, payload }
                },
                None => ServerAction::Reply(make_status_packet(call_id, STATUS_UNKNOWN_METHOD)),
            }
        } else if message_type == RPC_TYPE_CANCEL {
            if self.active.remove(&call_id) {
                ServerAction::Abort { call_id, reply: make_status_packet(call_id, STATUS_CANCELLED) }
            } else {
                ServerAction::Ignore
            }
        } else {
            ServerAction::Ignore
        }
    }

    /// Records that the handler of `call_id` has returned.
    pub fn on_handler_finished(&mut self, call_id: u64)
        ensures
            final(self).methods() == old(self).methods(),
            final(self).active() == old(self).active().remove(call_id),
    {
        self.active.remove(&call_id);
    }
}

/// The response that answers a unary call once its handler has returned:
/// status OK with the handler's result, or, for a handler error, status
/// decode error when the error is a decode error and status internal error
/// otherwise, without a body.
pub fn unary_outcome_packet(call_id: u64, result: Result<Vec<u8>, RpcError>) -> (packet: Vec<u8>)
    ensures
        match result {
            Ok(payload) => packet@ == response_packet(call_id, payload@),
            Err(e) => packet@ == status_packet(call_id, handler_error_status(e.code)),
        },
{
    match result {
        Ok(payload) => make_response_packet(call_id, payload),
        Err(e) => make_status_packet(call_id, error_status(e.code)),
    }
}

/// The state of one streaming call on the server: its id and whether it
/// has been ended, with an error or by a cancellation. A stream not ended so
/// is ended with a successful empty response when its sender goes away.
pub struct StreamSenderState {
    call_id: u64,
    finished: bool,
}

impl StreamSenderState {
    /// The call this stream answers.
    pub closed spec fn spec_call_id(&self) -> u64 {
        self.call_id
    }

    /// Whether the stream has been ended with an error or cancelled.
    pub closed spec fn is_finished(&self) -> bool {
        self.finished
    }

    /// A stream for call `call_id`, not yet ended.
    pub fn new(call_id: u64) -> (s: Self)
        ensures
            s.spec_call_id() == call_id,
            !s.is_finished(),
    {
        StreamSenderState { call_id, finished: false }
    }

    /// The call this stream answers.
    pub fn call_id(&self) -> (id: u64)
        ensures
            id == self.spec_call_id(),
    {
        self.call_id
    }

    /// The message carrying one item of the stream.
    pub fn item_packet(&self, payload: Vec<u8>) -> (packet: Vec<u8>)
        ensures
            packet@ == stream_item_packet(self.spec_call_id(), payload@),
    {
        make_stream_item_packet(self.call_id, payload)
    }

    /// Ends the stream with an error of code `code`: the response to send,
    /// with status decode error for a decode error and internal error
    /// otherwise. No stream end follows it.
    pub fn error_packet(&mut self, code: u32) -> (packet: Vec<u8>)
        ensures
            final(self).spec_call_id() == old(self).spec_call_id(),
            final(self).is_finished(),
            packet@ == status_packet(old(self).spec_call_id(), handler_error_status(code)),
    {
        self.finished = true;
        make_status_packet(self.call_id, error_status(code))
    }

    /// Records that the call was cancelled, which has already been
    /// answered: no stream end follows.
    pub fn cancel(&mut self)
        ensures
            final(self).spec_call_id() == old(self).spec_call_id(),
            final(self).is_finished(),
    {
        self.finished = true;
    }

    /// The message to send when the stream's sender goes away: the stream
    /// end, unless the stream was ended with an error or cancelled.
    pub fn end_packet(&self) -> (packet: Option<Vec<u8>>)
        ensures
            !self.is_finished() ==> (packet matches Some(p) && p@ == stream_end_packet(
                self.spec_call_id(),
            )),
            self.is_finished() ==> packet is None,
    {
        if self.finished {
            None
        } else {
            Some(make_stream_end_packet(self.call_id))
        }
    }
}

/// A request for a registered method starts that method's handler on the
/// request's payload; a request for any other method is answered with a
/// response of status unknown method. The running calls do not matter.
pub proof fn lemma_server_reads_request(
    methods: Map<u32, CallKind>,
    active: Set<u64>,
    call_id: u64,
    method_index: u32,
    payload: Seq<u8>,
)
    ensures
        server_decision(methods, active, request_packet(call_id, method_index, payload)) == if methods.contains_key(
            method_index,
        ) {
            ServerDecision::Start {
                call_id,
                method_index,
                kind: methods[method_index],
                payload,
            }
        } else {
            ServerDecision::Reply(status_packet(call_id, STATUS_UNKNOWN_METHOD))
        },
{
    let enc_m = leb128_encoding(method_index as nat);
    let body = enc_m + payload;
    let data = request_packet(call_id, method_index, payload);
    assert(data =~= seq![RPC_TYPE_REQUEST] + leb128_encoding(call_id as nat) + body);
    lemma_header_of(RPC_TYPE_REQUEST, call_id, body);
    let pos = 1 + leb128_encoding(call_id as nat).len() as int;
    lemma_leb128_roundtrip(call_id, body);
    lemma_leb128_roundtrip(method_index as u64, payload);
    assert(data.skip(pos + enc_m.len() as int) =~= payload);
}

/// A cancellation aborts the call if it is running and answers it with a
/// response of status cancelled; it is otherwise ignored.
pub proof fn lemma_server_reads_cancel(methods: Map<u32, CallKind>, active: Set<u64>, call_id: u64)
    ensures
        server_decision(methods, active, cancel_packet(call_id)) == if active.contains(call_id) {
            ServerDecision::Abort { call_id, reply: status_packet(call_id, STATUS_CANCELLED) }
        } else {
            ServerDecision::Ignore
        },
{
    let data = cancel_packet(call_id);
    assert(data =~= seq![RPC_TYPE_CANCEL] + leb128_encoding(call_id as nat) + Seq::<u8>::empty());
    lemma_header_of(RPC_TYPE_CANCEL, call_id, Seq::<u8>::empty());
}

/// A call the server starts is running, whatever its kind, and a
/// cancellation aborts only a running call and stops it running; nothing
/// else changes which calls run.
pub proof fn lemma_started_calls_run(methods: Map<u32, CallKind>, active: Set<u64>, data: Seq<u8>)
    ensures
        server_decision(methods, active, data) matches ServerDecision::Start { call_id, .. }
            ==> active_after(active, server_decision(methods, active, data)).contains(call_id)
            && active_after(active, server_decision(methods, active, data)) == active.insert(call_id),
        server_decision(methods, active, data) matches ServerDecision::Abort { call_id, .. }
            ==> active.contains(call_id) && active_after(active, server_decision(methods, active, data))
            == active.remove(call_id),
        (server_decision(methods, active, data) is Ignore || server_decision(methods, active, data) is Reply)
            ==> active_after(active, server_decision(methods, active, data)) == active,
{
}

/// A call of a registered method, of either kind, can be cancelled once
/// it has started: after the request, a cancellation of the same call id
/// aborts it and answers it with status cancelled, and a second
/// cancellation is ignored.
pub proof fn lemma_started_call_can_be_cancelled(
    methods: Map<u32, CallKind>,
    active: Set<u64>,
    call_id: u64,
    method_index: u32,
    payload: Seq<u8>,
)
    requires
        methods.contains_key(method_index),
    ensures
        ({
            let started = active_after(
                active,
                server_decision(methods, active, request_packet(call_id, method_index, payload)),
            );
            let cancelled = server_decision(methods, started, cancel_packet(call_id));
            &&& cancelled == (ServerDecision::Abort {
                call_id,
                reply: status_packet(call_id, STATUS_CANCELLED),
            })
            &&& server_decision(methods, active_after(started, cancelled), cancel_packet(call_id))
                is Ignore
        }),
{
    lemma_server_reads_request(methods, active, call_id, method_index, payload);
    let started = active_after(
        active,
        server_decision(methods, active, request_packet(call_id, method_index, payload)),
    );
    assert(started.contains(call_id));
    lemma_server_reads_cancel(methods, started, call_id);
    let cancelled = server_decision(methods, started, cancel_packet(call_id));
    assert(!active_after(started, cancelled).contains(call_id));
    lemma_server_reads_cancel(methods, active_after(started, cancelled), call_id);
}

} // verus!
