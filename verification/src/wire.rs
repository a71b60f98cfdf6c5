//! The RPC message layer: the bytes of each message and how a message's
//! header is read back.
//!
//! Every message starts with a type byte and the call id as LEB128. A
//! request then carries the method index and the body; a response carries
//! a status byte, and its body only when the status is OK; a stream item
//! carries its body; a cancellation carries nothing more.

use crate::leb128::{decode_leb128_u64, encode_leb128_u64, leb128_decode_at, leb128_encoding, lemma_leb128_roundtrip};
use crate::rpc_error::{RpcError, ERR_CODE_DECODE_ERROR};
use vstd::prelude::*;

verus! {

/// Client to server: a call.
pub const RPC_TYPE_REQUEST: u8 = 1;

/// Server to client: the final response of a call, which ends it.
pub const RPC_TYPE_RESPONSE: u8 = 2;

/// Server to client: one item of a streaming call; more follow.
pub const RPC_TYPE_RESPONSE_STREAM: u8 = 3;

/// Client to server: cancel a call in progress.
pub const RPC_TYPE_CANCEL: u8 = 4;

/// Response status: the call succeeded.
pub const STATUS_OK: u8 = 0;

/// Response status: the method index names no method.
pub const STATUS_UNKNOWN_METHOD: u8 = 1;

/// Response status: the request could not be decoded.
pub const STATUS_DECODE_ERROR: u8 = 2;

/// Response status: the server failed while handling the call.
pub const STATUS_INTERNAL_ERROR: u8 = 3;

/// Response status: the call was cancelled.
pub const STATUS_CANCELLED: u8 = 4;

/// `[REQUEST] [call id] [method index] [body]`
pub open spec fn request_packet(call_id: u64, method_index: u32, payload: Seq<u8>) -> Seq<u8> {
    seq![RPC_TYPE_REQUEST] + leb128_encoding(call_id as nat) + leb128_encoding(method_index as nat)
        + payload
}

/// `[RESPONSE] [call id] [status OK] [body]`: a successful response, or
/// with an empty body the end of a stream.
pub open spec fn response_packet(call_id: u64, payload: Seq<u8>) -> Seq<u8> {
    seq![RPC_TYPE_RESPONSE] + leb128_encoding(call_id as nat) + seq![STATUS_OK] + payload
}

/// `[RESPONSE] [call id] [status]`: a response that ends a call with a
/// status other than OK, without a body.
pub open spec fn status_packet(call_id: u64, status: u8) -> Seq<u8> {
    seq![RPC_TYPE_RESPONSE] + leb128_encoding(call_id as nat) + seq![status]
}

/// `[RESPONSE_STREAM] [call id] [body]`
pub open spec fn stream_item_packet(call_id: u64, payload: Seq<u8>) -> Seq<u8> {
    seq![RPC_TYPE_RESPONSE_STREAM] + leb128_encoding(call_id as nat) + payload
}

/// The end of a stream: a successful response with an empty body.
pub open spec fn stream_end_packet(call_id: u64) -> Seq<u8> {
    response_packet(call_id, Seq::<u8>::empty())
}

/// `[CANCEL] [call id]`
pub open spec fn cancel_packet(call_id: u64) -> Seq<u8> {
    seq![RPC_TYPE_CANCEL] + leb128_encoding(call_id as nat)
}

/// The status that reports a handler's error with code `code`: a decode
/// error as such, every other failure as an internal error.
pub open spec fn handler_error_status(code: u32) -> u8 {
    if code == ERR_CODE_DECODE_ERROR {
        STATUS_DECODE_ERROR
    } else {
        STATUS_INTERNAL_ERROR
    }
}

/// The text of the error a client reports for a response with status
/// `status`.
pub open spec fn status_text(status: u8) -> Seq<char> {
    if status == STATUS_UNKNOWN_METHOD {
        "unknown method"@
    } else if status == STATUS_DECODE_ERROR {
        "decode error"@
    } else if status == STATUS_INTERNAL_ERROR {
        "internal error"@
    } else if status == STATUS_CANCELLED {
        "cancelled"@
    } else {
        "unknown error"@
    }
}

fn push_bytes(buf: &mut Vec<u8>, bytes: &[u8])
    ensures
        final(buf)@ == old(buf)@ + bytes@,
{
    let n = bytes.len();
    for i in 0..n
        invariant
            n == bytes@.len(),
            buf@ == old(buf)@ + bytes@.take(i as int),
    {
        buf.push(bytes[i]);
        assert(bytes@.take(i + 1) =~= bytes@.take(i as int).push(bytes@[i as int]));
        assert(buf@ =~= old(buf)@ + bytes@.take(i + 1));
    }
    assert(bytes@.take(n as int) =~= bytes@);
}

fn start_packet(message_type: u8, call_id: u64) -> (buf: Vec<u8>)
    ensures
        buf@ == seq![message_type] + leb128_encoding(call_id as nat),
{
    let mut buf = Vec::new();
    buf.push(message_type);
    assert(buf@ =~= seq![message_type]);
    encode_leb128_u64(call_id, &mut buf);
    buf
}

/// A call of method `method_index` with its body.
pub fn make_request_packet(request_id: u64, method_index: u32, payload: &[u8]) -> (buf: Vec<u8>)
    ensures
        buf@ == request_packet(request_id, method_index, payload@),
{
    let mut buf = start_packet(RPC_TYPE_REQUEST, request_id);
    encode_leb128_u64(method_index as u64, &mut buf);
    push_bytes(&mut buf, payload);
    buf
}

/// The successful response of a call, with its body.
pub fn make_response_packet(request_id: u64, payload: Vec<u8>) -> (buf: Vec<u8>)
    ensures
        buf@ == response_packet(request_id, payload@),
{
    let mut buf = start_packet(RPC_TYPE_RESPONSE, request_id);
    buf.push(STATUS_OK);
    push_bytes(&mut buf, payload.as_slice());
    buf
}

/// A response that ends a call with a status and no body.
pub fn make_status_packet(request_id: u64, status: u8) -> (buf: Vec<u8>)
    ensures
        buf@ == status_packet(request_id, status),
{
    let mut buf = start_packet(RPC_TYPE_RESPONSE, request_id);
    buf.push(status);
    buf
}

/// One item of a streaming call.
pub fn make_stream_item_packet(request_id: u64, payload: Vec<u8>) -> (buf: Vec<u8>)
    ensures
        buf@ == stream_item_packet(request_id, payload@),
{
    let mut buf = start_packet(RPC_TYPE_RESPONSE_STREAM, request_id);
    push_bytes(&mut buf, payload.as_slice());
    buf
}

/// The end of a streaming call.
pub fn make_stream_end_packet(request_id: u64) -> (buf: Vec<u8>)
    ensures
        buf@ == stream_end_packet(request_id),
{
    let buf = make_response_packet(request_id, Vec::new());
    assert(buf@ =~= stream_end_packet(request_id));
    buf
}

/// The cancellation of a call.
pub fn make_cancel_packet(request_id: u64) -> (buf: Vec<u8>)
    ensures
        buf@ == cancel_packet(request_id),
{
    start_packet(RPC_TYPE_CANCEL, request_id)
}

/// The status that reports a handler's error with code `code`.
pub fn error_status(code: u32) -> (status: u8)
    ensures
        status == handler_error_status(code),
{
    if code == ERR_CODE_DECODE_ERROR {
        STATUS_DECODE_ERROR
    } else {
        STATUS_INTERNAL_ERROR
    }
}

/// The error a client reports for a response with status `status`: the
/// status as its code, with the status's text.
pub fn status_error(status: u8) -> (e: RpcError)
    ensures
        e.code == status as u32,
        e.message@ == status_text(status),
{
    let text = if status == STATUS_UNKNOWN_METHOD {
        "unknown method"
    } else if status == STATUS_DECODE_ERROR {
        "decode error"
    } else if status == STATUS_INTERNAL_ERROR {
        "internal error"
    } else if status == STATUS_CANCELLED {
        "cancelled"
    } else {
        "unknown error"
    };
    RpcError::new(status as u32, String::from_str(text))
}

/// A message's type byte, call id, and the position just past the call id;
/// `None` when the message is empty or its call id cannot be read.
pub open spec fn message_header(data: Seq<u8>) -> Option<(u8, u64, int)> {
    if data.len() == 0 {
        None
    } else {
        match leb128_decode_at(data, 1) {
            Ok((id, end)) => Some((data[0], id, end as int)),
            Err(_) => None,
        }
    }
}

/// Reads a message's type byte and call id.
pub fn parse_header(data: &[u8]) -> (r: Option<(u8, u64, usize)>)
    ensures
        match message_header(data@) {
            Some((t, id, end)) => r == Some((t, id, end as usize)) && 1 < end <= data@.len(),
            None => r is None,
        },
{
    if data.len() == 0 {
        return None;
    }
    match decode_leb128_u64(data, 1) {
        Ok((id, end)) => Some((data[0], id, end)),
        Err(_) => None,
    }
}

/// The bytes of `data` from `start` on.
pub(crate) fn bytes_from(data: &[u8], start: usize) -> (v: Vec<u8>)
    requires
        start <= data@.len(),
    ensures
        v@ == data@.skip(start as int),
{
    let mut v = Vec::new();
    let n = data.len();
    for i in start..n
        invariant
            n == data@.len(),
            start <= n,
            v@ == data@.subrange(start as int, i as int),
    {
        v.push(data[i]);
        assert(v@ =~= data@.subrange(start as int, i + 1));
    }
    assert(v@ =~= data@.skip(start as int));
    v
}

/// A message starting with a type byte and an encoded call id has that
/// header, and its body is what follows the call id.
pub proof fn lemma_header_of(message_type: u8, call_id: u64, body: Seq<u8>)
    ensures
        ({
            let data = seq![message_type] + leb128_encoding(call_id as nat) + body;
            let pos = 1 + leb128_encoding(call_id as nat).len() as int;
            &&& message_header(data) == Some((message_type, call_id, pos))
            &&& data.skip(pos) == body
        }),
{
    let enc = leb128_encoding(call_id as nat);
    let data = seq![message_type] + enc + body;
    assert(data.skip(1) =~= enc + body);
    lemma_leb128_roundtrip(call_id, body);
    assert(data.skip(1 + enc.len() as int) =~= body);
}

} // verus!
