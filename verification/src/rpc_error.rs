//! Errors reported by RPC calls.

use crate::leb128::DecodeError;
use crate::text::{decimal, push_decimal};
use vstd::prelude::*;

verus! {

/// The method index of a request names no registered method.
pub const ERR_CODE_UNKNOWN_METHOD: u32 = 1;

/// A request could not be decoded.
pub const ERR_CODE_DECODE_ERROR: u32 = 2;

/// A method handler failed.
pub const ERR_CODE_HANDLER_ERROR: u32 = 3;

/// An RPC error: a numeric code and a message.
#[derive(Debug)]
pub struct RpcError {
    pub code: u32,
    pub message: String,
}

impl Clone for RpcError {
    fn clone(&self) -> (res: Self)
        ensures
            res.code == self.code,
            res.message@ == self.message@,
    {
        RpcError { code: self.code, message: self.message.clone() }
    }
}

impl RpcError {
    /// Creates an RPC error.
    pub fn new(code: u32, message: String) -> (res: Self)
        ensures
            res.code == code,
            res.message@ == message@,
    {
        Self { code, message }
    }

    /// Creates an RPC error from a decode error.
    pub fn decode(e: DecodeError) -> (res: Self)
        ensures
            res.code == ERR_CODE_DECODE_ERROR,
            res.message@ == "decode error: "@ + e.spec_message(),
    {
        let mut message = String::from_str("decode error: ");
        let text = e.message();
        message.append(text.as_str());
        Self { code: ERR_CODE_DECODE_ERROR, message }
    }

    /// The error a stream reports once it has ended.
    pub fn stream_closed() -> (res: Self)
        ensures
            res.code == 0,
            res.message@ == "stream closed"@,
    {
        Self { code: 0, message: String::from_str("stream closed") }
    }

    /// Whether this is the error a stream reports once it has ended.
    pub fn is_stream_closed(&self) -> (res: bool)
        ensures
            res == is_stream_closed_error(*self),
    {
        self.code == 0 && self.message == String::from_str("stream closed")
    }

    /// The error's display text: "RPC error {code}: {message}".
    pub fn to_string(&self) -> (res: String)
        ensures
            res@ == "RPC error "@ + decimal(self.code as nat) + ": "@ + self.message@,
    {
        let mut res = String::from_str("RPC error ");
        push_decimal(&mut res, self.code as u64);
        res.append(": ");
        res.append(self.message.as_str());
        res
    }
}

/// Whether `e` is the error a stream reports once it has ended.
pub open spec fn is_stream_closed_error(e: RpcError) -> bool {
    e.code == 0 && e.message@ == "stream closed"@
}

/// The end-of-stream error is recognised as such: what
/// [`RpcError::stream_closed`] builds, [`RpcError::is_stream_closed`] accepts,
/// and it accepts no error with another code.
pub proof fn lemma_stream_closed_recognised(e: RpcError)
    ensures
        (e.code == 0 && e.message@ == "stream closed"@) ==> is_stream_closed_error(e),
        e.code != 0 ==> !is_stream_closed_error(e),
{
}

} // verus!
