//! A small serialization toolkit's checked core: the schema syntax tree and
//! its semantic checks, and the RPC protocol that generated services speak
//! (LEB128 integers, message layout, the server's and client's decisions,
//! and length-prefixed framing).

pub mod checker;
pub mod client;
pub mod framing;
pub mod leb128;
pub mod rpc_error;
pub mod schema;
pub mod server;
pub mod text;
pub mod wire;
