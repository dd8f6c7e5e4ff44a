//! A single node of a line-delimited, JSON-based request/response protocol:
//! envelopes `{src, dest, body}` arrive one per line, the node answers `init`
//! and `echo` request bodies with `init_ok` and `echo_ok` replies, and ignores
//! every other message type.
//!
//! The wire grammar, the envelope codec, the dispatcher and the reply counter
//! are all verified; an unverified front end only moves lines between the
//! streams and this library.

pub mod codec;
pub mod grammar;
pub mod msg;
pub mod node;
pub mod num;
pub mod roundtrip;
pub mod skip;
