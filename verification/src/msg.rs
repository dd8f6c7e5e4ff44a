//! The data model of the protocol: envelopes `{src, dest, body}` whose body
//! is a type-tagged union, and the errors a line can be rejected with.
//!
//! String-valued fields hold the raw bytes that stood between the quotes on
//! the wire, escape sequences kept as written; replies therefore copy `echo`
//! and the node identifiers byte for byte.

use vstd::prelude::*;
use crate::grammar::wf_str;

verus! {

/// Which field of a known-typed body was missing or of the wrong shape.
#[derive(Clone, Copy, Debug, PartialEq, Eq, Structural)]
pub enum BodyField {
    MsgId,
    InReplyTo,
    Echo,
}

/// Why a line was rejected. Either failure is fatal to the process.
#[derive(Clone, Copy, Debug, PartialEq, Eq, Structural)]
pub enum DecodeError {
    /// The line is not one JSON object with a string `src`, a string `dest`
    /// and an object `body`.
    Invalid,
    /// The envelope decoded, its body carries a known type, but a required
    /// field is missing or has the wrong shape.
    MalformedBody { field: BodyField },
}

/// The type-tagged payload of an envelope. `Unknown` stands for every body
/// whose `type` is missing, not a string, or none of the four known names;
/// such messages are ignored rather than answered.
#[derive(Debug, PartialEq, Eq)]
pub enum Body {
    Init { msg_id: u64 },
    InitOk { msg_id: u64, in_reply_to: u64 },
    Echo { msg_id: u64, echo: Vec<u8> },
    EchoOk { msg_id: u64, in_reply_to: u64, echo: Vec<u8> },
    Unknown,
}

/// One protocol message: sender, recipient, payload.
#[derive(Debug, PartialEq, Eq)]
pub struct Envelope {
    pub src: Vec<u8>,
    pub dest: Vec<u8>,
    pub body: Body,
}

/// Mathematical image of a body.
#[verifier::ext_equal]
pub enum BodyS {
    Init { msg_id: u64 },
    InitOk { msg_id: u64, in_reply_to: u64 },
    Echo { msg_id: u64, echo: Seq<u8> },
    EchoOk { msg_id: u64, in_reply_to: u64, echo: Seq<u8> },
    Unknown,
}

/// Mathematical image of an envelope.
#[verifier::ext_equal]
pub struct EnvelopeS {
    pub src: Seq<u8>,
    pub dest: Seq<u8>,
    pub body: BodyS,
}

impl View for Body {
    type V = BodyS;

    open spec fn view(&self) -> BodyS {
        match self {
            Body::Init { msg_id } => BodyS::Init { msg_id: *msg_id },
            Body::InitOk { msg_id, in_reply_to } => BodyS::InitOk {
                msg_id: *msg_id,
                in_reply_to: *in_reply_to,
            },
            Body::Echo { msg_id, echo } => BodyS::Echo { msg_id: *msg_id, echo: echo@ },
            Body::EchoOk { msg_id, in_reply_to, echo } => BodyS::EchoOk {
                msg_id: *msg_id,
                in_reply_to: *in_reply_to,
                echo: echo@,
            },
            Body::Unknown => BodyS::Unknown,
        }
    }
}

impl View for Envelope {
    type V = EnvelopeS;

    open spec fn view(&self) -> EnvelopeS {
        EnvelopeS { src: self.src@, dest: self.dest@, body: self.body@ }
    }
}

/// Every string field of the body is valid raw string content.
pub open spec fn body_wf(b: BodyS) -> bool {
    match b {
        BodyS::Echo { echo, .. } => wf_str(echo),
        BodyS::EchoOk { echo, .. } => wf_str(echo),
        _ => true,
    }
}

/// Every string field of the envelope is valid raw string content, so the
/// envelope can stand on the wire again.
pub open spec fn env_wf(e: EnvelopeS) -> bool {
    wf_str(e.src) && wf_str(e.dest) && body_wf(e.body)
}

impl DecodeError {
    /// A short account of the error for the process's final report.
    pub fn describe(&self) -> &'static str {
        match self {
            DecodeError::Invalid => "line is not a valid protocol envelope",
            DecodeError::MalformedBody { field: BodyField::MsgId } =>
                "message body is missing a numeric msg_id",
            DecodeError::MalformedBody { field: BodyField::InReplyTo } =>
                "message body is missing a numeric in_reply_to",
            DecodeError::MalformedBody { field: BodyField::Echo } =>
                "echo body is missing a string echo field",
        }
    }
}

} // verus!
