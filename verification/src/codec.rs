//! The envelope codec: what sequence of bytes stands for which envelope.
//!
//! `sp_decode` is the meaning of one input line: it walks the envelope
//! object, captures `src`, `dest` and the interesting body fields wherever
//! they stand (any field order, any whitespace, later duplicates winning,
//! unknown fields skipped as whole JSON values), and assembles the
//! type-tagged body. `spec_encode` is the one canonical line the node emits
//! for an envelope. The executable `decode` and `encode` return exactly what
//! these two functions denote.

use vstd::prelude::*;
use crate::grammar::{
    is_digit, sp_ws, sp_string_rest, sp_number_end, lemma_ws_bounds, lemma_string_rest_bounds,
    lemma_number_bounds, lemma_string_content_wf, wf_str, skip_ws, scan_string_rest,
    scan_number_end, is_digit_x, QUOTE, LBRACE, RBRACE, COLON, COMMA, MINUS,
};
use crate::num::{lex_u64, dec_u64, to_u64, push_dec};
use crate::skip::{sp_skip_value, lemma_skip_bounds, skip_value};
use crate::msg::{Body, BodyS, Envelope, EnvelopeS, BodyField, DecodeError, body_wf, env_wf};

verus! {

// The field names and type names of the wire format, as byte sequences.
pub open spec fn key_src() -> Seq<u8> {
    seq![115u8, 114u8, 99u8]
}

pub open spec fn key_dest() -> Seq<u8> {
    seq![100u8, 101u8, 115u8, 116u8]
}

pub open spec fn key_body() -> Seq<u8> {
    seq![98u8, 111u8, 100u8, 121u8]
}

pub open spec fn key_type() -> Seq<u8> {
    seq![116u8, 121u8, 112u8, 101u8]
}

pub open spec fn key_msg_id() -> Seq<u8> {
    seq![109u8, 115u8, 103u8, 95u8, 105u8, 100u8]
}

pub open spec fn key_in_reply_to() -> Seq<u8> {
    seq![105u8, 110u8, 95u8, 114u8, 101u8, 112u8, 108u8, 121u8, 95u8, 116u8, 111u8]
}

pub open spec fn key_echo() -> Seq<u8> {
    seq![101u8, 99u8, 104u8, 111u8]
}

pub open spec fn type_init() -> Seq<u8> {
    seq![105u8, 110u8, 105u8, 116u8]
}

pub open spec fn type_echo() -> Seq<u8> {
    seq![101u8, 99u8, 104u8, 111u8]
}

pub open spec fn type_init_ok() -> Seq<u8> {
    seq![105u8, 110u8, 105u8, 116u8, 95u8, 111u8, 107u8]
}

pub open spec fn type_echo_ok() -> Seq<u8> {
    seq![101u8, 99u8, 104u8, 111u8, 95u8, 111u8, 107u8]
}

/// What the walk has seen of one field so far: nothing, a value of the wrong
/// shape, or the captured bytes. A later occurrence of the same key
/// overwrites an earlier one.
pub enum Cap {
    Absent,
    Bad,
    Val(Seq<u8>),
}

/// Captured body fields.
#[verifier::ext_equal]
pub struct BodyAcc {
    pub typ: Cap,
    pub msg_id: Cap,
    pub in_reply_to: Cap,
    pub echo: Cap,
}

pub open spec fn body_acc_empty() -> BodyAcc {
    BodyAcc { typ: Cap::Absent, msg_id: Cap::Absent, in_reply_to: Cap::Absent, echo: Cap::Absent }
}

/// Captured envelope fields.
#[verifier::ext_equal]
pub struct EnvAcc {
    pub src: Cap,
    pub dest: Cap,
    pub body: Option<BodyAcc>,
}

pub open spec fn env_acc_empty() -> EnvAcc {
    EnvAcc { src: Cap::Absent, dest: Cap::Absent, body: None }
}

/// One body member's value, standing at or after `i`: capture `type`,
/// `msg_id`, `in_reply_to` and `echo` when they have the expected shape, mark
/// them `Bad` when they do not, and skip every other field's value whole.
pub open spec fn sp_body_member_value(s: Seq<u8>, i: int, acc: BodyAcc, key: Seq<u8>) -> Option<
    (BodyAcc, int),
> {
    let j = sp_ws(s, i);
    if !(0 <= i && j < s.len()) {
        None
    } else {
        let b = s[j];
        if key == key_type() {
            if b == QUOTE {
                match sp_string_rest(s, j + 1) {
                    None => None,
                    Some(k) => Some((BodyAcc { typ: Cap::Val(s.subrange(j + 1, k - 1)), ..acc }, k)),
                }
            } else {
                match sp_skip_value(s, j) {
                    None => None,
                    Some(k) => Some((BodyAcc { typ: Cap::Bad, ..acc }, k)),
                }
            }
        } else if key == key_msg_id() {
            if b == MINUS || is_digit(b) {
                match sp_number_end(s, j) {
                    None => None,
                    Some(k) => Some((BodyAcc { msg_id: Cap::Val(s.subrange(j, k)), ..acc }, k)),
                }
            } else {
                match sp_skip_value(s, j) {
                    None => None,
                    Some(k) => Some((BodyAcc { msg_id: Cap::Bad, ..acc }, k)),
                }
            }
        } else if key == key_in_reply_to() {
            if b == MINUS || is_digit(b) {
                match sp_number_end(s, j) {
                    None => None,
                    Some(k) => Some(
                        (BodyAcc { in_reply_to: Cap::Val(s.subrange(j, k)), ..acc }, k),
                    ),
                }
            } else {
                match sp_skip_value(s, j) {
                    None => None,
                    Some(k) => Some((BodyAcc { in_reply_to: Cap::Bad, ..acc }, k)),
                }
            }
        } else if key == key_echo() {
            if b == QUOTE {
                match sp_string_rest(s, j + 1) {
                    None => None,
                    Some(k) => Some(
                        (BodyAcc { echo: Cap::Val(s.subrange(j + 1, k - 1)), ..acc }, k),
                    ),
                }
            } else {
                match sp_skip_value(s, j) {
                    None => None,
                    Some(k) => Some((BodyAcc { echo: Cap::Bad, ..acc }, k)),
                }
            }
        } else {
            match sp_skip_value(s, j) {
                None => None,
                Some(k) => Some((acc, k)),
            }
        }
    }
}

pub proof fn lemma_body_member_value_bounds(s: Seq<u8>, i: int, acc: BodyAcc, key: Seq<u8>)
    requires
        0 <= i <= s.len(),
        sp_body_member_value(s, i, acc, key) is Some,
    ensures
        i < sp_body_member_value(s, i, acc, key)->Some_0.1 <= s.len(),
{
    lemma_ws_bounds(s, i);
    let j = sp_ws(s, i);
    let b = s[j];
    if (key == key_type() || key == key_echo()) && b == QUOTE {
        lemma_string_rest_bounds(s, j + 1);
    } else if (key == key_msg_id() || key == key_in_reply_to()) && (b == MINUS || is_digit(b)) {
        lemma_number_bounds(s, j);
    } else {
        lemma_skip_bounds(s, j, Seq::empty(), crate::skip::SkipMode::Val);
    }
}

/// The member list of the body object, from just after a `{` or a `,`.
pub open spec fn sp_body_members(s: Seq<u8>, i: int, acc: BodyAcc) -> Option<(BodyAcc, int)>
    decreases s.len() - i,
{
    if !(0 <= i && i <= s.len()) {
        None
    } else {
        proof {
            lemma_ws_bounds(s, i);
        }
        let j = sp_ws(s, i);
        if !(j < s.len() && s[j] == QUOTE) {
            None
        } else {
            match sp_string_rest(s, j + 1) {
                None => None,
                Some(k) => {
                    proof {
                        lemma_string_rest_bounds(s, j + 1);
                        lemma_ws_bounds(s, k);
                    }
                    let key = s.subrange(j + 1, k - 1);
                    let j2 = sp_ws(s, k);
                    if !(j2 < s.len() && s[j2] == COLON) {
                        None
                    } else {
                        match sp_body_member_value(s, j2 + 1, acc, key) {
                            None => None,
                            Some((acc2, e)) => {
                                proof {
                                    lemma_body_member_value_bounds(s, j2 + 1, acc, key);
                                    lemma_ws_bounds(s, e);
                                }
                                let j3 = sp_ws(s, e);
                                if j3 < s.len() && s[j3] == RBRACE {
                                    Some((acc2, j3 + 1))
                                } else if j3 < s.len() && s[j3] == COMMA {
                                    sp_body_members(s, j3 + 1, acc2)
                                } else {
                                    None
                                }
                            },
                        }
                    }
                },
            }
        }
    }
}

pub proof fn lemma_body_members_bounds(s: Seq<u8>, i: int, acc: BodyAcc)
    requires
        0 <= i <= s.len(),
        sp_body_members(s, i, acc) is Some,
    ensures
        i < sp_body_members(s, i, acc)->Some_0.1 <= s.len(),
    decreases s.len() - i,
{
    lemma_ws_bounds(s, i);
    let j = sp_ws(s, i);
    let k = sp_string_rest(s, j + 1)->Some_0;
    lemma_string_rest_bounds(s, j + 1);
    lemma_ws_bounds(s, k);
    let key = s.subrange(j + 1, k - 1);
    let j2 = sp_ws(s, k);
    let (acc2, e) = sp_body_member_value(s, j2 + 1, acc, key)->Some_0;
    lemma_body_member_value_bounds(s, j2 + 1, acc, key);
    lemma_ws_bounds(s, e);
    let j3 = sp_ws(s, e);
    if j3 < s.len() && s[j3] == RBRACE {
    } else {
        lemma_body_members_bounds(s, j3 + 1, acc2);
    }
}

/// The whole body object, `j` standing on its `{`.
pub open spec fn sp_body_obj(s: Seq<u8>, j: int) -> Option<(BodyAcc, int)> {
    let j1 = sp_ws(s, j + 1);
    if 0 <= j && j1 < s.len() && s[j1] == RBRACE {
        Some((body_acc_empty(), j1 + 1))
    } else {
        sp_body_members(s, j + 1, body_acc_empty())
    }
}

pub proof fn lemma_body_obj_bounds(s: Seq<u8>, j: int)
    requires
        0 <= j < s.len(),
        sp_body_obj(s, j) is Some,
    ensures
        j < sp_body_obj(s, j)->Some_0.1 <= s.len(),
{
    lemma_ws_bounds(s, j + 1);
    let j1 = sp_ws(s, j + 1);
    if j1 < s.len() && s[j1] == RBRACE {
    } else {
        lemma_body_members_bounds(s, j + 1, body_acc_empty());
    }
}

/// One envelope member's value: capture string `src` and `dest`, parse an
/// object `body`, mark wrong shapes, skip everything else whole.
pub open spec fn sp_env_member_value(s: Seq<u8>, i: int, acc: EnvAcc, key: Seq<u8>) -> Option<
    (EnvAcc, int),
> {
    let j = sp_ws(s, i);
    if !(0 <= i && j < s.len()) {
        None
    } else {
        let b = s[j];
        if key == key_src() {
            if b == QUOTE {
                match sp_string_rest(s, j + 1) {
                    None => None,
                    Some(k) => Some((EnvAcc { src: Cap::Val(s.subrange(j + 1, k - 1)), ..acc }, k)),
                }
            } else {
                match sp_skip_value(s, j) {
                    None => None,
                    Some(k) => Some((EnvAcc { src: Cap::Bad, ..acc }, k)),
                }
            }
        } else if key == key_dest() {
            if b == QUOTE {
                match sp_string_rest(s, j + 1) {
                    None => None,
                    Some(k) => Some(
                        (EnvAcc { dest: Cap::Val(s.subrange(j + 1, k - 1)), ..acc }, k),
                    ),
                }
            } else {
                match sp_skip_value(s, j) {
                    None => None,
                    Some(k) => Some((EnvAcc { dest: Cap::Bad, ..acc }, k)),
                }
            }
        } else if key == key_body() {
            if b == LBRACE {
                match sp_body_obj(s, j) {
                    None => None,
                    Some((bacc, k)) => Some((EnvAcc { body: Some(bacc), ..acc }, k)),
                }
            } else {
                match sp_skip_value(s, j) {
                    None => None,
                    Some(k) => Some((EnvAcc { body: None, ..acc }, k)),
                }
            }
        } else {
            match sp_skip_value(s, j) {
                None => None,
                Some(k) => Some((acc, k)),
            }
        }
    }
}

pub proof fn lemma_env_member_value_bounds(s: Seq<u8>, i: int, acc: EnvAcc, key: Seq<u8>)
    requires
        0 <= i <= s.len(),
        sp_env_member_value(s, i, acc, key) is Some,
    ensures
        i < sp_env_member_value(s, i, acc, key)->Some_0.1 <= s.len(),
{
    lemma_ws_bounds(s, i);
    let j = sp_ws(s, i);
    let b = s[j];
    if (key == key_src() || key == key_dest()) && b == QUOTE {
        lemma_string_rest_bounds(s, j + 1);
    } else if key == key_body() && b == LBRACE {
        lemma_body_obj_bounds(s, j);
    } else {
        lemma_skip_bounds(s, j, Seq::empty(), crate::skip::SkipMode::Val);
    }
}

/// The member list of the envelope object, from just after `{` or `,`.
pub open spec fn sp_env_members(s: Seq<u8>, i: int, acc: EnvAcc) -> Option<(EnvAcc, int)>
    decreases s.len() - i,
{
    if !(0 <= i && i <= s.len()) {
        None
    } else {
        proof {
            lemma_ws_bounds(s, i);
        }
        let j = sp_ws(s, i);
        if !(j < s.len() && s[j] == QUOTE) {
            None
        } else {
            match sp_string_rest(s, j + 1) {
                None => None,
                Some(k) => {
                    proof {
                        lemma_string_rest_bounds(s, j + 1);
                        lemma_ws_bounds(s, k);
                    }
                    let key = s.subrange(j + 1, k - 1);
                    let j2 = sp_ws(s, k);
                    if !(j2 < s.len() && s[j2] == COLON) {
                        None
                    } else {
                        match sp_env_member_value(s, j2 + 1, acc, key) {
                            None => None,
                            Some((acc2, e)) => {
                                proof {
                                    lemma_env_member_value_bounds(s, j2 + 1, acc, key);
                                    lemma_ws_bounds(s, e);
                                }
                                let j3 = sp_ws(s, e);
                                if j3 < s.len() && s[j3] == RBRACE {
                                    Some((acc2, j3 + 1))
                                } else if j3 < s.len() && s[j3] == COMMA {
                                    sp_env_members(s, j3 + 1, acc2)
                                } else {
                                    None
                                }
                            },
                        }
                    }
                },
            }
        }
    }
}

/// The `u64` a captured numeric field stands for, if any.
pub open spec fn cap_u64(c: Cap) -> Option<u64> {
    match c {
        Cap::Val(raw) => lex_u64(raw),
        _ => None,
    }
}

/// Assemble the typed body from the captured fields. An unknown, missing or
/// non-string `type` gives `Unknown`; a known type with a missing or
/// ill-shaped field is malformed, `msg_id` checked first.
pub open spec fn sp_assemble_body(b: BodyAcc) -> Result<BodyS, DecodeError> {
    match b.typ {
        Cap::Val(t) => {
            if t == type_init() {
                match cap_u64(b.msg_id) {
                    Some(m) => Ok(BodyS::Init { msg_id: m }),
                    None => Err(DecodeError::MalformedBody { field: BodyField::MsgId }),
                }
            } else if t == type_echo() {
                match cap_u64(b.msg_id) {
                    Some(m) => match b.echo {
                        Cap::Val(c) => Ok(BodyS::Echo { msg_id: m, echo: c }),
                        _ => Err(DecodeError::MalformedBody { field: BodyField::Echo }),
                    },
                    None => Err(DecodeError::MalformedBody { field: BodyField::MsgId }),
                }
            } else if t == type_init_ok() {
                match cap_u64(b.msg_id) {
                    Some(m) => match cap_u64(b.in_reply_to) {
                        Some(r) => Ok(BodyS::InitOk { msg_id: m, in_reply_to: r }),
                        None => Err(DecodeError::MalformedBody { field: BodyField::InReplyTo }),
                    },
                    None => Err(DecodeError::MalformedBody { field: BodyField::MsgId }),
                }
            } else if t == type_echo_ok() {
                match cap_u64(b.msg_id) {
                    Some(m) => match cap_u64(b.in_reply_to) {
                        Some(r) => match b.echo {
                            Cap::Val(c) => Ok(
                                BodyS::EchoOk { msg_id: m, in_reply_to: r, echo: c },
                            ),
                            _ => Err(DecodeError::MalformedBody { field: BodyField::Echo }),
                        },
                        None => Err(DecodeError::MalformedBody { field: BodyField::InReplyTo }),
                    },
                    None => Err(DecodeError::MalformedBody { field: BodyField::MsgId }),
                }
            } else {
                Ok(BodyS::Unknown)
            }
        },
        _ => Ok(BodyS::Unknown),
    }
}

/// Assemble the envelope: `src`, `dest` and an object `body` must all have
/// been captured.
pub open spec fn sp_assemble(acc: EnvAcc) -> Result<EnvelopeS, DecodeError> {
    match (acc.src, acc.dest, acc.body) {
        (Cap::Val(src), Cap::Val(dest), Some(bacc)) => match sp_assemble_body(bacc) {
            Ok(b) => Ok(EnvelopeS { src, dest, body: b }),
            Err(e) => Err(e),
        },
        _ => Err(DecodeError::Invalid),
    }
}

/// The meaning of one input line: exactly the envelope it denotes, or the
/// error it is rejected with. The line must hold one JSON object and nothing
/// but whitespace around it.
pub open spec fn sp_decode(s: Seq<u8>) -> Result<EnvelopeS, DecodeError> {
    let j = sp_ws(s, 0);
    if !(j < s.len() && s[j] == LBRACE) {
        Err(DecodeError::Invalid)
    } else {
        let j1 = sp_ws(s, j + 1);
        if j1 < s.len() && s[j1] == RBRACE {
            if sp_ws(s, j1 + 1) == s.len() {
                sp_assemble(env_acc_empty())
            } else {
                Err(DecodeError::Invalid)
            }
        } else {
            match sp_env_members(s, j + 1, env_acc_empty()) {
                None => Err(DecodeError::Invalid),
                Some((acc, e)) => {
                    if sp_ws(s, e) == s.len() {
                        sp_assemble(acc)
                    } else {
                        Err(DecodeError::Invalid)
                    }
                },
            }
        }
    }
}

// ---------------------------------------------------------------------------
// Canonical encoding.
// ---------------------------------------------------------------------------

/// `{"src":"` — the opening of every encoded envelope.
pub open spec fn enc_open() -> Seq<u8> {
    seq![LBRACE, QUOTE, 115u8, 114u8, 99u8, QUOTE, COLON, QUOTE]
}

/// `","dest":"`
pub open spec fn enc_mid_dest() -> Seq<u8> {
    seq![QUOTE, COMMA, QUOTE, 100u8, 101u8, 115u8, 116u8, QUOTE, COLON, QUOTE]
}

/// `","body":`
pub open spec fn enc_mid_body() -> Seq<u8> {
    seq![QUOTE, COMMA, QUOTE, 98u8, 111u8, 100u8, 121u8, QUOTE, COLON]
}

/// `{"type":"`
pub open spec fn enc_body_open() -> Seq<u8> {
    seq![LBRACE, QUOTE, 116u8, 121u8, 112u8, 101u8, QUOTE, COLON, QUOTE]
}

/// `","msg_id":`
pub open spec fn enc_msg_id() -> Seq<u8> {
    seq![QUOTE, COMMA, QUOTE, 109u8, 115u8, 103u8, 95u8, 105u8, 100u8, QUOTE, COLON]
}

/// `,"in_reply_to":`
pub open spec fn enc_in_reply_to() -> Seq<u8> {
    seq![
        COMMA, QUOTE, 105u8, 110u8, 95u8, 114u8, 101u8, 112u8, 108u8, 121u8, 95u8, 116u8, 111u8,
        QUOTE, COLON,
    ]
}

/// `,"echo":"`
pub open spec fn enc_echo() -> Seq<u8> {
    seq![COMMA, QUOTE, 101u8, 99u8, 104u8, 111u8, QUOTE, COLON, QUOTE]
}

/// The canonical bytes of a body: `type` first, then `msg_id`, then
/// `in_reply_to` for replies, then `echo` where the body carries one.
/// (The concatenation is grouped to the right so that every suffix of the
/// encoding is itself a subterm.)
pub open spec fn spec_encode_body(b: BodyS) -> Seq<u8> {
    match b {
        BodyS::Init { msg_id } => enc_body_open() + (type_init() + (enc_msg_id() + (dec_u64(
            msg_id as nat,
        ) + seq![RBRACE]))),
        BodyS::InitOk { msg_id, in_reply_to } => enc_body_open() + (type_init_ok() + (enc_msg_id()
            + (dec_u64(msg_id as nat) + (enc_in_reply_to() + (dec_u64(in_reply_to as nat)
            + seq![RBRACE]))))),
        BodyS::Echo { msg_id, echo } => enc_body_open() + (type_echo() + (enc_msg_id() + (dec_u64(
            msg_id as nat,
        ) + (enc_echo() + (echo + seq![QUOTE, RBRACE]))))),
        BodyS::EchoOk { msg_id, in_reply_to, echo } => enc_body_open() + (type_echo_ok() + (
        enc_msg_id() + (dec_u64(msg_id as nat) + (enc_in_reply_to() + (dec_u64(in_reply_to as nat)
            + (enc_echo() + (echo + seq![QUOTE, RBRACE]))))))),
        BodyS::Unknown => Seq::empty(),
    }
}

/// The one line the node writes for an envelope.
pub open spec fn spec_encode(e: EnvelopeS) -> Seq<u8> {
    enc_open() + (e.src + (enc_mid_dest() + (e.dest + (enc_mid_body() + (spec_encode_body(e.body)
        + seq![RBRACE])))))
}

// ---------------------------------------------------------------------------
// Executable codec.
// ---------------------------------------------------------------------------

/// Compare `s[a..b]` with an expected byte string.
fn eq_range(s: &[u8], a: usize, b: usize, t: &Vec<u8>) -> (r: bool)
    requires
        a <= b <= s@.len(),
    ensures
        r == (s@.subrange(a as int, b as int) == t@),
{
    if b - a != t.len() {
        proof {
            assert(s@.subrange(a as int, b as int).len() == b - a);
        }
        return false;
    }
    let mut k: usize = 0;
    while k < t.len()
        invariant
            a <= b <= s@.len(),
            b - a == t@.len(),
            0 <= k <= t@.len(),
            forall|q: int| 0 <= q < k ==> #[trigger] s@.subrange(a as int, b as int)[q] == t@[q],
        decreases t@.len() - k,
    {
        if s[a + k] != t[k] {
            proof {
                assert(s@.subrange(a as int, b as int)[k as int] == s@[a + k]);
            }
            return false;
        }
        proof {
            assert(s@.subrange(a as int, b as int)[k as int] == s@[a + k]);
        }
        k = k + 1;
    }
    proof {
        assert(s@.subrange(a as int, b as int) =~= t@);
    }
    true
}

/// Copy `s[a..b]` out into an owned vector.
fn copy_range(s: &[u8], a: usize, b: usize) -> (v: Vec<u8>)
    requires
        a <= b <= s@.len(),
    ensures
        v@ == s@.subrange(a as int, b as int),
{
    let mut v: Vec<u8> = Vec::new();
    let mut k: usize = a;
    while k < b
        invariant
            a <= k <= b <= s@.len(),
            v@ == s@.subrange(a as int, k as int),
        decreases b - k,
    {
        v.push(s[k]);
        proof {
            assert(s@.subrange(a as int, k as int + 1) =~= s@.subrange(a as int, k as int).push(
                s@[k as int],
            ));
        }
        k = k + 1;
    }
    proof {
        assert(v@ =~= s@.subrange(a as int, b as int));
    }
    v
}

fn key_src_x() -> (v: Vec<u8>)
    ensures
        v@ == key_src(),
{
    let mut v: Vec<u8> = Vec::new();
    v.push(115);
    v.push(114);
    v.push(99);
    proof {
        assert(v@ =~= key_src());
    }
    v
}

fn key_dest_x() -> (v: Vec<u8>)
    ensures
        v@ == key_dest(),
{
    let mut v: Vec<u8> = Vec::new();
    v.push(100);
    v.push(101);
    v.push(115);
    v.push(116);
    proof {
        assert(v@ =~= key_dest());
    }
    v
}

fn key_body_x() -> (v: Vec<u8>)
    ensures
        v@ == key_body(),
{
    let mut v: Vec<u8> = Vec::new();
    v.push(98);
    v.push(111);
    v.push(100);
    v.push(121);
    proof {
        assert(v@ =~= key_body());
    }
    v
}

fn key_type_x() -> (v: Vec<u8>)
    ensures
        v@ == key_type(),
{
    let mut v: Vec<u8> = Vec::new();
    v.push(116);
    v.push(121);
    v.push(112);
    v.push(101);
    proof {
        assert(v@ =~= key_type());
    }
    v
}

fn key_msg_id_x() -> (v: Vec<u8>)
    ensures
        v@ == key_msg_id(),
{
    let mut v: Vec<u8> = Vec::new();
    v.push(109);
    v.push(115);
    v.push(103);
    v.push(95);
    v.push(105);
    v.push(100);
    proof {
        assert(v@ =~= key_msg_id());
    }
    v
}

fn key_in_reply_to_x() -> (v: Vec<u8>)
    ensures
        v@ == key_in_reply_to(),
{
    let mut v: Vec<u8> = Vec::new();
    v.push(105);
    v.push(110);
    v.push(95);
    v.push(114);
    v.push(101);
    v.push(112);
    v.push(108);
    v.push(121);
    v.push(95);
    v.push(116);
    v.push(111);
    proof {
        assert(v@ =~= key_in_reply_to());
    }
    v
}

fn key_echo_x() -> (v: Vec<u8>)
    ensures
        v@ == key_echo(),
{
    let mut v: Vec<u8> = Vec::new();
    v.push(101);
    v.push(99);
    v.push(104);
    v.push(111);
    proof {
        assert(v@ =~= key_echo());
    }
    v
}

fn type_init_x() -> (v: Vec<u8>)
    ensures
        v@ == type_init(),
{
    let mut v: Vec<u8> = Vec::new();
    v.push(105);
    v.push(110);
    v.push(105);
    v.push(116);
    proof {
        assert(v@ =~= type_init());
    }
    v
}

fn type_init_ok_x() -> (v: Vec<u8>)
    ensures
        v@ == type_init_ok(),
{
    let mut v: Vec<u8> = Vec::new();
    v.push(105);
    v.push(110);
    v.push(105);
    v.push(116);
    v.push(95);
    v.push(111);
    v.push(107);
    proof {
        assert(v@ =~= type_init_ok());
    }
    v
}

fn type_echo_ok_x() -> (v: Vec<u8>)
    ensures
        v@ == type_echo_ok(),
{
    let mut v: Vec<u8> = Vec::new();
    v.push(101);
    v.push(99);
    v.push(104);
    v.push(111);
    v.push(95);
    v.push(111);
    v.push(107);
    proof {
        assert(v@ =~= type_echo_ok());
    }
    v
}

/// What the walk has captured of one field, as positions in the input.
#[derive(Clone, Copy)]
enum CapE {
    Absent,
    Bad,
    Range(usize, usize),
}

#[derive(Clone, Copy)]
struct BodyAccE {
    typ: CapE,
    msg_id: CapE,
    in_reply_to: CapE,
    echo: CapE,
}

#[derive(Clone, Copy)]
struct EnvAccE {
    src: CapE,
    dest: CapE,
    body: Option<BodyAccE>,
}

spec fn cap_of(c: CapE, s: Seq<u8>) -> Cap {
    match c {
        CapE::Absent => Cap::Absent,
        CapE::Bad => Cap::Bad,
        CapE::Range(a, b) => Cap::Val(s.subrange(a as int, b as int)),
    }
}

/// The captured range is inside the input.
spec fn cap_inv(c: CapE, s: Seq<u8>) -> bool {
    match c {
        CapE::Range(a, b) => a <= b <= s.len(),
        _ => true,
    }
}

/// The captured range is inside the input and holds valid string content.
spec fn cap_wf(c: CapE, s: Seq<u8>) -> bool {
    match c {
        CapE::Range(a, b) => a <= b <= s.len() && wf_str(s.subrange(a as int, b as int)),
        _ => true,
    }
}

spec fn body_acc_of(a: BodyAccE, s: Seq<u8>) -> BodyAcc {
    BodyAcc {
        typ: cap_of(a.typ, s),
        msg_id: cap_of(a.msg_id, s),
        in_reply_to: cap_of(a.in_reply_to, s),
        echo: cap_of(a.echo, s),
    }
}

spec fn body_acc_inv(a: BodyAccE, s: Seq<u8>) -> bool {
    cap_wf(a.typ, s) && cap_inv(a.msg_id, s) && cap_inv(a.in_reply_to, s) && cap_wf(a.echo, s)
}

spec fn env_acc_of(a: EnvAccE, s: Seq<u8>) -> EnvAcc {
    EnvAcc {
        src: cap_of(a.src, s),
        dest: cap_of(a.dest, s),
        body: match a.body {
            Some(b) => Some(body_acc_of(b, s)),
            None => None,
        },
    }
}

spec fn env_acc_inv(a: EnvAccE, s: Seq<u8>) -> bool {
    cap_wf(a.src, s) && cap_wf(a.dest, s) && match a.body {
        Some(b) => body_acc_inv(b, s),
        None => true,
    }
}

/// Walk the member list of the body object.
fn body_members(s: &[u8], i: usize) -> (r: Option<(BodyAccE, usize)>)
    requires
        i <= s@.len(),
    ensures
        match r {
            Some(p) => sp_body_members(s@, i as int, body_acc_empty()) == Some(
                (body_acc_of(p.0, s@), p.1 as int),
            ) && body_acc_inv(p.0, s@) && i < p.1 <= s@.len(),
            None => sp_body_members(s@, i as int, body_acc_empty()) is None,
        },
{
    let mut cur = i;
    let mut acc = BodyAccE {
        typ: CapE::Absent,
        msg_id: CapE::Absent,
        in_reply_to: CapE::Absent,
        echo: CapE::Absent,
    };
    proof {
        assert(body_acc_of(acc, s@) =~= body_acc_empty());
    }
    loop
        invariant
            i <= cur <= s@.len(),
            sp_body_members(s@, i as int, body_acc_empty()) == sp_body_members(
                s@,
                cur as int,
                body_acc_of(acc, s@),
            ),
            body_acc_inv(acc, s@),
        decreases s@.len() - cur,
    {
        let ghost acc0 = body_acc_of(acc, s@);
        let j = skip_ws(s, cur);
        if !(j < s.len() && s[j] == QUOTE) {
            return None;
        }
        let k = match scan_string_rest(s, j + 1) {
            None => {
                return None;
            },
            Some(k) => k,
        };
        let ghost key = s@.subrange(j as int + 1, k as int - 1);
        let j2 = skip_ws(s, k);
        if !(j2 < s.len() && s[j2] == COLON) {
            return None;
        }
        let jv = skip_ws(s, j2 + 1);
        if jv >= s.len() {
            return None;
        }
        let b = s[jv];
        let t_type = key_type_x();
        let t_msg_id = key_msg_id_x();
        let t_irt = key_in_reply_to_x();
        let t_echo = key_echo_x();
        let e: usize;
        if eq_range(s, j + 1, k - 1, &t_type) {
            if b == QUOTE {
                match scan_string_rest(s, jv + 1) {
                    None => {
                        return None;
                    },
                    Some(kv) => {
                        proof {
                            lemma_string_content_wf(s@, jv as int + 1);
                        }
                        acc.typ = CapE::Range(jv + 1, kv - 1);
                        e = kv;
                    },
                }
            } else {
                match skip_value(s, jv) {
                    None => {
                        return None;
                    },
                    Some(kv) => {
                        acc.typ = CapE::Bad;
                        e = kv;
                    },
                }
            }
        } else if eq_range(s, j + 1, k - 1, &t_msg_id) {
            if b == MINUS || is_digit_x(b) {
                match scan_number_end(s, jv) {
                    None => {
                        return None;
                    },
                    Some(kv) => {
                        acc.msg_id = CapE::Range(jv, kv);
                        e = kv;
                    },
                }
            } else {
                match skip_value(s, jv) {
                    None => {
                        return None;
                    },
                    Some(kv) => {
                        acc.msg_id = CapE::Bad;
                        e = kv;
                    },
                }
            }
        } else if eq_range(s, j + 1, k - 1, &t_irt) {
            if b == MINUS || is_digit_x(b) {
                match scan_number_end(s, jv) {
                    None => {
                        return None;
                    },
                    Some(kv) => {
                        acc.in_reply_to = CapE::Range(jv, kv);
                        e = kv;
                    },
                }
            } else {
                match skip_value(s, jv) {
                    None => {
                        return None;
                    },
                    Some(kv) => {
                        acc.in_reply_to = CapE::Bad;
                        e = kv;
                    },
                }
            }
        } else if eq_range(s, j + 1, k - 1, &t_echo) {
            if b == QUOTE {
                match scan_string_rest(s, jv + 1) {
                    None => {
                        return None;
                    },
                    Some(kv) => {
                        proof {
                            lemma_string_content_wf(s@, jv as int + 1);
                        }
                        acc.echo = CapE::Range(jv + 1, kv - 1);
                        e = kv;
                    },
                }
            } else {
                match skip_value(s, jv) {
                    None => {
                        return None;
                    },
                    Some(kv) => {
                        acc.echo = CapE::Bad;
                        e = kv;
                    },
                }
            }
        } else {
            match skip_value(s, jv) {
                None => {
                    return None;
                },
                Some(kv) => {
                    e = kv;
                },
            }
        }
        proof {
            assert(sp_body_member_value(s@, j2 as int + 1, acc0, key) == Some(
                (body_acc_of(acc, s@), e as int),
            ));
        }
        let j3 = skip_ws(s, e);
        if j3 < s.len() && s[j3] == RBRACE {
            return Some((acc, j3 + 1));
        } else if j3 < s.len() && s[j3] == COMMA {
            cur = j3 + 1;
        } else {
            return None;
        }
    }
}

/// Walk the whole body object, standing on its `{`.
fn body_obj(s: &[u8], j: usize) -> (r: Option<(BodyAccE, usize)>)
    requires
        j < s@.len(),
    ensures
        match r {
            Some(p) => sp_body_obj(s@, j as int) == Some((body_acc_of(p.0, s@), p.1 as int))
                && body_acc_inv(p.0, s@) && j < p.1 <= s@.len(),
            None => sp_body_obj(s@, j as int) is None,
        },
{
    let n = s.len();
    proof {
        assert(j < n);
    }
    let j1 = skip_ws(s, j + 1);
    if j1 < s.len() && s[j1] == RBRACE {
        let acc = BodyAccE {
            typ: CapE::Absent,
            msg_id: CapE::Absent,
            in_reply_to: CapE::Absent,
            echo: CapE::Absent,
        };
        proof {
            assert(body_acc_of(acc, s@) =~= body_acc_empty());
        }
        Some((acc, j1 + 1))
    } else {
        body_members(s, j + 1)
    }
}

/// Walk the member list of the envelope object.
fn env_members(s: &[u8], i: usize) -> (r: Option<(EnvAccE, usize)>)
    requires
        i <= s@.len(),
    ensures
        match r {
            Some(p) => sp_env_members(s@, i as int, env_acc_empty()) == Some(
                (env_acc_of(p.0, s@), p.1 as int),
            ) && env_acc_inv(p.0, s@) && i < p.1 <= s@.len(),
            None => sp_env_members(s@, i as int, env_acc_empty()) is None,
        },
{
    let mut cur = i;
    let mut acc = EnvAccE { src: CapE::Absent, dest: CapE::Absent, body: None };
    proof {
        assert(env_acc_of(acc, s@) =~= env_acc_empty());
    }
    loop
        invariant
            i <= cur <= s@.len(),
            sp_env_members(s@, i as int, env_acc_empty()) == sp_env_members(
                s@,
                cur as int,
                env_acc_of(acc, s@),
            ),
            env_acc_inv(acc, s@),
        decreases s@.len() - cur,
    {
        let ghost acc0 = env_acc_of(acc, s@);
        let j = skip_ws(s, cur);
        if !(j < s.len() && s[j] == QUOTE) {
            return None;
        }
        let k = match scan_string_rest(s, j + 1) {
            None => {
                return None;
            },
            Some(k) => k,
        };
        let ghost key = s@.subrange(j as int + 1, k as int - 1);
        let j2 = skip_ws(s, k);
        if !(j2 < s.len() && s[j2] == COLON) {
            return None;
        }
        let jv = skip_ws(s, j2 + 1);
        if jv >= s.len() {
            return None;
        }
        let b = s[jv];
        let t_src = key_src_x();
        let t_dest = key_dest_x();
        let t_body = key_body_x();
        let e: usize;
        if eq_range(s, j + 1, k - 1, &t_src) {
            if b == QUOTE {
                match scan_string_rest(s, jv + 1) {
                    None => {
                        return None;
                    },
                    Some(kv) => {
                        proof {
                            lemma_string_content_wf(s@, jv as int + 1);
                        }
                        acc.src = CapE::Range(jv + 1, kv - 1);
                        e = kv;
                    },
                }
            } else {
                match skip_value(s, jv) {
                    None => {
                        return None;
                    },
                    Some(kv) => {
                        acc.src = CapE::Bad;
                        e = kv;
                    },
                }
            }
        } else if eq_range(s, j + 1, k - 1, &t_dest) {
            if b == QUOTE {
                match scan_string_rest(s, jv + 1) {
                    None => {
                        return None;
                    },
                    Some(kv) => {
                        proof {
                            lemma_string_content_wf(s@, jv as int + 1);
                        }
                        acc.dest = CapE::Range(jv + 1, kv - 1);
                        e = kv;
                    },
                }
            } else {
                match skip_value(s, jv) {
                    None => {
                        return None;
                    },
                    Some(kv) => {
                        acc.dest = CapE::Bad;
                        e = kv;
                    },
                }
            }
        } else if eq_range(s, j + 1, k - 1, &t_body) {
            if b == LBRACE {
                match body_obj(s, jv) {
                    None => {
                        return None;
                    },
                    Some(p) => {
                        acc.body = Some(p.0);
                        e = p.1;
                    },
                }
            } else {
                match skip_value(s, jv) {
                    None => {
                        return None;
                    },
                    Some(kv) => {
                        acc.body = None;
                        e = kv;
                    },
                }
            }
        } else {
            match skip_value(s, jv) {
                None => {
                    return None;
                },
                Some(kv) => {
                    e = kv;
                },
            }
        }
        proof {
            assert(sp_env_member_value(s@, j2 as int + 1, acc0, key) == Some(
                (env_acc_of(acc, s@), e as int),
            ));
        }
        let j3 = skip_ws(s, e);
        if j3 < s.len() && s[j3] == RBRACE {
            return Some((acc, j3 + 1));
        } else if j3 < s.len() && s[j3] == COMMA {
            cur = j3 + 1;
        } else {
            return None;
        }
    }
}

/// The `u64` a captured numeric field stands for, if any.
fn cap_to_u64(s: &[u8], c: CapE) -> (r: Option<u64>)
    requires
        cap_inv(c, s@),
    ensures
        r == cap_u64(cap_of(c, s@)),
{
    match c {
        CapE::Range(a, b) => to_u64(s, a, b),
        _ => None,
    }
}

/// Assemble the typed body from the captured fields.
fn assemble_body(s: &[u8], b: BodyAccE) -> (r: Result<Body, DecodeError>)
    requires
        body_acc_inv(b, s@),
    ensures
        match r {
            Ok(body) => sp_assemble_body(body_acc_of(b, s@)) == Ok::<BodyS, DecodeError>(body@)
                && body_wf(body@),
            Err(e) => sp_assemble_body(body_acc_of(b, s@)) == Err::<BodyS, DecodeError>(e),
        },
{
    let (ta, tb) = match b.typ {
        CapE::Range(a, bb) => (a, bb),
        _ => {
            return Ok(Body::Unknown);
        },
    };
    let t_init = type_init_x();
    let t_echo = key_echo_x();
    let t_init_ok = type_init_ok_x();
    let t_echo_ok = type_echo_ok_x();
    if eq_range(s, ta, tb, &t_init) {
        match cap_to_u64(s, b.msg_id) {
            Some(m) => Ok(Body::Init { msg_id: m }),
            None => Err(DecodeError::MalformedBody { field: BodyField::MsgId }),
        }
    } else if eq_range(s, ta, tb, &t_echo) {
        match cap_to_u64(s, b.msg_id) {
            Some(m) => match b.echo {
                CapE::Range(ea, eb) => Ok(Body::Echo { msg_id: m, echo: copy_range(s, ea, eb) }),
                _ => Err(DecodeError::MalformedBody { field: BodyField::Echo }),
            },
            None => Err(DecodeError::MalformedBody { field: BodyField::MsgId }),
        }
    } else if eq_range(s, ta, tb, &t_init_ok) {
        match cap_to_u64(s, b.msg_id) {
            Some(m) => match cap_to_u64(s, b.in_reply_to) {
                Some(ir) => Ok(Body::InitOk { msg_id: m, in_reply_to: ir }),
                None => Err(DecodeError::MalformedBody { field: BodyField::InReplyTo }),
            },
            None => Err(DecodeError::MalformedBody { field: BodyField::MsgId }),
        }
    } else if eq_range(s, ta, tb, &t_echo_ok) {
        match cap_to_u64(s, b.msg_id) {
            Some(m) => match cap_to_u64(s, b.in_reply_to) {
                Some(ir) => match b.echo {
                    CapE::Range(ea, eb) => Ok(
                        Body::EchoOk { msg_id: m, in_reply_to: ir, echo: copy_range(s, ea, eb) },
                    ),
                    _ => Err(DecodeError::MalformedBody { field: BodyField::Echo }),
                },
                None => Err(DecodeError::MalformedBody { field: BodyField::InReplyTo }),
            },
            None => Err(DecodeError::MalformedBody { field: BodyField::MsgId }),
        }
    } else {
        Ok(Body::Unknown)
    }
}

/// Assemble the envelope from the captured fields.
fn assemble(s: &[u8], acc: EnvAccE) -> (r: Result<Envelope, DecodeError>)
    requires
        env_acc_inv(acc, s@),
    ensures
        match r {
            Ok(env) => sp_assemble(env_acc_of(acc, s@)) == Ok::<EnvelopeS, DecodeError>(env@)
                && env_wf(env@),
            Err(e) => sp_assemble(env_acc_of(acc, s@)) == Err::<EnvelopeS, DecodeError>(e),
        },
{
    let (sa, sb) = match acc.src {
        CapE::Range(a, b) => (a, b),
        _ => {
            return Err(DecodeError::Invalid);
        },
    };
    let (da, db) = match acc.dest {
        CapE::Range(a, b) => (a, b),
        _ => {
            return Err(DecodeError::Invalid);
        },
    };
    let bacc = match acc.body {
        Some(b) => b,
        None => {
            return Err(DecodeError::Invalid);
        },
    };
    let body = match assemble_body(s, bacc) {
        Ok(b) => b,
        Err(e) => {
            return Err(e);
        },
    };
    Ok(Envelope { src: copy_range(s, sa, sb), dest: copy_range(s, da, db), body })
}

/// Decode one input line: exactly the envelope the line denotes, or the
/// error `sp_decode` rejects it with. A decoded envelope is well-formed, so
/// replies built from it can stand on the wire again.
pub fn decode(line: &[u8]) -> (r: Result<Envelope, DecodeError>)
    ensures
        match r {
            Ok(env) => sp_decode(line@) == Ok::<EnvelopeS, DecodeError>(env@) && env_wf(env@),
            Err(e) => sp_decode(line@) == Err::<EnvelopeS, DecodeError>(e),
        },
{
    let j = skip_ws(line, 0);
    if !(j < line.len() && line[j] == LBRACE) {
        return Err(DecodeError::Invalid);
    }
    let j1 = skip_ws(line, j + 1);
    if j1 < line.len() && line[j1] == RBRACE {
        if skip_ws(line, j1 + 1) == line.len() {
            let acc = EnvAccE { src: CapE::Absent, dest: CapE::Absent, body: None };
            proof {
                assert(env_acc_of(acc, line@) =~= env_acc_empty());
            }
            assemble(line, acc)
        } else {
            Err(DecodeError::Invalid)
        }
    } else {
        match env_members(line, j + 1) {
            None => Err(DecodeError::Invalid),
            Some(p) => {
                if skip_ws(line, p.1) == line.len() {
                    assemble(line, p.0)
                } else {
                    Err(DecodeError::Invalid)
                }
            },
        }
    }
}

// ---------------------------------------------------------------------------
// Executable encoder.
// ---------------------------------------------------------------------------

/// Append every byte of `v`.
fn push_all(out: &mut Vec<u8>, v: &Vec<u8>)
    ensures
        final(out)@ == old(out)@ + v@,
{
    let mut k: usize = 0;
    while k < v.len()
        invariant
            0 <= k <= v@.len(),
            out@ == old(out)@ + v@.subrange(0, k as int),
        decreases v@.len() - k,
    {
        out.push(v[k]);
        proof {
            assert(v@.subrange(0, k as int + 1) =~= v@.subrange(0, k as int).push(v@[k as int]));
            assert(old(out)@ + v@.subrange(0, k as int + 1) =~= (old(out)@ + v@.subrange(
                0,
                k as int,
            )).push(v@[k as int]));
        }
        k = k + 1;
    }
    proof {
        assert(v@.subrange(0, v@.len() as int) =~= v@);
    }
}

fn push_open(out: &mut Vec<u8>)
    ensures
        final(out)@ == old(out)@ + enc_open(),
{
    out.push(LBRACE);
    out.push(QUOTE);
    out.push(115);
    out.push(114);
    out.push(99);
    out.push(QUOTE);
    out.push(COLON);
    out.push(QUOTE);
    proof {
        assert(out@ =~= old(out)@ + enc_open());
    }
}

fn push_mid_dest(out: &mut Vec<u8>)
    ensures
        final(out)@ == old(out)@ + enc_mid_dest(),
{
    out.push(QUOTE);
    out.push(COMMA);
    out.push(QUOTE);
    out.push(100);
    out.push(101);
    out.push(115);
    out.push(116);
    out.push(QUOTE);
    out.push(COLON);
    out.push(QUOTE);
    proof {
        assert(out@ =~= old(out)@ + enc_mid_dest());
    }
}

fn push_mid_body(out: &mut Vec<u8>)
    ensures
        final(out)@ == old(out)@ + enc_mid_body(),
{
    out.push(QUOTE);
    out.push(COMMA);
    out.push(QUOTE);
    out.push(98);
    out.push(111);
    out.push(100);
    out.push(121);
    out.push(QUOTE);
    out.push(COLON);
    proof {
        assert(out@ =~= old(out)@ + enc_mid_body());
    }
}

fn push_body_open(out: &mut Vec<u8>)
    ensures
        final(out)@ == old(out)@ + enc_body_open(),
{
    out.push(LBRACE);
    out.push(QUOTE);
    out.push(116);
    out.push(121);
    out.push(112);
    out.push(101);
    out.push(QUOTE);
    out.push(COLON);
    out.push(QUOTE);
    proof {
        assert(out@ =~= old(out)@ + enc_body_open());
    }
}

fn push_msg_id_lit(out: &mut Vec<u8>)
    ensures
        final(out)@ == old(out)@ + enc_msg_id(),
{
    out.push(QUOTE);
    out.push(COMMA);
    out.push(QUOTE);
    out.push(109);
    out.push(115);
    out.push(103);
    out.push(95);
    out.push(105);
    out.push(100);
    out.push(QUOTE);
    out.push(COLON);
    proof {
        assert(out@ =~= old(out)@ + enc_msg_id());
    }
}

fn push_in_reply_to_lit(out: &mut Vec<u8>)
    ensures
        final(out)@ == old(out)@ + enc_in_reply_to(),
{
    out.push(COMMA);
    out.push(QUOTE);
    out.push(105);
    out.push(110);
    out.push(95);
    out.push(114);
    out.push(101);
    out.push(112);
    out.push(108);
    out.push(121);
    out.push(95);
    out.push(116);
    out.push(111);
    out.push(QUOTE);
    out.push(COLON);
    proof {
        assert(out@ =~= old(out)@ + enc_in_reply_to());
    }
}

fn push_echo_lit(out: &mut Vec<u8>)
    ensures
        final(out)@ == old(out)@ + enc_echo(),
{
    out.push(COMMA);
    out.push(QUOTE);
    out.push(101);
    out.push(99);
    out.push(104);
    out.push(111);
    out.push(QUOTE);
    out.push(COLON);
    out.push(QUOTE);
    proof {
        assert(out@ =~= old(out)@ + enc_echo());
    }
}

/// Encode an envelope as the one canonical line the node writes for it.
/// `Unknown` bodies are never answered, so they are never encoded.
#[verifier::rlimit(80)]
pub fn encode(e: &Envelope) -> (out: Vec<u8>)
    requires
        !(e.body is Unknown),
    ensures
        out@ == spec_encode(e@),
{
    let mut out: Vec<u8> = Vec::new();
    push_open(&mut out);
    push_all(&mut out, &e.src);
    push_mid_dest(&mut out);
    push_all(&mut out, &e.dest);
    push_mid_body(&mut out);
    match &e.body {
        Body::Init { msg_id } => {
            push_body_open(&mut out);
            let t = type_init_x();
            push_all(&mut out, &t);
            push_msg_id_lit(&mut out);
            push_dec(&mut out, *msg_id);
            out.push(RBRACE);
        },
        Body::InitOk { msg_id, in_reply_to } => {
            push_body_open(&mut out);
            let t = type_init_ok_x();
            push_all(&mut out, &t);
            push_msg_id_lit(&mut out);
            push_dec(&mut out, *msg_id);
            push_in_reply_to_lit(&mut out);
            push_dec(&mut out, *in_reply_to);
            out.push(RBRACE);
        },
        Body::Echo { msg_id, echo } => {
            push_body_open(&mut out);
            let t = key_echo_x();
            push_all(&mut out, &t);
            push_msg_id_lit(&mut out);
            push_dec(&mut out, *msg_id);
            push_echo_lit(&mut out);
            push_all(&mut out, echo);
            out.push(QUOTE);
            out.push(RBRACE);
        },
        Body::EchoOk { msg_id, in_reply_to, echo } => {
            push_body_open(&mut out);
            let t = type_echo_ok_x();
            push_all(&mut out, &t);
            push_msg_id_lit(&mut out);
            push_dec(&mut out, *msg_id);
            push_in_reply_to_lit(&mut out);
            push_dec(&mut out, *in_reply_to);
            push_echo_lit(&mut out);
            push_all(&mut out, echo);
            out.push(QUOTE);
            out.push(RBRACE);
        },
        Body::Unknown => {
            proof {
                assert(false);
            }
        },
    }
    out.push(RBRACE);
    proof {
        assert(out@ =~= spec_encode(e@));
    }
    out
}

} // verus!
