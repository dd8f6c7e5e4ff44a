//! The codec round trip: a reply the node produces, encoded and decoded
//! again, is the same envelope — same `src`, same `dest`, same body fields.

use vstd::prelude::*;
use crate::grammar::{
    sp_ws, sp_string_rest, sp_number_end, wf_str, lemma_string_embed, is_digit, QUOTE, LBRACE,
    RBRACE, COLON, COMMA, BACKSLASH,
};
use crate::num::{dec_u64, lemma_dec_props, lemma_lex_dec, lemma_number_embed};
use crate::msg::{BodyS, EnvelopeS, DecodeError, env_wf, body_wf};
use crate::node::{body_msg_id, body_in_reply_to, body_echo};
use crate::codec::{
    sp_decode, spec_encode, spec_encode_body, sp_env_members, sp_env_member_value, sp_body_obj,
    sp_body_members, sp_body_member_value, sp_assemble, sp_assemble_body, env_acc_empty,
    body_acc_empty, Cap, BodyAcc, EnvAcc, key_src, key_dest, key_body, key_type, key_msg_id,
    key_in_reply_to, key_echo, type_init, type_echo, type_init_ok, type_echo_ok, enc_open,
    enc_mid_dest, enc_mid_body, enc_body_open, enc_msg_id, enc_in_reply_to, enc_echo, cap_u64,
};

verus! {

/// Content made of plain bytes — no quote, no backslash, no control byte —
/// is well-formed string content.
proof fn lemma_ordinary_wf(c: Seq<u8>)
    requires
        forall|k: int| 0 <= k < c.len() ==> 32 <= #[trigger] c[k] && c[k] != QUOTE && c[k]
            != BACKSLASH,
    ensures
        wf_str(c),
    decreases c.len(),
{
    if c.len() > 0 {
        assert(forall|k: int| 0 <= k < c.skip(1).len() ==> #[trigger] c.skip(1)[k] == c[k + 1]);
        lemma_ordinary_wf(c.skip(1));
    }
}

/// The literal field and type names are all well-formed string content.
proof fn lemma_literals_wf()
    ensures
        wf_str(key_src()),
        wf_str(key_dest()),
        wf_str(key_body()),
        wf_str(key_type()),
        wf_str(key_msg_id()),
        wf_str(key_in_reply_to()),
        wf_str(key_echo()),
        wf_str(type_init_ok()),
        wf_str(type_echo_ok()),
{
    lemma_ordinary_wf(key_src());
    lemma_ordinary_wf(key_dest());
    lemma_ordinary_wf(key_body());
    lemma_ordinary_wf(key_type());
    lemma_ordinary_wf(key_msg_id());
    lemma_ordinary_wf(key_in_reply_to());
    lemma_ordinary_wf(key_echo());
    lemma_ordinary_wf(type_init_ok());
    lemma_ordinary_wf(type_echo_ok());
}

/// An embedded concatenation splits into its two parts, each embedded at
/// its own offset.
proof fn lemma_split(s: Seq<u8>, p: int, x: Seq<u8>, y: Seq<u8>)
    requires
        0 <= p,
        p + x.len() + y.len() <= s.len(),
        s.subrange(p, p + x.len() + y.len()) == x + y,
    ensures
        s.subrange(p, p + x.len() as int) == x,
        s.subrange(p + x.len() as int, p + x.len() + y.len()) == y,
{
    assert forall|t: int| 0 <= t < x.len() implies s.subrange(p, p + x.len() as int)[t] == x[t] by {
        assert(s.subrange(p, p + x.len() + y.len())[t] == s[p + t]);
        assert(s.subrange(p, p + x.len() as int)[t] == s[p + t]);
        assert((x + y)[t] == x[t]);
    }
    assert(s.subrange(p, p + x.len() as int) =~= x);
    assert forall|t: int|
        0 <= t < y.len() implies s.subrange(p + x.len() as int, p + x.len() + y.len())[t] == y[t]
    by {
        assert(s.subrange(p, p + x.len() + y.len())[x.len() + t] == s[p + (x.len() + t)]);
        assert(s.subrange(p + x.len() as int, p + x.len() + y.len())[t] == s[p + x.len() + t]);
        assert((x + y)[x.len() + t] == y[t]);
    }
    assert(s.subrange(p + x.len() as int, p + x.len() + y.len()) =~= y);
}

/// One byte of an embedded chunk.
proof fn lemma_byte(s: Seq<u8>, p: int, c: Seq<u8>, t: int)
    requires
        0 <= p,
        p + c.len() <= s.len(),
        s.subrange(p, p + c.len() as int) == c,
        0 <= t < c.len(),
    ensures
        s[p + t] == c[t],
{
    assert(s.subrange(p, p + c.len() as int)[t] == s[p + t]);
}

/// A slice of an embedded chunk is embedded at the composed offset.
proof fn lemma_sub_chunk(s: Seq<u8>, p: int, c: Seq<u8>, a2: int, b2: int)
    requires
        0 <= p,
        p + c.len() <= s.len(),
        s.subrange(p, p + c.len() as int) == c,
        0 <= a2 <= b2 <= c.len(),
    ensures
        s.subrange(p + a2, p + b2) == c.subrange(a2, b2),
{
    assert forall|t: int| 0 <= t < b2 - a2 implies s.subrange(p + a2, p + b2)[t] == c.subrange(
        a2,
        b2,
    )[t] by {
        assert(s.subrange(p + a2, p + b2)[t] == s[p + a2 + t]);
        assert(s.subrange(p, p + c.len() as int)[a2 + t] == s[p + (a2 + t)]);
        assert(c.subrange(a2, b2)[t] == c[a2 + t]);
    }
    assert(s.subrange(p + a2, p + b2) =~= c.subrange(a2, b2));
}

// ---------------------------------------------------------------------------
// One member at a time.
// ---------------------------------------------------------------------------

/// A string value at `v` captured for the `type` or `echo` field.
proof fn lemma_body_value_string(s: Seq<u8>, v: int, acc: BodyAcc, key: Seq<u8>, end: int)
    requires
        0 <= v < s.len(),
        key == key_type() || key == key_echo(),
        s[v] == QUOTE,
        sp_string_rest(s, v + 1) == Some(end),
        v + 2 <= end <= s.len(),
    ensures
        key == key_type() ==> sp_body_member_value(s, v, acc, key) == Some(
            (BodyAcc { typ: Cap::Val(s.subrange(v + 1, end - 1)), ..acc }, end),
        ),
        key == key_echo() ==> sp_body_member_value(s, v, acc, key) == Some(
            (BodyAcc { echo: Cap::Val(s.subrange(v + 1, end - 1)), ..acc }, end),
        ),
{
    assert(key_echo() != key_type()) by {
        assert(key_echo()[0] == 101 && key_type()[0] == 116);
    }
    assert(key_echo() != key_msg_id() && key_echo() != key_in_reply_to());
    assert(sp_ws(s, v) == v);
}

/// A number value at `v` captured for the `msg_id` or `in_reply_to` field.
proof fn lemma_body_value_number(s: Seq<u8>, v: int, acc: BodyAcc, key: Seq<u8>, end: int)
    requires
        0 <= v < s.len(),
        key == key_msg_id() || key == key_in_reply_to(),
        is_digit(s[v]),
        sp_number_end(s, v) == Some(end),
        v < end <= s.len(),
    ensures
        key == key_msg_id() ==> sp_body_member_value(s, v, acc, key) == Some(
            (BodyAcc { msg_id: Cap::Val(s.subrange(v, end)), ..acc }, end),
        ),
        key == key_in_reply_to() ==> sp_body_member_value(s, v, acc, key) == Some(
            (BodyAcc { in_reply_to: Cap::Val(s.subrange(v, end)), ..acc }, end),
        ),
{
    assert(sp_ws(s, v) == v);
}

/// One `"key": value` member of the body object: consumed and followed
/// either by a comma and the rest of the members, or by the closing brace.
proof fn lemma_body_member_step(s: Seq<u8>, i: int, acc: BodyAcc, klen: int, vend: int, acc2: BodyAcc)
    requires
        0 <= i,
        0 <= klen,
        i + 2 + klen < s.len(),
        s[i] == QUOTE,
        sp_string_rest(s, i + 1) == Some(i + 2 + klen),
        s[i + 2 + klen] == COLON,
        sp_body_member_value(s, i + 3 + klen, acc, s.subrange(i + 1, i + 1 + klen)) == Some(
            (acc2, vend),
        ),
        i < vend < s.len(),
        s[vend] == COMMA || s[vend] == RBRACE,
    ensures
        s[vend] == RBRACE ==> sp_body_members(s, i, acc) == Some((acc2, vend + 1)),
        s[vend] == COMMA ==> sp_body_members(s, i, acc) == sp_body_members(s, vend + 1, acc2),
{
    assert(sp_ws(s, i) == i);
    assert(sp_ws(s, i + 2 + klen) == i + 2 + klen);
    assert(sp_ws(s, vend) == vend);
}

/// A string value at `v` captured for the envelope's `src` or `dest`.
proof fn lemma_env_value_string(s: Seq<u8>, v: int, acc: EnvAcc, key: Seq<u8>, end: int)
    requires
        0 <= v < s.len(),
        key == key_src() || key == key_dest(),
        s[v] == QUOTE,
        sp_string_rest(s, v + 1) == Some(end),
        v + 2 <= end <= s.len(),
    ensures
        key == key_src() ==> sp_env_member_value(s, v, acc, key) == Some(
            (EnvAcc { src: Cap::Val(s.subrange(v + 1, end - 1)), ..acc }, end),
        ),
        key == key_dest() ==> sp_env_member_value(s, v, acc, key) == Some(
            (EnvAcc { dest: Cap::Val(s.subrange(v + 1, end - 1)), ..acc }, end),
        ),
{
    assert(sp_ws(s, v) == v);
}

/// The object value at `v` captured for the envelope's `body`.
proof fn lemma_env_value_body(s: Seq<u8>, v: int, acc: EnvAcc, bacc: BodyAcc, end: int)
    requires
        0 <= v < s.len(),
        s[v] == LBRACE,
        sp_body_obj(s, v) == Some((bacc, end)),
    ensures
        sp_env_member_value(s, v, acc, key_body()) == Some(
            (EnvAcc { body: Some(bacc), ..acc }, end),
        ),
{
    assert(key_body() != key_src());
    assert(key_body() != key_dest()) by {
        assert(key_body()[0] == 98 && key_dest()[0] == 100);
    }
    assert(sp_ws(s, v) == v);
}

/// One `"key": value` member of the envelope object.
proof fn lemma_env_member_step(s: Seq<u8>, i: int, acc: EnvAcc, klen: int, vend: int, acc2: EnvAcc)
    requires
        0 <= i,
        0 <= klen,
        i + 2 + klen < s.len(),
        s[i] == QUOTE,
        sp_string_rest(s, i + 1) == Some(i + 2 + klen),
        s[i + 2 + klen] == COLON,
        sp_env_member_value(s, i + 3 + klen, acc, s.subrange(i + 1, i + 1 + klen)) == Some(
            (acc2, vend),
        ),
        i < vend < s.len(),
        s[vend] == COMMA || s[vend] == RBRACE,
    ensures
        s[vend] == RBRACE ==> sp_env_members(s, i, acc) == Some((acc2, vend + 1)),
        s[vend] == COMMA ==> sp_env_members(s, i, acc) == sp_env_members(s, vend + 1, acc2),
{
    assert(sp_ws(s, i) == i);
    assert(sp_ws(s, i + 2 + klen) == i + 2 + klen);
    assert(sp_ws(s, vend) == vend);
}

// ---------------------------------------------------------------------------
// The encoded body object.
// ---------------------------------------------------------------------------

/// The common opening of every encoded body: its `{`, the `type` member and
/// the `msg_id` member, with the `msg_id` key parsed and the captured type
/// name and numeral embedded at fixed offsets.
proof fn lemma_body_chunks(s: Seq<u8>, b0: int, tname: Seq<u8>, dm: Seq<u8>, rest: Seq<u8>)
    requires
        0 <= b0,
        tname.len() == 7,
        b0 + 27 + dm.len() + rest.len() <= s.len(),
        s.subrange(b0, b0 + 27 + dm.len() + rest.len()) == enc_body_open() + (tname + (enc_msg_id()
            + (dm + rest))),
    ensures
        s[b0] == LBRACE,
        s[b0 + 1] == QUOTE,
        s[b0 + 6] == QUOTE,
        s[b0 + 7] == COLON,
        s[b0 + 8] == QUOTE,
        s.subrange(b0 + 2, b0 + 6) == key_type(),
        s.subrange(b0 + 9, b0 + 16) == tname,
        s[b0 + 16] == QUOTE,
        s[b0 + 17] == COMMA,
        s[b0 + 18] == QUOTE,
        s.subrange(b0 + 19, b0 + 25) == key_msg_id(),
        s[b0 + 25] == QUOTE,
        s[b0 + 26] == COLON,
        s.subrange(b0 + 27, b0 + 27 + dm.len() as int) == dm,
        s.subrange(b0 + 27 + dm.len() as int, b0 + 27 + dm.len() + rest.len()) == rest,
{
    let a = enc_body_open();
    let bb = enc_msg_id();
    let t3 = dm + rest;
    let t2 = bb + t3;
    let t1 = tname + t2;
    lemma_split(s, b0, a, t1);
    lemma_split(s, b0 + 9, tname, t2);
    lemma_split(s, b0 + 16, bb, t3);
    lemma_split(s, b0 + 27, dm, rest);
    lemma_byte(s, b0, a, 0);
    lemma_byte(s, b0, a, 1);
    lemma_byte(s, b0, a, 6);
    lemma_byte(s, b0, a, 7);
    lemma_byte(s, b0, a, 8);
    lemma_sub_chunk(s, b0, a, 2, 6);
    assert(a.subrange(2, 6) =~= key_type());
    lemma_byte(s, b0 + 16, bb, 0);
    lemma_byte(s, b0 + 16, bb, 1);
    lemma_byte(s, b0 + 16, bb, 2);
    lemma_byte(s, b0 + 16, bb, 9);
    lemma_byte(s, b0 + 16, bb, 10);
    lemma_sub_chunk(s, b0 + 16, bb, 3, 9);
    assert(bb.subrange(3, 9) =~= key_msg_id());
}

/// The `in_reply_to` member that follows the `msg_id` numeral.
proof fn lemma_irt_chunks(s: Seq<u8>, p: int, dr: Seq<u8>, rest: Seq<u8>)
    requires
        0 <= p,
        p + 15 + dr.len() + rest.len() <= s.len(),
        s.subrange(p, p + 15 + dr.len() + rest.len()) == enc_in_reply_to() + (dr + rest),
    ensures
        s[p] == COMMA,
        s[p + 1] == QUOTE,
        s.subrange(p + 2, p + 13) == key_in_reply_to(),
        s[p + 13] == QUOTE,
        s[p + 14] == COLON,
        s.subrange(p + 15, p + 15 + dr.len() as int) == dr,
        s.subrange(p + 15 + dr.len() as int, p + 15 + dr.len() + rest.len()) == rest,
{
    let cc = enc_in_reply_to();
    lemma_split(s, p, cc, dr + rest);
    lemma_split(s, p + 15, dr, rest);
    lemma_byte(s, p, cc, 0);
    lemma_byte(s, p, cc, 1);
    lemma_byte(s, p, cc, 13);
    lemma_byte(s, p, cc, 14);
    lemma_sub_chunk(s, p, cc, 2, 13);
    assert(cc.subrange(2, 13) =~= key_in_reply_to());
}

/// Parsing the body object of an encoded `init_ok` or `echo_ok` body yields
/// captured fields that assemble back to exactly that body.
#[verifier::rlimit(100)]
#[verifier::spinoff_prover]
proof fn lemma_body_parse(s: Seq<u8>, b0: int, b: BodyS)
    requires
        b is InitOk || b is EchoOk,
        body_wf(b),
        0 <= b0,
        b0 + spec_encode_body(b).len() < s.len(),
        s.subrange(b0, b0 + spec_encode_body(b).len() as int) == spec_encode_body(b),
    ensures
        sp_body_obj(s, b0) is Some,
        sp_body_obj(s, b0)->Some_0.1 == b0 + spec_encode_body(b).len(),
        sp_assemble_body(sp_body_obj(s, b0)->Some_0.0) == Ok::<BodyS, DecodeError>(b),
        s[b0] == LBRACE,
        spec_encode_body(b).len() >= 1,
{
    lemma_literals_wf();
    let body = spec_encode_body(b);
    let bl = body.len() as int;
    let m = body_msg_id(b);
    let r = body_in_reply_to(b);
    let dm = dec_u64(m as nat);
    let dr = dec_u64(r as nat);
    let d1 = dm.len() as int;
    let d2 = dr.len() as int;
    lemma_dec_props(m as nat);
    lemma_dec_props(r as nat);
    lemma_lex_dec(m);
    lemma_lex_dec(r);
    let p = b0 + 27 + d1;
    let acc1 = BodyAcc { typ: Cap::Val(if b is InitOk { type_init_ok() } else { type_echo_ok() }), ..body_acc_empty() };
    let acc2 = BodyAcc { msg_id: Cap::Val(dm), ..acc1 };
    let acc3 = BodyAcc { in_reply_to: Cap::Val(dr), ..acc2 };
    if b is InitOk {
        let tname = type_init_ok();
        let rest = enc_in_reply_to() + (dr + seq![RBRACE]);
        assert(body == enc_body_open() + (tname + (enc_msg_id() + (dm + rest))));
        assert(bl == 43 + d1 + d2);
        lemma_body_chunks(s, b0, tname, dm, rest);
        lemma_irt_chunks(s, p, dr, seq![RBRACE]);
        lemma_byte(s, p + 15 + d2, seq![RBRACE], 0);
        lemma_string_embed(s, b0 + 2, key_type());
        lemma_string_embed(s, b0 + 9, tname);
        lemma_string_embed(s, b0 + 19, key_msg_id());
        lemma_number_embed(s, b0 + 27, m as nat);
        lemma_string_embed(s, p + 2, key_in_reply_to());
        lemma_number_embed(s, p + 15, r as nat);
        lemma_body_value_string(s, b0 + 8, body_acc_empty(), key_type(), b0 + 17);
        lemma_body_member_step(s, b0 + 1, body_acc_empty(), 4, b0 + 17, acc1);
        lemma_body_value_number(s, b0 + 27, acc1, key_msg_id(), p);
        lemma_body_member_step(s, b0 + 18, acc1, 6, p, acc2);
        lemma_body_value_number(s, p + 15, acc2, key_in_reply_to(), p + 15 + d2);
        lemma_body_member_step(s, p + 1, acc2, 11, p + 15 + d2, acc3);
        assert(sp_body_members(s, b0 + 1, body_acc_empty()) == Some((acc3, b0 + bl)));
        assert(sp_body_obj(s, b0) == Some((acc3, b0 + bl)));
        assert(type_init_ok() != type_init() && type_init_ok() != type_echo());
        assert(BodyS::InitOk { msg_id: m, in_reply_to: r } =~= b);
        assert(sp_assemble_body(acc3) == Ok::<BodyS, DecodeError>(b));
    } else {
        let tname = type_echo_ok();
        let echo = body_echo(b);
        let el = echo.len() as int;
        let tail = echo + seq![QUOTE, RBRACE];
        let rest = enc_in_reply_to() + (dr + (enc_echo() + tail));
        assert(body == enc_body_open() + (tname + (enc_msg_id() + (dm + rest))));
        assert(bl == 53 + d1 + d2 + el);
        lemma_body_chunks(s, b0, tname, dm, rest);
        lemma_irt_chunks(s, p, dr, enc_echo() + tail);
        let q = p + 15 + d2;
        let ee = enc_echo();
        lemma_split(s, q, ee, tail);
        lemma_split(s, q + 9, echo, seq![QUOTE, RBRACE]);
        lemma_byte(s, q, ee, 0);
        lemma_byte(s, q, ee, 1);
        lemma_byte(s, q, ee, 6);
        lemma_byte(s, q, ee, 7);
        lemma_byte(s, q, ee, 8);
        lemma_sub_chunk(s, q, ee, 2, 6);
        assert(ee.subrange(2, 6) =~= key_echo());
        lemma_byte(s, q + 9 + el, seq![QUOTE, RBRACE], 0);
        lemma_byte(s, q + 9 + el, seq![QUOTE, RBRACE], 1);
        lemma_string_embed(s, b0 + 2, key_type());
        lemma_string_embed(s, b0 + 9, tname);
        lemma_string_embed(s, b0 + 19, key_msg_id());
        lemma_number_embed(s, b0 + 27, m as nat);
        lemma_string_embed(s, p + 2, key_in_reply_to());
        lemma_number_embed(s, p + 15, r as nat);
        lemma_string_embed(s, q + 2, key_echo());
        lemma_string_embed(s, q + 9, echo);
        let acc4 = BodyAcc { echo: Cap::Val(echo), ..acc3 };
        lemma_body_value_string(s, b0 + 8, body_acc_empty(), key_type(), b0 + 17);
        lemma_body_member_step(s, b0 + 1, body_acc_empty(), 4, b0 + 17, acc1);
        lemma_body_value_number(s, b0 + 27, acc1, key_msg_id(), p);
        lemma_body_member_step(s, b0 + 18, acc1, 6, p, acc2);
        lemma_body_value_number(s, p + 15, acc2, key_in_reply_to(), q);
        lemma_body_member_step(s, p + 1, acc2, 11, q, acc3);
        lemma_body_value_string(s, q + 8, acc3, key_echo(), q + 10 + el);
        lemma_body_member_step(s, q + 1, acc3, 4, q + 10 + el, acc4);
        assert(sp_body_members(s, b0 + 1, body_acc_empty()) == Some((acc4, b0 + bl)));
        assert(sp_body_obj(s, b0) == Some((acc4, b0 + bl)));
        assert(type_echo_ok() != type_init() && type_echo_ok() != type_echo());
        assert(type_echo_ok() != type_init_ok()) by {
            assert(type_echo_ok()[0] == 101 && type_init_ok()[0] == 105);
        }
        assert(BodyS::EchoOk { msg_id: m, in_reply_to: r, echo } =~= b);
        assert(sp_assemble_body(acc4) == Ok::<BodyS, DecodeError>(b));
    }
}


/// The layout of a whole encoded envelope: every byte and chunk the
/// envelope walk inspects, at its offset.
#[verifier::rlimit(100)]
#[verifier::spinoff_prover]
proof fn lemma_env_chunks(s: Seq<u8>, src: Seq<u8>, dest: Seq<u8>, body: Seq<u8>)
    requires
        s == enc_open() + (src + (enc_mid_dest() + (dest + (enc_mid_body() + (body + seq![
            RBRACE,
        ]))))),
    ensures
        s.len() == 28 + src.len() + dest.len() + body.len(),
        s[0] == LBRACE,
        s[1] == QUOTE,
        s[5] == QUOTE,
        s[6] == COLON,
        s[7] == QUOTE,
        s.subrange(2, 5) == key_src(),
        s.subrange(8, 8 + src.len() as int) == src,
        s[8 + src.len() as int] == QUOTE,
        s[9 + src.len() as int] == COMMA,
        s[10 + src.len() as int] == QUOTE,
        s.subrange(11 + src.len() as int, 15 + src.len() as int) == key_dest(),
        s[15 + src.len() as int] == QUOTE,
        s[16 + src.len() as int] == COLON,
        s[17 + src.len() as int] == QUOTE,
        s.subrange(18 + src.len() as int, 18 + src.len() + dest.len() as int) == dest,
        s[18 + src.len() + dest.len() as int] == QUOTE,
        s[19 + src.len() + dest.len() as int] == COMMA,
        s[20 + src.len() + dest.len() as int] == QUOTE,
        s.subrange(21 + src.len() + dest.len() as int, 25 + src.len() + dest.len() as int) == key_body(),
        s[25 + src.len() + dest.len() as int] == QUOTE,
        s[26 + src.len() + dest.len() as int] == COLON,
        s.subrange(27 + src.len() + dest.len() as int, 27 + src.len() + dest.len() + body.len() as int) == body,
        s[27 + src.len() + dest.len() + body.len() as int] == RBRACE,
{
    let l1 = src.len() as int;
    let l2 = dest.len() as int;
    let bl = body.len() as int;
    let b0 = 27 + l1 + l2;
    let eo = enc_open();
    let emd = enc_mid_dest();
    let emb = enc_mid_body();
    let u5 = body + seq![RBRACE];
    let u4 = emb + u5;
    let u3 = dest + u4;
    let u2 = emd + u3;
    let u1 = src + u2;
    assert(s.subrange(0, s.len() as int) =~= s);
    lemma_split(s, 0, eo, u1);
    lemma_split(s, 8, src, u2);
    lemma_split(s, 8 + l1, emd, u3);
    lemma_split(s, 18 + l1, dest, u4);
    lemma_split(s, 18 + l1 + l2, emb, u5);
    lemma_split(s, b0, body, seq![RBRACE]);
    lemma_byte(s, 0, eo, 0);
    lemma_byte(s, 0, eo, 1);
    lemma_byte(s, 0, eo, 5);
    lemma_byte(s, 0, eo, 6);
    lemma_byte(s, 0, eo, 7);
    lemma_sub_chunk(s, 0, eo, 2, 5);
    assert(eo.subrange(2, 5) =~= key_src());
    lemma_byte(s, 8 + l1, emd, 0);
    lemma_byte(s, 8 + l1, emd, 1);
    lemma_byte(s, 8 + l1, emd, 2);
    lemma_byte(s, 8 + l1, emd, 7);
    lemma_byte(s, 8 + l1, emd, 8);
    lemma_byte(s, 8 + l1, emd, 9);
    lemma_sub_chunk(s, 8 + l1, emd, 3, 7);
    assert(emd.subrange(3, 7) =~= key_dest());
    lemma_byte(s, 18 + l1 + l2, emb, 0);
    lemma_byte(s, 18 + l1 + l2, emb, 1);
    lemma_byte(s, 18 + l1 + l2, emb, 2);
    lemma_byte(s, 18 + l1 + l2, emb, 7);
    lemma_byte(s, 18 + l1 + l2, emb, 8);
    lemma_sub_chunk(s, 18 + l1 + l2, emb, 3, 7);
    assert(emb.subrange(3, 7) =~= key_body());
    lemma_byte(s, b0 + bl, seq![RBRACE], 0);
}

/// The member walk over an encoded envelope whose chunks stand at their
/// offsets: the decoded line is the assembled captures.
#[verifier::rlimit(100)]
#[verifier::spinoff_prover]
proof fn lemma_env_walk(s: Seq<u8>, e: EnvelopeS, src: Seq<u8>, dest: Seq<u8>, bl: int, bacc: BodyAcc)
    requires
        src == e.src,
        dest == e.dest,
        sp_assemble_body(bacc) == Ok::<BodyS, DecodeError>(e.body),
        wf_str(src),
        wf_str(dest),
        1 <= bl,
        s.len() == 28 + src.len() + dest.len() + bl,
        s[0] == LBRACE,
        s[1] == QUOTE,
        s[5] == QUOTE,
        s[6] == COLON,
        s[7] == QUOTE,
        s.subrange(2, 5) == key_src(),
        s.subrange(8, 8 + src.len() as int) == src,
        s[8 + src.len() as int] == QUOTE,
        s[9 + src.len() as int] == COMMA,
        s[10 + src.len() as int] == QUOTE,
        s.subrange(11 + src.len() as int, 15 + src.len() as int) == key_dest(),
        s[15 + src.len() as int] == QUOTE,
        s[16 + src.len() as int] == COLON,
        s[17 + src.len() as int] == QUOTE,
        s.subrange(18 + src.len() as int, 18 + src.len() + dest.len() as int) == dest,
        s[18 + src.len() + dest.len() as int] == QUOTE,
        s[19 + src.len() + dest.len() as int] == COMMA,
        s[20 + src.len() + dest.len() as int] == QUOTE,
        s.subrange(21 + src.len() + dest.len() as int, 25 + src.len() + dest.len() as int)
            == key_body(),
        s[25 + src.len() + dest.len() as int] == QUOTE,
        s[26 + src.len() + dest.len() as int] == COLON,
        s[27 + src.len() + dest.len() as int] == LBRACE,
        sp_body_obj(s, 27 + src.len() + dest.len() as int) == Some(
            (bacc, 27 + src.len() + dest.len() + bl),
        ),
        s[27 + src.len() + dest.len() + bl] == RBRACE,
    ensures
        sp_decode(s) == Ok::<EnvelopeS, DecodeError>(e),
{
    let l1 = src.len() as int;
    let l2 = dest.len() as int;
    let b0 = 27 + l1 + l2;
    lemma_literals_wf();
    lemma_string_embed(s, 2, key_src());
    lemma_string_embed(s, 8, src);
    lemma_string_embed(s, 11 + l1, key_dest());
    lemma_string_embed(s, 18 + l1, dest);
    lemma_string_embed(s, 21 + l1 + l2, key_body());
    let acc1 = EnvAcc { src: Cap::Val(src), ..env_acc_empty() };
    let acc2 = EnvAcc { dest: Cap::Val(dest), ..acc1 };
    let acc3 = EnvAcc { body: Some(bacc), ..acc2 };
    lemma_env_value_string(s, 7, env_acc_empty(), key_src(), 9 + l1);
    lemma_env_member_step(s, 1, env_acc_empty(), 3, 9 + l1, acc1);
    lemma_env_value_string(s, 17 + l1, acc1, key_dest(), 19 + l1 + l2);
    lemma_env_member_step(s, 10 + l1, acc1, 4, 19 + l1 + l2, acc2);
    lemma_env_value_body(s, b0, acc2, bacc, b0 + bl);
    lemma_env_member_step(s, 20 + l1 + l2, acc2, 4, b0 + bl, acc3);
    assert(sp_env_members(s, 1, env_acc_empty()) == Some((acc3, b0 + bl + 1)));
    assert(sp_ws(s, 0) == 0);
    assert(sp_ws(s, 1) == 1);
    assert(sp_ws(s, b0 + bl + 1) == s.len());
    assert(sp_decode(s) == sp_assemble(acc3));
    assert(EnvelopeS { src: e.src, dest: e.dest, body: e.body } =~= e);
    assert(sp_assemble(acc3) == Ok::<EnvelopeS, DecodeError>(e));
}

/// Law: encoding a reply the node produced and decoding that line again
/// yields the reply unchanged — identical `src`, `dest` and body fields.
#[verifier::rlimit(100)]
#[verifier::spinoff_prover]
pub proof fn lemma_reply_round_trip(e: EnvelopeS)
    requires
        env_wf(e),
        e.body is InitOk || e.body is EchoOk,
    ensures
        sp_decode(spec_encode(e)) == Ok::<EnvelopeS, DecodeError>(e),
{
    let s = spec_encode(e);
    let l1 = e.src.len() as int;
    let l2 = e.dest.len() as int;
    let body = spec_encode_body(e.body);
    let bl = body.len() as int;
    let b0 = 27 + l1 + l2;
    lemma_env_chunks(s, e.src, e.dest, body);
    lemma_body_parse(s, b0, e.body);
    let bacc = sp_body_obj(s, b0)->Some_0.0;
    lemma_env_walk(s, e, e.src, e.dest, bl, bacc);
}

} // verus!
