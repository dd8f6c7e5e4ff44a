//! The node itself: the dispatcher that answers `init` and `echo` envelopes,
//! the pure handlers that build the reply bodies, and the outgoing
//! message-id counter — the node's only state.

use vstd::prelude::*;
use crate::msg::{Body, BodyS, Envelope, EnvelopeS, DecodeError, env_wf, body_wf};
use crate::codec::{decode, encode, sp_decode, spec_encode};

verus! {

/// Does the node answer this body? Only the two request types do; replies
/// and unknown types are ignored.
pub open spec fn produces_reply(b: BodyS) -> bool {
    b is Init || b is Echo
}

/// The `msg_id` a body carries (0 for `Unknown`, which carries none).
pub open spec fn body_msg_id(b: BodyS) -> u64 {
    match b {
        BodyS::Init { msg_id } => msg_id,
        BodyS::InitOk { msg_id, .. } => msg_id,
        BodyS::Echo { msg_id, .. } => msg_id,
        BodyS::EchoOk { msg_id, .. } => msg_id,
        BodyS::Unknown => 0,
    }
}

/// The `in_reply_to` a reply body carries (0 for the others).
pub open spec fn body_in_reply_to(b: BodyS) -> u64 {
    match b {
        BodyS::InitOk { in_reply_to, .. } => in_reply_to,
        BodyS::EchoOk { in_reply_to, .. } => in_reply_to,
        _ => 0,
    }
}

/// The `echo` payload a body carries (empty for the others).
pub open spec fn body_echo(b: BodyS) -> Seq<u8> {
    match b {
        BodyS::Echo { echo, .. } => echo,
        BodyS::EchoOk { echo, .. } => echo,
        _ => Seq::empty(),
    }
}

/// The body of the reply to `b`, stamped with the node's counter as its own
/// `msg_id` and correlated through `in_reply_to`.
pub open spec fn sp_reply_body(b: BodyS, counter: u64) -> BodyS {
    match b {
        BodyS::Init { msg_id } => BodyS::InitOk { msg_id: counter, in_reply_to: msg_id },
        BodyS::Echo { msg_id, echo } => BodyS::EchoOk {
            msg_id: counter,
            in_reply_to: msg_id,
            echo,
        },
        _ => BodyS::Unknown,
    }
}

/// The reply envelope: the responder answers as the party it was addressed
/// as, so `src` and `dest` come back swapped.
pub open spec fn sp_reply(e: EnvelopeS, counter: u64) -> EnvelopeS {
    EnvelopeS { src: e.dest, dest: e.src, body: sp_reply_body(e.body, counter) }
}

/// Law: the reply to a valid `init` request with `msg_id = m` is an
/// `init_ok` body with `in_reply_to = m`, and the reply envelope's `src` and
/// `dest` are the request's `dest` and `src`.
pub proof fn lemma_init_reply(e: EnvelopeS, counter: u64)
    requires
        e.body is Init,
    ensures
        sp_reply(e, counter).body is InitOk,
        body_in_reply_to(sp_reply(e, counter).body) == body_msg_id(e.body),
        body_msg_id(sp_reply(e, counter).body) == counter,
        sp_reply(e, counter).src == e.dest,
        sp_reply(e, counter).dest == e.src,
{
}

/// Law: the reply to a valid `echo` request with `msg_id = m` and payload
/// `s` is an `echo_ok` body with `in_reply_to = m` and the identical payload
/// `s`, in an envelope with `src` and `dest` swapped.
pub proof fn lemma_echo_reply(e: EnvelopeS, counter: u64)
    requires
        e.body is Echo,
    ensures
        sp_reply(e, counter).body is EchoOk,
        body_in_reply_to(sp_reply(e, counter).body) == body_msg_id(e.body),
        body_msg_id(sp_reply(e, counter).body) == counter,
        body_echo(sp_reply(e, counter).body) == body_echo(e.body),
        sp_reply(e, counter).src == e.dest,
        sp_reply(e, counter).dest == e.src,
{
}

/// A reply to a well-formed envelope is well-formed.
pub proof fn lemma_reply_wf(e: EnvelopeS, counter: u64)
    requires
        env_wf(e),
    ensures
        env_wf(sp_reply(e, counter)),
{
}

/// Build the `init_ok` body for a request carrying `req_msg_id`.
pub fn handle_init(req_msg_id: u64, counter: u64) -> (b: Body)
    ensures
        b@ == sp_reply_body(BodyS::Init { msg_id: req_msg_id }, counter),
{
    Body::InitOk { msg_id: counter, in_reply_to: req_msg_id }
}

/// Build the `echo_ok` body: the payload goes back byte for byte.
pub fn handle_echo(req_msg_id: u64, echo: Vec<u8>, counter: u64) -> (b: Body)
    ensures
        b@ == sp_reply_body(BodyS::Echo { msg_id: req_msg_id, echo: echo@ }, counter),
{
    Body::EchoOk { msg_id: counter, in_reply_to: req_msg_id, echo }
}

/// Copy a byte string.
fn clone_bytes(v: &Vec<u8>) -> (r: Vec<u8>)
    ensures
        r@ == v@,
{
    let mut r: Vec<u8> = Vec::new();
    let mut k: usize = 0;
    while k < v.len()
        invariant
            0 <= k <= v@.len(),
            r@ == v@.subrange(0, k as int),
        decreases v@.len() - k,
    {
        r.push(v[k]);
        proof {
            assert(v@.subrange(0, k as int + 1) =~= v@.subrange(0, k as int).push(v@[k as int]));
        }
        k = k + 1;
    }
    proof {
        assert(r@ =~= v@);
    }
    r
}

/// What the counter stands at after one line: it advances exactly when a
/// reply is produced.
pub open spec fn sp_counter_after(counter: u64, s: Seq<u8>) -> int {
    match sp_decode(s) {
        Ok(env) => if produces_reply(env.body) {
            counter + 1
        } else {
            counter as int
        },
        Err(_) => counter as int,
    }
}

/// What one line produces: the encoded reply, nothing, or the fatal error.
pub open spec fn sp_process(counter: u64, s: Seq<u8>) -> Result<Option<Seq<u8>>, DecodeError> {
    match sp_decode(s) {
        Err(e) => Err(e),
        Ok(env) => if produces_reply(env.body) {
            Ok(Some(spec_encode(sp_reply(env, counter))))
        } else {
            Ok(None)
        },
    }
}

/// One protocol node. Its only state is the id stamped on the next reply.
pub struct Node {
    pub next_msg_id: u64,
}

impl Node {
    /// A fresh node; outgoing message ids start at 1.
    pub fn new() -> (n: Node)
        ensures
            n.next_msg_id == 1,
    {
        Node { next_msg_id: 1 }
    }

    /// Route one decoded envelope: answer `init` and `echo` with a reply
    /// stamped with the current counter, ignore everything else. The counter
    /// advances exactly when a reply is produced.
    pub fn dispatch(&mut self, e: &Envelope) -> (r: Option<Envelope>)
        requires
            old(self).next_msg_id < u64::MAX,
        ensures
            produces_reply(e@.body) ==> (r matches Some(rep) && rep@ == sp_reply(
                e@,
                old(self).next_msg_id,
            ) && final(self).next_msg_id == old(self).next_msg_id + 1),
            !produces_reply(e@.body) ==> r is None && final(self).next_msg_id == old(
                self,
            ).next_msg_id,
            env_wf(e@) ==> (r matches Some(rep) ==> env_wf(rep@)),
    {
        match &e.body {
            Body::Init { msg_id } => {
                let counter = self.next_msg_id;
                self.next_msg_id = counter + 1;
                let body = handle_init(*msg_id, counter);
                let rep = Envelope { src: clone_bytes(&e.dest), dest: clone_bytes(&e.src), body };
                Some(rep)
            },
            Body::Echo { msg_id, echo } => {
                let counter = self.next_msg_id;
                self.next_msg_id = counter + 1;
                let body = handle_echo(*msg_id, clone_bytes(echo), counter);
                let rep = Envelope { src: clone_bytes(&e.dest), dest: clone_bytes(&e.src), body };
                Some(rep)
            },
            _ => None,
        }
    }

    /// Handle one input line: decode it, dispatch it, and encode the reply
    /// if one is owed. Exactly the envelopes whose body is a valid `init` or
    /// `echo` request produce an output line; an unknown or reply-typed body
    /// produces none; a line `sp_decode` rejects is the fatal error it is
    /// rejected with.
    pub fn process_line(&mut self, line: &[u8]) -> (r: Result<Option<Vec<u8>>, DecodeError>)
        requires
            old(self).next_msg_id < u64::MAX,
        ensures
            match r {
                Ok(Some(out)) => sp_process(old(self).next_msg_id, line@) == Ok::<
                    Option<Seq<u8>>,
                    DecodeError,
                >(Some(out@)),
                Ok(None) => sp_process(old(self).next_msg_id, line@) == Ok::<
                    Option<Seq<u8>>,
                    DecodeError,
                >(None),
                Err(e) => sp_process(old(self).next_msg_id, line@) == Err::<
                    Option<Seq<u8>>,
                    DecodeError,
                >(e),
            },
            final(self).next_msg_id == sp_counter_after(old(self).next_msg_id, line@),
    {
        match decode(line) {
            Err(err) => Err(err),
            Ok(env) => match self.dispatch(&env) {
                None => Ok(None),
                Some(rep) => Ok(Some(encode(&rep))),
            },
        }
    }
}

/// The replies one node produces for a stream of envelopes, its counter
/// starting at `c`: each answered request is replied to with `sp_reply` at
/// the counter value current then, and the counter advances past it.
pub open spec fn sp_replies(c: u64, envs: Seq<EnvelopeS>) -> Seq<EnvelopeS>
    decreases envs.len(),
{
    if envs.len() == 0 {
        Seq::empty()
    } else if produces_reply(envs[0].body) {
        seq![sp_reply(envs[0], c)] + sp_replies((c + 1) as u64, envs.skip(1))
    } else {
        sp_replies(c, envs.skip(1))
    }
}

/// Every reply id lies in `[c, c + envs.len())`, and there are no more
/// replies than envelopes.
pub proof fn lemma_reply_ids_bounds(c: u64, envs: Seq<EnvelopeS>)
    requires
        c + envs.len() <= u64::MAX,
    ensures
        sp_replies(c, envs).len() <= envs.len(),
        forall|k: int|
            0 <= k < sp_replies(c, envs).len() ==> c <= body_msg_id(
                #[trigger] sp_replies(c, envs)[k].body,
            ) < c + envs.len(),
    decreases envs.len(),
{
    if envs.len() == 0 {
    } else if produces_reply(envs[0].body) {
        lemma_reply_ids_bounds((c + 1) as u64, envs.skip(1));
        assert forall|k: int| 0 <= k < sp_replies(c, envs).len() implies c <= body_msg_id(
            #[trigger] sp_replies(c, envs)[k].body,
        ) < c + envs.len() by {
            if k == 0 {
            } else {
                assert(sp_replies(c, envs)[k] == sp_replies((c + 1) as u64, envs.skip(1))[k - 1]);
            }
        }
    } else {
        lemma_reply_ids_bounds(c, envs.skip(1));
        assert forall|k: int| 0 <= k < sp_replies(c, envs).len() implies c <= body_msg_id(
            #[trigger] sp_replies(c, envs)[k].body,
        ) < c + envs.len() by {
            assert(sp_replies(c, envs)[k] == sp_replies(c, envs.skip(1))[k]);
        }
    }
}

/// Law: across one run of the node, the `msg_id` values stamped on the
/// produced replies are strictly increasing in the order the replies are
/// produced.
pub proof fn lemma_reply_ids_strictly_increase(c: u64, envs: Seq<EnvelopeS>)
    requires
        c + envs.len() <= u64::MAX,
    ensures
        forall|p: int, q: int|
            0 <= p < q < sp_replies(c, envs).len() ==> body_msg_id(
                #[trigger] sp_replies(c, envs)[p].body,
            ) < body_msg_id(#[trigger] sp_replies(c, envs)[q].body),
    decreases envs.len(),
{
    if envs.len() == 0 {
    } else if produces_reply(envs[0].body) {
        lemma_reply_ids_strictly_increase((c + 1) as u64, envs.skip(1));
        lemma_reply_ids_bounds((c + 1) as u64, envs.skip(1));
        assert forall|p: int, q: int|
            0 <= p < q < sp_replies(c, envs).len() implies body_msg_id(
            #[trigger] sp_replies(c, envs)[p].body,
        ) < body_msg_id(#[trigger] sp_replies(c, envs)[q].body) by {
            assert(sp_replies(c, envs)[q] == sp_replies((c + 1) as u64, envs.skip(1))[q - 1]);
            if p == 0 {
                assert(body_msg_id(sp_replies(c, envs)[0].body) == c);
            } else {
                assert(sp_replies(c, envs)[p] == sp_replies((c + 1) as u64, envs.skip(1))[p - 1]);
            }
        }
    } else {
        lemma_reply_ids_strictly_increase(c, envs.skip(1));
        assert forall|p: int, q: int|
            0 <= p < q < sp_replies(c, envs).len() implies body_msg_id(
            #[trigger] sp_replies(c, envs)[p].body,
        ) < body_msg_id(#[trigger] sp_replies(c, envs)[q].body) by {
            assert(sp_replies(c, envs)[p] == sp_replies(c, envs.skip(1))[p]);
            assert(sp_replies(c, envs)[q] == sp_replies(c, envs.skip(1))[q]);
        }
    }
}

} // verus!
