//! Decimal numerals on the wire: the value of a run of digit bytes, reading a
//! `u64` out of a captured number lexeme, and printing a `u64` as the digit
//! run the encoder emits.

use vstd::prelude::*;
use crate::grammar::{
    is_digit, is_exp, sp_digits, sp_frac_end, sp_exp_end, sp_number_end, is_digit_x, DIGIT_ZERO,
    DOT, MINUS,
};

verus! {

/// Value denoted by a run of decimal digit bytes (meaningful only when every
/// byte is a digit).
pub open spec fn digits_val(c: Seq<u8>) -> int
    decreases c.len(),
{
    if c.len() == 0 {
        0
    } else {
        digits_val(c.drop_last()) * 10 + (c.last() - DIGIT_ZERO)
    }
}

pub open spec fn all_digits(c: Seq<u8>) -> bool {
    forall|k: int| 0 <= k < c.len() ==> is_digit(#[trigger] c[k])
}

/// The `u64` a captured number lexeme stands for: defined exactly when the
/// lexeme is a plain run of digits whose value fits in a `u64`.
pub open spec fn lex_u64(c: Seq<u8>) -> Option<u64> {
    if c.len() > 0 && all_digits(c) && digits_val(c) <= u64::MAX {
        Some(digits_val(c) as u64)
    } else {
        None
    }
}

/// The decimal digit run for `n`, without sign or leading zeros.
pub open spec fn dec_u64(n: nat) -> Seq<u8>
    decreases n,
{
    if n < 10 {
        seq![(n + 48) as u8]
    } else {
        dec_u64(n / 10).push(((n % 10) + 48) as u8)
    }
}

pub proof fn lemma_digits_val_nonneg(c: Seq<u8>)
    requires
        all_digits(c),
    ensures
        digits_val(c) >= 0,
    decreases c.len(),
{
    if c.len() > 0 {
        assert(all_digits(c.drop_last())) by {
            assert(forall|k: int| 0 <= k < c.len() - 1 ==> #[trigger] c.drop_last()[k] == c[k]);
        }
        lemma_digits_val_nonneg(c.drop_last());
    }
}

/// Appending digits never shrinks the value a digit run denotes.
pub proof fn lemma_digits_val_prefix_le(c: Seq<u8>, k: int)
    requires
        all_digits(c),
        0 <= k <= c.len(),
    ensures
        digits_val(c.subrange(0, k)) <= digits_val(c),
    decreases c.len() - k,
{
    if k == c.len() {
        assert(c.subrange(0, k) =~= c);
    } else {
        let d = c.subrange(0, k + 1);
        assert(d.drop_last() =~= c.subrange(0, k));
        assert(all_digits(d)) by {
            assert(forall|j: int| 0 <= j < d.len() ==> #[trigger] d[j] == c[j]);
        }
        lemma_digits_val_nonneg(d.drop_last());
        assert(digits_val(d) >= digits_val(d.drop_last()));
        lemma_digits_val_prefix_le(c, k + 1);
    }
}

/// The printed numeral of `n` is a nonempty digit run that denotes `n` and
/// starts with a zero only for `n == 0`.
pub proof fn lemma_dec_props(n: nat)
    ensures
        dec_u64(n).len() >= 1,
        all_digits(dec_u64(n)),
        (dec_u64(n)[0] == DIGIT_ZERO) <==> (n == 0),
        digits_val(dec_u64(n)) == n,
    decreases n,
{
    if n < 10 {
        let c = dec_u64(n);
        assert(c =~= seq![(n + 48) as u8]);
        assert(c.drop_last() =~= Seq::<u8>::empty());
        assert(c.last() == (n + 48) as u8);
        assert((n + 48) as u8 == n + 48);
        assert(digits_val(c) == digits_val(c.drop_last()) * 10 + (c.last() - DIGIT_ZERO));
    } else {
        assert(n / 10 < n && n / 10 >= 1 && n % 10 < 10) by (nonlinear_arith)
            requires n >= 10;
        lemma_dec_props(n / 10);
        let m = dec_u64(n / 10);
        let d = ((n % 10) + 48) as u8;
        let c = dec_u64(n);
        assert(c == m.push(d));
        assert(c.drop_last() =~= m);
        assert(c.last() == d);
        assert(all_digits(c)) by {
            assert(forall|k: int| 0 <= k < m.len() ==> #[trigger] c[k] == m[k]);
        }
        assert(c[0] == m[0]);
        assert(d == (n % 10) + 48);
        assert(digits_val(c) == digits_val(m) * 10 + (d - DIGIT_ZERO));
        assert((n / 10) * 10 + n % 10 == n) by (nonlinear_arith);
    }
}

/// A `u64` printed and read back gives the same value.
pub proof fn lemma_lex_dec(n: u64)
    ensures
        lex_u64(dec_u64(n as nat)) == Some(n),
{
    lemma_dec_props(n as nat);
}

/// A digit run embedded in `s` at `i`, followed by a non-digit, scans to
/// exactly its end.
pub proof fn lemma_digits_embed(s: Seq<u8>, i: int, c: Seq<u8>)
    requires
        0 <= i,
        i + c.len() <= s.len(),
        all_digits(c),
        s.subrange(i, i + c.len()) == c,
        i + c.len() == s.len() || !is_digit(s[i + c.len()]),
    ensures
        sp_digits(s, i) == i + c.len(),
    decreases c.len(),
{
    if c.len() == 0 {
    } else {
        assert(s[i] == c[0]) by {
            assert(s.subrange(i, i + c.len())[0] == s[i]);
        }
        assert(s.subrange(i + 1, i + 1 + (c.len() - 1)) =~= c.skip(1));
        assert(all_digits(c.skip(1))) by {
            assert(forall|k: int| 0 <= k < c.len() - 1 ==> #[trigger] c.skip(1)[k] == c[k + 1]);
        }
        lemma_digits_embed(s, i + 1, c.skip(1));
    }
}

/// The printed numeral of `n` embedded in `s` at `i`, followed by a byte that
/// cannot extend a number, parses as a complete JSON number ending at its end.
pub proof fn lemma_number_embed(s: Seq<u8>, i: int, n: nat)
    requires
        0 <= i,
        i + dec_u64(n).len() < s.len(),
        s.subrange(i, i + dec_u64(n).len() as int) == dec_u64(n),
        !is_digit(s[i + dec_u64(n).len()]),
        s[i + dec_u64(n).len()] != DOT,
        !is_exp(s[i + dec_u64(n).len()]),
    ensures
        sp_number_end(s, i) == Some(i + dec_u64(n).len() as int),
{
    let c = dec_u64(n);
    let e = i + c.len();
    lemma_dec_props(n);
    assert(s[i] == c[0]) by {
        assert(s.subrange(i, i + c.len())[0] == s[i]);
    }
    assert(is_digit(s[i]) && s[i] != MINUS);
    if n == 0 {
        assert(c =~= seq![DIGIT_ZERO]);
        assert(s[i] == DIGIT_ZERO && e == i + 1);
    } else {
        assert(s[i] != DIGIT_ZERO);
        lemma_digits_embed(s, i, c);
    }
    assert(sp_frac_end(s, e) == Some(e));
    assert(sp_exp_end(s, e) == Some(e));
}

// ---------------------------------------------------------------------------
// Executable counterparts.
// ---------------------------------------------------------------------------

/// Read the `u64` denoted by `s[a..b]`, or `None` if those bytes are not a
/// plain digit run or the value does not fit.
pub(crate) fn to_u64(s: &[u8], a: usize, b: usize) -> (r: Option<u64>)
    requires
        a <= b <= s@.len(),
    ensures
        r == lex_u64(s@.subrange(a as int, b as int)),
{
    let ghost c = s@.subrange(a as int, b as int);
    if a == b {
        return None;
    }
    let mut acc: u64 = 0;
    let mut cur = a;
    while cur < b
        invariant
            a <= cur <= b <= s@.len(),
            all_digits(s@.subrange(a as int, cur as int)),
            acc == digits_val(s@.subrange(a as int, cur as int)),
            c == s@.subrange(a as int, b as int),
        decreases b - cur,
    {
        let byte = s[cur];
        let ghost pre = s@.subrange(a as int, cur as int);
        let ghost post = s@.subrange(a as int, cur as int + 1);
        proof {
            assert(post.drop_last() =~= pre);
            assert(post.last() == s@[cur as int]);
        }
        if !is_digit_x(byte) {
            proof {
                assert(c[cur - a] == s@[cur as int]);
                assert(!all_digits(c));
            }
            return None;
        }
        let d = byte - 48;
        proof {
            assert(all_digits(post)) by {
                assert(forall|k: int| 0 <= k < pre.len() ==> #[trigger] post[k] == pre[k]);
            }
        }
        if acc > (u64::MAX - (d as u64)) / 10 {
            proof {
                let x = (u64::MAX - d) as int;
                assert(acc * 10 + d > u64::MAX) by (nonlinear_arith)
                    requires acc > x / 10, x == u64::MAX - d, 0 <= d <= 9, acc >= 0;
                assert(digits_val(post) > u64::MAX);
                if all_digits(c) {
                    lemma_digits_val_prefix_le(c, cur as int + 1 - a);
                    assert(c.subrange(0, cur as int + 1 - a) =~= post);
                }
            }
            return None;
        }
        proof {
            assert(acc * 10 + d <= u64::MAX) by (nonlinear_arith)
                requires acc <= ((u64::MAX - d) as int) / 10, 0 <= d <= 9, acc >= 0;
        }
        acc = acc * 10 + (d as u64);
        cur = cur + 1;
    }
    proof {
        assert(c =~= s@.subrange(a as int, cur as int));
        lemma_digits_val_nonneg(c);
    }
    Some(acc)
}

/// Append the decimal numeral of `n` to `out`.
pub(crate) fn push_dec(out: &mut Vec<u8>, n: u64)
    ensures
        final(out)@ == old(out)@ + dec_u64(n as nat),
    decreases n,
{
    if n < 10 {
        out.push((n as u8) + 48);
        assert(out@ =~= old(out)@ + dec_u64(n as nat));
    } else {
        proof {
            assert(n / 10 < n) by (nonlinear_arith)
                requires n >= 10;
        }
        push_dec(out, n / 10);
        out.push(((n % 10) as u8) + 48);
        assert(out@ =~= old(out)@ + dec_u64(n as nat));
    }
}

} // verus!
