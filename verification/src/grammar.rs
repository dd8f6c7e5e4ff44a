//! Byte-level terminals of the wire grammar: whitespace, JSON string bodies
//! (with escape sequences), JSON numbers, and decimal digit runs.
//!
//! Every spec function here is the definition of the grammar; each executable
//! scanner is proved to return exactly what the corresponding spec function
//! denotes.

use vstd::prelude::*;

verus! {

// ASCII bytes the grammar speaks of.
pub const QUOTE: u8 = 34;
pub const BACKSLASH: u8 = 92;
pub const LBRACE: u8 = 123;
pub const RBRACE: u8 = 125;
pub const LBRACKET: u8 = 91;
pub const RBRACKET: u8 = 93;
pub const COLON: u8 = 58;
pub const COMMA: u8 = 44;
pub const MINUS: u8 = 45;
pub const PLUS: u8 = 43;
pub const DOT: u8 = 46;
pub const LETTER_U: u8 = 117;
pub const DIGIT_ZERO: u8 = 48;

pub open spec fn is_ws(b: u8) -> bool {
    b == 32 || b == 9 || b == 10 || b == 13
}

pub open spec fn is_digit(b: u8) -> bool {
    48 <= b && b <= 57
}

pub open spec fn is_hex_digit(b: u8) -> bool {
    is_digit(b) || (65 <= b && b <= 70) || (97 <= b && b <= 102)
}

/// The one-character escapes JSON allows after a backslash: " \ / b f n r t.
pub open spec fn is_simple_escape(b: u8) -> bool {
    b == 34 || b == 92 || b == 47 || b == 98 || b == 102 || b == 110 || b == 114 || b == 116
}

pub open spec fn is_exp(b: u8) -> bool {
    b == 101 || b == 69
}

/// First index at or after `i` that holds a byte which is not JSON whitespace.
pub open spec fn sp_ws(s: Seq<u8>, i: int) -> int
    decreases s.len() - i,
{
    if 0 <= i && i < s.len() && is_ws(s[i]) {
        sp_ws(s, i + 1)
    } else {
        i
    }
}

pub proof fn lemma_ws_bounds(s: Seq<u8>, i: int)
    requires
        0 <= i <= s.len(),
    ensures
        i <= sp_ws(s, i) <= s.len(),
        sp_ws(s, i) < s.len() ==> !is_ws(s[sp_ws(s, i)]),
    decreases s.len() - i,
{
    if i < s.len() && is_ws(s[i]) {
        lemma_ws_bounds(s, i + 1);
    }
}

/// First index at or after `i` that holds a non-digit.
pub open spec fn sp_digits(s: Seq<u8>, i: int) -> int
    decreases s.len() - i,
{
    if 0 <= i && i < s.len() && is_digit(s[i]) {
        sp_digits(s, i + 1)
    } else {
        i
    }
}

pub proof fn lemma_digits_bounds(s: Seq<u8>, i: int)
    requires
        0 <= i <= s.len(),
    ensures
        i <= sp_digits(s, i) <= s.len(),
    decreases s.len() - i,
{
    if i < s.len() && is_digit(s[i]) {
        lemma_digits_bounds(s, i + 1);
    }
}

/// With `i` just after an opening quote: the index just after the closing
/// quote of a well-formed JSON string body, or `None` if the bytes from `i`
/// are not a valid string body.
pub open spec fn sp_string_rest(s: Seq<u8>, i: int) -> Option<int>
    decreases s.len() - i,
{
    if !(0 <= i && i < s.len()) {
        None
    } else if s[i] == QUOTE {
        Some(i + 1)
    } else if s[i] == BACKSLASH {
        if i + 1 < s.len() && is_simple_escape(s[i + 1]) {
            sp_string_rest(s, i + 2)
        } else if i + 5 < s.len() && s[i + 1] == LETTER_U && is_hex_digit(s[i + 2])
            && is_hex_digit(s[i + 3]) && is_hex_digit(s[i + 4]) && is_hex_digit(s[i + 5]) {
            sp_string_rest(s, i + 6)
        } else {
            None
        }
    } else if s[i] >= 32 {
        sp_string_rest(s, i + 1)
    } else {
        None
    }
}

pub proof fn lemma_string_rest_bounds(s: Seq<u8>, i: int)
    requires
        0 <= i <= s.len(),
        sp_string_rest(s, i) is Some,
    ensures
        i < sp_string_rest(s, i)->Some_0 <= s.len(),
    decreases s.len() - i,
{
    if s[i] == QUOTE {
    } else if s[i] == BACKSLASH {
        if i + 1 < s.len() && is_simple_escape(s[i + 1]) {
            lemma_string_rest_bounds(s, i + 2);
        } else {
            lemma_string_rest_bounds(s, i + 6);
        }
    } else {
        lemma_string_rest_bounds(s, i + 1);
    }
}

/// Raw string content: what may stand between the two quotes of a JSON
/// string on the wire. Escape sequences are kept as written, never decoded.
pub open spec fn wf_str(c: Seq<u8>) -> bool
    decreases c.len(),
{
    if c.len() == 0 {
        true
    } else if c[0] == BACKSLASH {
        if c.len() >= 2 && is_simple_escape(c[1]) {
            wf_str(c.skip(2))
        } else if c.len() >= 6 && c[1] == LETTER_U && is_hex_digit(c[2]) && is_hex_digit(c[3])
            && is_hex_digit(c[4]) && is_hex_digit(c[5]) {
            wf_str(c.skip(6))
        } else {
            false
        }
    } else {
        c[0] != QUOTE && c[0] >= 32 && wf_str(c.skip(1))
    }
}

/// A well-formed string body embedded in `s` at `i` and followed by a closing
/// quote scans to exactly its end.
pub proof fn lemma_string_embed(s: Seq<u8>, i: int, c: Seq<u8>)
    requires
        0 <= i,
        i + c.len() < s.len(),
        wf_str(c),
        s.subrange(i, i + c.len()) == c,
        s[i + c.len()] == QUOTE,
    ensures
        sp_string_rest(s, i) == Some(i + c.len() + 1),
    decreases c.len(),
{
    if c.len() == 0 {
        assert(s[i] == QUOTE);
    } else {
        assert(s[i] == c[0]) by {
            assert(s.subrange(i, i + c.len())[0] == s[i]);
        }
        if c[0] == BACKSLASH {
            if c.len() >= 2 && is_simple_escape(c[1]) {
                assert(s[i + 1] == c[1]) by {
                    assert(s.subrange(i, i + c.len())[1] == s[i + 1]);
                }
                assert(s.subrange(i + 2, i + 2 + (c.len() - 2)) =~= c.skip(2));
                lemma_string_embed(s, i + 2, c.skip(2));
            } else {
                assert(s[i + 1] == c[1] && s[i + 2] == c[2] && s[i + 3] == c[3] && s[i + 4] == c[4]
                    && s[i + 5] == c[5]) by {
                    assert(s.subrange(i, i + c.len())[1] == s[i + 1]);
                    assert(s.subrange(i, i + c.len())[2] == s[i + 2]);
                    assert(s.subrange(i, i + c.len())[3] == s[i + 3]);
                    assert(s.subrange(i, i + c.len())[4] == s[i + 4]);
                    assert(s.subrange(i, i + c.len())[5] == s[i + 5]);
                }
                assert(s.subrange(i + 6, i + 6 + (c.len() - 6)) =~= c.skip(6));
                lemma_string_embed(s, i + 6, c.skip(6));
            }
        } else {
            assert(s.subrange(i + 1, i + 1 + (c.len() - 1)) =~= c.skip(1));
            lemma_string_embed(s, i + 1, c.skip(1));
        }
    }
}

/// What a successful string scan passed over is well-formed string content.
pub proof fn lemma_string_content_wf(s: Seq<u8>, i: int)
    requires
        0 <= i <= s.len(),
        sp_string_rest(s, i) is Some,
    ensures
        wf_str(s.subrange(i, sp_string_rest(s, i)->Some_0 - 1)),
    decreases s.len() - i,
{
    lemma_string_rest_bounds(s, i);
    let k = sp_string_rest(s, i)->Some_0;
    let c = s.subrange(i, k - 1);
    if s[i] == QUOTE {
        assert(c.len() == 0);
    } else if s[i] == BACKSLASH {
        if i + 1 < s.len() && is_simple_escape(s[i + 1]) {
            lemma_string_rest_bounds(s, i + 2);
            lemma_string_content_wf(s, i + 2);
            assert(c.skip(2) =~= s.subrange(i + 2, k - 1));
            assert(c[0] == BACKSLASH && c[1] == s[i + 1]);
        } else {
            lemma_string_rest_bounds(s, i + 6);
            lemma_string_content_wf(s, i + 6);
            assert(c.skip(6) =~= s.subrange(i + 6, k - 1));
            assert(c[0] == s[i] && c[1] == s[i + 1] && c[2] == s[i + 2] && c[3] == s[i + 3]
                && c[4] == s[i + 4] && c[5] == s[i + 5]);
        }
    } else {
        lemma_string_rest_bounds(s, i + 1);
        lemma_string_content_wf(s, i + 1);
        assert(c.skip(1) =~= s.subrange(i + 1, k - 1));
        assert(c[0] == s[i]);
    }
}

/// Index just after the fraction part of a JSON number (empty if none), or
/// `None` if a dot is not followed by a digit.
pub open spec fn sp_frac_end(s: Seq<u8>, j: int) -> Option<int> {
    if 0 <= j && j < s.len() && s[j] == DOT {
        if j + 1 < s.len() && is_digit(s[j + 1]) {
            Some(sp_digits(s, j + 1))
        } else {
            None
        }
    } else {
        Some(j)
    }
}

/// Index just after the exponent part of a JSON number (empty if none).
pub open spec fn sp_exp_end(s: Seq<u8>, j: int) -> Option<int> {
    if 0 <= j && j < s.len() && is_exp(s[j]) {
        let k = if j + 1 < s.len() && (s[j + 1] == PLUS || s[j + 1] == MINUS) {
            j + 2
        } else {
            j + 1
        };
        if k < s.len() && is_digit(s[k]) {
            Some(sp_digits(s, k))
        } else {
            None
        }
    } else {
        Some(j)
    }
}

/// Index just after a complete JSON number starting at `i`, or `None` if the
/// bytes at `i` do not begin a valid number.
pub open spec fn sp_number_end(s: Seq<u8>, i: int) -> Option<int> {
    let j0 = if 0 <= i && i < s.len() && s[i] == MINUS {
        i + 1
    } else {
        i
    };
    if !(0 <= j0 && j0 < s.len() && is_digit(s[j0])) {
        None
    } else {
        let j1 = if s[j0] == DIGIT_ZERO {
            j0 + 1
        } else {
            sp_digits(s, j0)
        };
        match sp_frac_end(s, j1) {
            None => None,
            Some(j2) => sp_exp_end(s, j2),
        }
    }
}

pub proof fn lemma_number_bounds(s: Seq<u8>, i: int)
    requires
        0 <= i <= s.len(),
        sp_number_end(s, i) is Some,
    ensures
        i < sp_number_end(s, i)->Some_0 <= s.len(),
{
    let j0 = if i < s.len() && s[i] == MINUS { i + 1 } else { i };
    lemma_digits_bounds(s, j0);
    if j0 < s.len() && is_digit(s[j0]) {
        lemma_digits_bounds(s, j0 + 1);
    }
    let j1 = if s[j0] == DIGIT_ZERO { j0 + 1 } else { sp_digits(s, j0) };
    let j2 = sp_frac_end(s, j1)->Some_0;
    if j1 < s.len() && s[j1] == DOT {
        lemma_digits_bounds(s, j1 + 1);
    }
    if j2 < s.len() && is_exp(s[j2]) {
        let k = if j2 + 1 < s.len() && (s[j2 + 1] == PLUS || s[j2 + 1] == MINUS) {
            j2 + 2
        } else {
            j2 + 1
        };
        if k < s.len() && is_digit(s[k]) {
            lemma_digits_bounds(s, k);
        }
    }
}

// ---------------------------------------------------------------------------
// Executable scanners, each proved equal to its spec function.
// ---------------------------------------------------------------------------

pub(crate) fn is_ws_x(b: u8) -> (r: bool)
    ensures
        r == is_ws(b),
{
    b == 32 || b == 9 || b == 10 || b == 13
}

pub(crate) fn is_digit_x(b: u8) -> (r: bool)
    ensures
        r == is_digit(b),
{
    48 <= b && b <= 57
}

pub(crate) fn is_hex_digit_x(b: u8) -> (r: bool)
    ensures
        r == is_hex_digit(b),
{
    (48 <= b && b <= 57) || (65 <= b && b <= 70) || (97 <= b && b <= 102)
}

pub(crate) fn is_simple_escape_x(b: u8) -> (r: bool)
    ensures
        r == is_simple_escape(b),
{
    b == 34 || b == 92 || b == 47 || b == 98 || b == 102 || b == 110 || b == 114 || b == 116
}

/// Advance over JSON whitespace.
pub(crate) fn skip_ws(s: &[u8], i: usize) -> (j: usize)
    requires
        i <= s@.len(),
    ensures
        j as int == sp_ws(s@, i as int),
        i <= j <= s@.len(),
{
    let mut cur = i;
    while cur < s.len() && (s[cur] == 32 || s[cur] == 9 || s[cur] == 10 || s[cur] == 13)
        invariant
            i <= cur <= s@.len(),
            sp_ws(s@, i as int) == sp_ws(s@, cur as int),
        decreases s@.len() - cur,
    {
        cur = cur + 1;
    }
    cur
}

/// Advance over decimal digits.
pub(crate) fn scan_digits(s: &[u8], i: usize) -> (j: usize)
    requires
        i <= s@.len(),
    ensures
        j as int == sp_digits(s@, i as int),
        i <= j <= s@.len(),
{
    let mut cur = i;
    while cur < s.len() && 48 <= s[cur] && s[cur] <= 57
        invariant
            i <= cur <= s@.len(),
            sp_digits(s@, i as int) == sp_digits(s@, cur as int),
        decreases s@.len() - cur,
    {
        cur = cur + 1;
    }
    cur
}

/// Scan a JSON string body, `i` standing just after the opening quote.
pub(crate) fn scan_string_rest(s: &[u8], i: usize) -> (r: Option<usize>)
    requires
        i <= s@.len(),
    ensures
        match r {
            Some(k) => sp_string_rest(s@, i as int) == Some(k as int) && i < k <= s@.len(),
            None => sp_string_rest(s@, i as int) is None,
        },
{
    let mut cur = i;
    loop
        invariant
            i <= cur <= s@.len(),
            sp_string_rest(s@, i as int) == sp_string_rest(s@, cur as int),
        decreases s@.len() - cur,
    {
        if cur >= s.len() {
            return None;
        }
        let b = s[cur];
        if b == QUOTE {
            proof {
                lemma_string_rest_bounds(s@, i as int);
            }
            return Some(cur + 1);
        } else if b == BACKSLASH {
            let rem = s.len() - cur;
            if rem > 1 && is_simple_escape_x(s[cur + 1]) {
                cur = cur + 2;
            } else if rem > 5 && s[cur + 1] == LETTER_U && is_hex_digit_x(s[cur + 2])
                && is_hex_digit_x(s[cur + 3]) && is_hex_digit_x(s[cur + 4])
                && is_hex_digit_x(s[cur + 5]) {
                cur = cur + 6;
            } else {
                return None;
            }
        } else if b >= 32 {
            cur = cur + 1;
        } else {
            return None;
        }
    }
}

/// Scan a JSON number starting at `i`.
pub(crate) fn scan_number_end(s: &[u8], i: usize) -> (r: Option<usize>)
    requires
        i <= s@.len(),
    ensures
        match r {
            Some(k) => sp_number_end(s@, i as int) == Some(k as int) && i < k <= s@.len(),
            None => sp_number_end(s@, i as int) is None,
        },
{
    let j0 = if i < s.len() && s[i] == MINUS {
        i + 1
    } else {
        i
    };
    if !(j0 < s.len() && is_digit_x(s[j0])) {
        return None;
    }
    let j1 = if s[j0] == DIGIT_ZERO {
        j0 + 1
    } else {
        scan_digits(s, j0)
    };
    let j2 = if j1 < s.len() && s[j1] == DOT {
        if j1 + 1 < s.len() && is_digit_x(s[j1 + 1]) {
            scan_digits(s, j1 + 1)
        } else {
            return None;
        }
    } else {
        j1
    };
    let j3 = if j2 < s.len() && (s[j2] == 101 || s[j2] == 69) {
        let k = if j2 + 1 < s.len() && (s[j2 + 1] == PLUS || s[j2 + 1] == MINUS) {
            j2 + 2
        } else {
            j2 + 1
        };
        if k < s.len() && is_digit_x(s[k]) {
            scan_digits(s, k)
        } else {
            return None;
        }
    } else {
        j2
    };
    proof {
        lemma_number_bounds(s@, i as int);
    }
    Some(j3)
}

} // verus!
