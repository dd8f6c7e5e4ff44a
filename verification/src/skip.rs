//! Skipping one complete JSON value. Fields of the envelope the codec does
//! not care about (`node_id`, `node_ids`, anything an extension adds) still
//! have to be valid JSON; this module walks exactly one value and reports
//! where it ends, validating strings, numbers, literals, and bracket
//! structure on the way.

use vstd::prelude::*;
use crate::grammar::{
    is_digit, sp_ws, sp_string_rest, sp_number_end, lemma_ws_bounds,
    lemma_string_rest_bounds, lemma_number_bounds, skip_ws, scan_string_rest, scan_number_end,
    is_digit_x, QUOTE, LBRACE, RBRACE, LBRACKET, RBRACKET, COLON, COMMA, MINUS,
};

verus! {

/// Where the walk stands: at a value, at a value or a closing bracket, after
/// a value, at an object key, at a key or a closing brace, or at a colon.
#[derive(Clone, Copy)]
pub enum SkipMode {
    Val,
    ValOrClose,
    AfterVal,
    Key,
    KeyOrClose,
    Colon,
}

pub open spec fn lit_true() -> Seq<u8> {
    seq![116u8, 114u8, 117u8, 101u8]
}

pub open spec fn lit_false() -> Seq<u8> {
    seq![102u8, 97u8, 108u8, 115u8, 101u8]
}

pub open spec fn lit_null() -> Seq<u8> {
    seq![110u8, 117u8, 108u8, 108u8]
}

/// One step of the walk: `st` holds the kinds of the open containers
/// (`true` for an object), `m` says what the next token must be. Yields the
/// index just after the value that began the walk, or `None` if the bytes are
/// not one valid JSON value.
pub open spec fn sp_skip(s: Seq<u8>, i: int, st: Seq<bool>, m: SkipMode) -> Option<int>
    decreases s.len() - i,
{
    if !(0 <= i && i <= s.len()) {
        None
    } else {
        proof {
            lemma_ws_bounds(s, i);
        }
        let j = sp_ws(s, i);
        if j >= s.len() {
            None
        } else {
            let b = s[j];
            if m is Val || m is ValOrClose {
                if b == QUOTE {
                    match sp_string_rest(s, j + 1) {
                        None => None,
                        Some(k) => {
                            proof {
                                lemma_string_rest_bounds(s, j + 1);
                            }
                            if st.len() == 0 {
                                Some(k)
                            } else {
                                sp_skip(s, k, st, SkipMode::AfterVal)
                            }
                        },
                    }
                } else if b == LBRACE {
                    sp_skip(s, j + 1, st.push(true), SkipMode::KeyOrClose)
                } else if b == LBRACKET {
                    sp_skip(s, j + 1, st.push(false), SkipMode::ValOrClose)
                } else if b == RBRACKET && m is ValOrClose && st.len() > 0 && st.last() == false {
                    if st.len() == 1 {
                        Some(j + 1)
                    } else {
                        sp_skip(s, j + 1, st.drop_last(), SkipMode::AfterVal)
                    }
                } else if b == 116 {
                    if j + 4 <= s.len() && s.subrange(j, j + 4) == lit_true() {
                        if st.len() == 0 {
                            Some(j + 4)
                        } else {
                            sp_skip(s, j + 4, st, SkipMode::AfterVal)
                        }
                    } else {
                        None
                    }
                } else if b == 102 {
                    if j + 5 <= s.len() && s.subrange(j, j + 5) == lit_false() {
                        if st.len() == 0 {
                            Some(j + 5)
                        } else {
                            sp_skip(s, j + 5, st, SkipMode::AfterVal)
                        }
                    } else {
                        None
                    }
                } else if b == 110 {
                    if j + 4 <= s.len() && s.subrange(j, j + 4) == lit_null() {
                        if st.len() == 0 {
                            Some(j + 4)
                        } else {
                            sp_skip(s, j + 4, st, SkipMode::AfterVal)
                        }
                    } else {
                        None
                    }
                } else if b == MINUS || is_digit(b) {
                    match sp_number_end(s, j) {
                        None => None,
                        Some(k) => {
                            proof {
                                lemma_number_bounds(s, j);
                            }
                            if st.len() == 0 {
                                Some(k)
                            } else {
                                sp_skip(s, k, st, SkipMode::AfterVal)
                            }
                        },
                    }
                } else {
                    None
                }
            } else if m is AfterVal {
                if st.len() == 0 {
                    None
                } else if b == COMMA {
                    if st.last() {
                        sp_skip(s, j + 1, st, SkipMode::Key)
                    } else {
                        sp_skip(s, j + 1, st, SkipMode::Val)
                    }
                } else if b == RBRACE && st.last() == true {
                    if st.len() == 1 {
                        Some(j + 1)
                    } else {
                        sp_skip(s, j + 1, st.drop_last(), SkipMode::AfterVal)
                    }
                } else if b == RBRACKET && st.last() == false {
                    if st.len() == 1 {
                        Some(j + 1)
                    } else {
                        sp_skip(s, j + 1, st.drop_last(), SkipMode::AfterVal)
                    }
                } else {
                    None
                }
            } else if m is Key || m is KeyOrClose {
                if b == QUOTE {
                    match sp_string_rest(s, j + 1) {
                        None => None,
                        Some(k) => {
                            proof {
                                lemma_string_rest_bounds(s, j + 1);
                            }
                            sp_skip(s, k, st, SkipMode::Colon)
                        },
                    }
                } else if b == RBRACE && m is KeyOrClose && st.len() > 0 && st.last() == true {
                    if st.len() == 1 {
                        Some(j + 1)
                    } else {
                        sp_skip(s, j + 1, st.drop_last(), SkipMode::AfterVal)
                    }
                } else {
                    None
                }
            } else {
                if b == COLON {
                    sp_skip(s, j + 1, st, SkipMode::Val)
                } else {
                    None
                }
            }
        }
    }
}

/// Index just after the JSON value that starts at or after `i`, or `None`.
pub open spec fn sp_skip_value(s: Seq<u8>, i: int) -> Option<int> {
    sp_skip(s, i, Seq::empty(), SkipMode::Val)
}

pub proof fn lemma_skip_bounds(s: Seq<u8>, i: int, st: Seq<bool>, m: SkipMode)
    requires
        0 <= i <= s.len(),
        sp_skip(s, i, st, m) is Some,
    ensures
        i < sp_skip(s, i, st, m)->Some_0 <= s.len(),
    decreases s.len() - i,
{
    lemma_ws_bounds(s, i);
    let j = sp_ws(s, i);
    let b = s[j];
    if m is Val || m is ValOrClose {
        if b == QUOTE {
            let k = sp_string_rest(s, j + 1)->Some_0;
            lemma_string_rest_bounds(s, j + 1);
            if st.len() != 0 {
                lemma_skip_bounds(s, k, st, SkipMode::AfterVal);
            }
        } else if b == LBRACE {
            lemma_skip_bounds(s, j + 1, st.push(true), SkipMode::KeyOrClose);
        } else if b == LBRACKET {
            lemma_skip_bounds(s, j + 1, st.push(false), SkipMode::ValOrClose);
        } else if b == RBRACKET && m is ValOrClose && st.len() > 0 && st.last() == false {
            if st.len() != 1 {
                lemma_skip_bounds(s, j + 1, st.drop_last(), SkipMode::AfterVal);
            }
        } else if b == 116 {
            if st.len() != 0 {
                lemma_skip_bounds(s, j + 4, st, SkipMode::AfterVal);
            }
        } else if b == 102 {
            if st.len() != 0 {
                lemma_skip_bounds(s, j + 5, st, SkipMode::AfterVal);
            }
        } else if b == 110 {
            if st.len() != 0 {
                lemma_skip_bounds(s, j + 4, st, SkipMode::AfterVal);
            }
        } else {
            let k = sp_number_end(s, j)->Some_0;
            lemma_number_bounds(s, j);
            if st.len() != 0 {
                lemma_skip_bounds(s, k, st, SkipMode::AfterVal);
            }
        }
    } else if m is AfterVal {
        if b == COMMA {
            if st.last() {
                lemma_skip_bounds(s, j + 1, st, SkipMode::Key);
            } else {
                lemma_skip_bounds(s, j + 1, st, SkipMode::Val);
            }
        } else {
            if st.len() != 1 {
                lemma_skip_bounds(s, j + 1, st.drop_last(), SkipMode::AfterVal);
            }
        }
    } else if m is Key || m is KeyOrClose {
        if b == QUOTE {
            let k = sp_string_rest(s, j + 1)->Some_0;
            lemma_string_rest_bounds(s, j + 1);
            lemma_skip_bounds(s, k, st, SkipMode::Colon);
        } else {
            if st.len() != 1 {
                lemma_skip_bounds(s, j + 1, st.drop_last(), SkipMode::AfterVal);
            }
        }
    } else {
        lemma_skip_bounds(s, j + 1, st, SkipMode::Val);
    }
}

/// Walk one JSON value starting at or after `i`; return the index just after
/// it, or `None` if the bytes are not one valid value.
pub(crate) fn skip_value(s: &[u8], i: usize) -> (r: Option<usize>)
    requires
        i <= s@.len(),
    ensures
        match r {
            Some(k) => sp_skip_value(s@, i as int) == Some(k as int) && i < k <= s@.len(),
            None => sp_skip_value(s@, i as int) is None,
        },
{
    let mut cur = i;
    let mut stack: Vec<bool> = Vec::new();
    let mut mode = SkipMode::Val;
    proof {
        assert(stack@ =~= Seq::<bool>::empty());
    }
    loop
        invariant
            i <= cur <= s@.len(),
            sp_skip_value(s@, i as int) == sp_skip(s@, cur as int, stack@, mode),
            i < cur || (stack@.len() == 0 && mode is Val),
        decreases s@.len() - cur,
    {
        let j = skip_ws(s, cur);
        if j >= s.len() {
            return None;
        }
        let b = s[j];
        let val_mode = match mode {
            SkipMode::Val => true,
            SkipMode::ValOrClose => true,
            _ => false,
        };
        let or_close = match mode {
            SkipMode::ValOrClose => true,
            _ => false,
        };
        let key_mode = match mode {
            SkipMode::Key => true,
            SkipMode::KeyOrClose => true,
            _ => false,
        };
        let key_or_close = match mode {
            SkipMode::KeyOrClose => true,
            _ => false,
        };
        if val_mode {
            if b == QUOTE {
                match scan_string_rest(s, j + 1) {
                    None => {
                        return None;
                    },
                    Some(k) => {
                        if stack.len() == 0 {
                            return Some(k);
                        }
                        cur = k;
                        mode = SkipMode::AfterVal;
                    },
                }
            } else if b == LBRACE {
                stack.push(true);
                cur = j + 1;
                mode = SkipMode::KeyOrClose;
            } else if b == LBRACKET {
                stack.push(false);
                cur = j + 1;
                mode = SkipMode::ValOrClose;
            } else if b == RBRACKET && or_close && stack.len() > 0 && !stack[stack.len() - 1] {
                proof {
                    assert(stack@.last() == false);
                }
                if stack.len() == 1 {
                    return Some(j + 1);
                }
                let _ = stack.pop();
                cur = j + 1;
                mode = SkipMode::AfterVal;
            } else if b == 116 {
                if s.len() - j >= 4 && s[j + 1] == 114 && s[j + 2] == 117 && s[j + 3] == 101 {
                    proof {
                        assert(s@.subrange(j as int, j as int + 4) =~= lit_true());
                    }
                    if stack.len() == 0 {
                        return Some(j + 4);
                    }
                    cur = j + 4;
                    mode = SkipMode::AfterVal;
                } else {
                    proof {
                        if j + 4 <= s@.len() {
                            assert(s@.subrange(j as int, j as int + 4)[1] == s@[j as int + 1]);
                            assert(s@.subrange(j as int, j as int + 4)[2] == s@[j as int + 2]);
                            assert(s@.subrange(j as int, j as int + 4)[3] == s@[j as int + 3]);
                        }
                    }
                    return None;
                }
            } else if b == 102 {
                if s.len() - j >= 5 && s[j + 1] == 97 && s[j + 2] == 108 && s[j + 3] == 115
                    && s[j + 4] == 101 {
                    proof {
                        assert(s@.subrange(j as int, j as int + 5) =~= lit_false());
                    }
                    if stack.len() == 0 {
                        return Some(j + 5);
                    }
                    cur = j + 5;
                    mode = SkipMode::AfterVal;
                } else {
                    proof {
                        if j + 5 <= s@.len() {
                            assert(s@.subrange(j as int, j as int + 5)[1] == s@[j as int + 1]);
                            assert(s@.subrange(j as int, j as int + 5)[2] == s@[j as int + 2]);
                            assert(s@.subrange(j as int, j as int + 5)[3] == s@[j as int + 3]);
                            assert(s@.subrange(j as int, j as int + 5)[4] == s@[j as int + 4]);
                        }
                    }
                    return None;
                }
            } else if b == 110 {
                if s.len() - j >= 4 && s[j + 1] == 117 && s[j + 2] == 108 && s[j + 3] == 108 {
                    proof {
                        assert(s@.subrange(j as int, j as int + 4) =~= lit_null());
                    }
                    if stack.len() == 0 {
                        return Some(j + 4);
                    }
                    cur = j + 4;
                    mode = SkipMode::AfterVal;
                } else {
                    proof {
                        if j + 4 <= s@.len() {
                            assert(s@.subrange(j as int, j as int + 4)[1] == s@[j as int + 1]);
                            assert(s@.subrange(j as int, j as int + 4)[2] == s@[j as int + 2]);
                            assert(s@.subrange(j as int, j as int + 4)[3] == s@[j as int + 3]);
                        }
                    }
                    return None;
                }
            } else if b == MINUS || is_digit_x(b) {
                match scan_number_end(s, j) {
                    None => {
                        return None;
                    },
                    Some(k) => {
                        if stack.len() == 0 {
                            return Some(k);
                        }
                        cur = k;
                        mode = SkipMode::AfterVal;
                    },
                }
            } else {
                return None;
            }
        } else if matches!(mode, SkipMode::AfterVal) {
            if stack.len() == 0 {
                return None;
            }
            let top = stack[stack.len() - 1];
            if b == COMMA {
                cur = j + 1;
                mode = if top {
                    SkipMode::Key
                } else {
                    SkipMode::Val
                };
            } else if b == RBRACE && top {
                if stack.len() == 1 {
                    return Some(j + 1);
                }
                let _ = stack.pop();
                cur = j + 1;
                mode = SkipMode::AfterVal;
            } else if b == RBRACKET && !top {
                if stack.len() == 1 {
                    return Some(j + 1);
                }
                let _ = stack.pop();
                cur = j + 1;
                mode = SkipMode::AfterVal;
            } else {
                return None;
            }
        } else if key_mode {
            if b == QUOTE {
                match scan_string_rest(s, j + 1) {
                    None => {
                        return None;
                    },
                    Some(k) => {
                        cur = k;
                        mode = SkipMode::Colon;
                    },
                }
            } else if b == RBRACE && key_or_close && stack.len() > 0 && stack[stack.len() - 1] {
                if stack.len() == 1 {
                    return Some(j + 1);
                }
                let _ = stack.pop();
                cur = j + 1;
                mode = SkipMode::AfterVal;
            } else {
                return None;
            }
        } else {
            if b == COLON {
                cur = j + 1;
                mode = SkipMode::Val;
            } else {
                return None;
            }
        }
    }
}

} // verus!
