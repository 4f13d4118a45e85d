//! Quoted string literals of the macro language.
//!
//! A literal is delimited by `"` and may contain the escapes `\t`, `\n`,
//! `\"`, `\\`, a Unicode scalar escape `\u{HEX}`, and a line continuation:
//! a backslash followed by a run of whitespace is elided entirely.
//! Decoding fails on a missing closing quote or an unrecognized escape.

use vstd::prelude::*;
use crate::chars::{is_space_char, skip_spaces};
use crate::codec::{is_hex_char, hex_val};

verus! {

/// Folds leading hexadecimal digits onto `acc`.
pub open spec fn fold_hex(s: Seq<char>, acc: int) -> (int, Seq<char>)
    decreases s.len(),
{
    if s.len() > 0 && is_hex_char(s[0]) {
        fold_hex(s.skip(1), acc * 16 + hex_val(s[0]))
    } else {
        (acc, s)
    }
}

/// Reads a literal's body up to its closing quote: the decoded content
/// and the text after the quote. `None` is a malformed literal.
pub open spec fn p_body(s: Seq<char>) -> Option<(Seq<char>, Seq<char>)>
    decreases s.len(),
{
    if s.len() == 0 {
        None
    } else if s[0] == '"' {
        Some((Seq::empty(), s.skip(1)))
    } else if s[0] == '\\' {
        if s.len() < 2 {
            None
        } else {
            let e = s[1];
            if e == 't' || e == 'n' || e == '"' || e == '\\' {
                let d: char = if e == 't' {
                    '\t'
                } else if e == 'n' {
                    '\n'
                } else {
                    e
                };
                match p_body(s.skip(2)) {
                    Some((t, r)) => Some((seq![d] + t, r)),
                    None => None,
                }
            } else if e == 'u' {
                if s.len() < 3 || s[2] != '{' {
                    None
                } else {
                    let h = fold_hex(s.skip(3), 0);
                    let u = h.0;
                    let r1 = h.1;
                    if r1.len() == s.len() - 3 {
                        None
                    } else if r1.len() == 0 || r1[0] != '}' {
                        None
                    } else if u > 0x10FFFF || (0xD800 <= u && u < 0xE000) {
                        None
                    } else if r1.len() < s.len() {
                        match p_body(r1.skip(1)) {
                            Some((t, r)) => Some((seq![u as char] + t, r)),
                            None => None,
                        }
                    } else {
                        None
                    }
                }
            } else if is_space_char(e) {
                let r1 = skip_spaces(s.skip(1));
                if r1.len() < s.len() {
                    p_body(r1)
                } else {
                    None
                }
            } else {
                None
            }
        }
    } else {
        match p_body(s.skip(1)) {
            Some((t, r)) => Some((seq![s[0]] + t, r)),
            None => None,
        }
    }
}

/// Reads a full string literal from the front of the text.
pub open spec fn p_mstr(s: Seq<char>) -> Option<(Seq<char>, Seq<char>)> {
    if s.len() > 0 && s[0] == '"' {
        p_body(s.skip(1))
    } else {
        None
    }
}

/// Why a string literal was rejected.
#[derive(Debug, Clone, PartialEq)]
pub enum StringFault {
    /// The text does not begin with a quote.
    MissingQuote,
    /// The closing quote never comes.
    Unclosed,
    /// A backslash is followed by something that is not an escape.
    UnknownEscape,
    /// A `\u{...}` escape is malformed or names no Unicode scalar value.
    BadUnicodeEscape,
}

/// A rejected string literal: what went wrong and where (character
/// offset into the text handed in).
#[derive(Debug, Clone, PartialEq)]
pub struct StringError {
    pub offset: usize,
    pub fault: StringFault,
}

/// Reads the body of a string literal starting after the opening quote.
/// Mirrors [`p_body`]; on failure reports where and why.
#[verifier::rlimit(60)]
pub(crate) fn e_body(v: &[char], pos: usize) -> (r: Result<(Vec<char>, usize), StringError>)
    requires
        pos <= v@.len(),
    ensures
        match r {
            Ok((t, j)) => pos <= j <= v@.len()
                && p_body(v@.skip(pos as int)) == Some((t@, v@.skip(j as int))),
            Err(e) => p_body(v@.skip(pos as int)) is None && e.offset <= v@.len(),
        },
{
    let mut content: Vec<char> = Vec::new();
    let mut i: usize = pos;
    proof {
        assert(crate::codec::jprepend(content@, p_body(v@.skip(pos as int)))
            == p_body(v@.skip(pos as int))) by {
            match p_body(v@.skip(pos as int)) {
                Some((u, r)) => {
                    assert(content@ + u =~= u);
                },
                None => {},
            }
        };
    }
    while i < v.len()
        invariant
            pos <= i <= v@.len(),
            p_body(v@.skip(pos as int))
                == crate::codec::jprepend(content@, p_body(v@.skip(i as int))),
        decreases v@.len() - i,
    {
        let ghost svf = v@.skip(i as int);
        let c = v[i];
        proof {
            assert(svf[0] == c);
        }
        if c == '"' {
            proof {
                assert(svf.skip(1) =~= v@.skip(i + 1));
                assert(content@ + Seq::<char>::empty() =~= content@);
            }
            return Ok((content, i + 1));
        } else if c == '\\' {
            if i + 1 == v.len() {
                proof {
                    assert(svf.len() < 2);
                }
                return Err(StringError { offset: i, fault: StringFault::Unclosed });
            }
            let e = v[i + 1];
            proof {
                assert(svf[1] == e);
            }
            if e == 't' || e == 'n' || e == '"' || e == '\\' {
                let d: char = if e == 't' {
                    '\t'
                } else if e == 'n' {
                    '\n'
                } else {
                    e
                };
                proof {
                    assert(svf.skip(2) =~= v@.skip(i + 2));
                    assert(p_body(svf) == crate::codec::jprepend(seq![d], p_body(v@.skip(i + 2))));
                }
                let ghost old_content = content@;
                content.push(d);
                i += 2;
                proof {
                    assert(p_body(v@.skip(pos as int))
                        == crate::codec::jprepend(content@, p_body(v@.skip(i as int)))) by {
                        match p_body(v@.skip(i as int)) {
                            Some((u2, r2)) => {
                                assert(old_content + (seq![d] + u2) =~= content@ + u2);
                            },
                            None => {},
                        }
                    };
                }
            } else if e == 'u' {
                if i + 2 == v.len() || v[i + 2] != '{' {
                    proof {
                        if i + 2 < v@.len() {
                            assert(svf[2] == v@[i + 2]);
                        } else {
                            assert(svf.len() < 3);
                        }
                    }
                    return Err(StringError { offset: i, fault: StringFault::BadUnicodeEscape });
                }
                proof {
                    assert(svf[2] == '{');
                    assert(svf.skip(3) =~= v@.skip(i + 3));
                }
                // Fold the hexadecimal digits after the brace.
                let mut j: usize = i + 3;
                let mut val: u64 = 0;
                let mut overflow = false;
                while j < v.len() && is_hex_exec_local(v[j])
                    invariant
                        i + 3 <= j <= v@.len(),
                        !overflow ==> val <= 0x10FFFF
                            && fold_hex(v@.skip(i + 3), 0) == fold_hex(v@.skip(j as int), val as int),
                        overflow ==> fold_hex(v@.skip(i + 3), 0).0 > 0x10FFFF,
                    decreases v@.len() - j,
                {
                    let h = v[j];
                    proof {
                        assert(v@.skip(j as int)[0] == h);
                        assert(v@.skip(j as int).skip(1) =~= v@.skip(j + 1));
                    }
                    if !overflow {
                        let hv = hex_val_local(h);
                        if val > 0x10FFFF / 16 || val * 16 + (hv as u64) > 0x10FFFF {
                            proof {
                                lemma_fold_hex_grows(v@.skip(j + 1), val as int * 16 + hv as int);
                            }
                            overflow = true;
                        } else {
                            val = val * 16 + (hv as u64);
                        }
                    }
                    j += 1;
                }
                proof {
                    if j < v@.len() {
                        assert(v@.skip(j as int)[0] == v@[j as int]);
                    }
                }
                if j == i + 3 {
                    // no digits at all
                    proof {
                        assert(fold_hex(v@.skip(i + 3), 0).1 == v@.skip(i + 3));
                        assert(v@.skip(i + 3).len() == svf.len() - 3);
                    }
                    return Err(StringError { offset: i, fault: StringFault::BadUnicodeEscape });
                }
                if overflow {
                    proof {
                        assert(fold_hex(v@.skip(i + 3), 0).0 > 0x10FFFF);
                    }
                    return Err(StringError { offset: i, fault: StringFault::BadUnicodeEscape });
                }
                proof {
                    assert(fold_hex(v@.skip(i + 3), 0) == (val as int, v@.skip(j as int)));
                    assert(v@.skip(j as int).len() < svf.len() - 3);
                }
                if j == v.len() || v[j] != '}' {
                    proof {
                        if j < v@.len() {
                            assert(v@.skip(j as int)[0] == v@[j as int]);
                        }
                    }
                    return Err(StringError { offset: i, fault: StringFault::BadUnicodeEscape });
                }
                proof {
                    assert(v@.skip(j as int)[0] == '}');
                }
                if 0xD800 <= val && val < 0xE000 {
                    return Err(StringError { offset: i, fault: StringFault::BadUnicodeEscape });
                }
                let d = match crate::chars::char_from_u32(val as u32) {
                    Some(d) => d,
                    None => {
                        proof {
                            assert(false);
                        }
                        ' '
                    },
                };
                proof {
                    vstd::utf8::char_u32_cast(d, val as u32);
                    assert(v@.skip(j as int).skip(1) =~= v@.skip(j + 1));
                    assert(p_body(svf) == crate::codec::jprepend(seq![d], p_body(v@.skip(j + 1))));
                }
                let ghost old_content = content@;
                content.push(d);
                i = j + 1;
                proof {
                    assert(p_body(v@.skip(pos as int))
                        == crate::codec::jprepend(content@, p_body(v@.skip(i as int)))) by {
                        match p_body(v@.skip(i as int)) {
                            Some((u2, r2)) => {
                                assert(old_content + (seq![d] + u2) =~= content@ + u2);
                            },
                            None => {},
                        }
                    };
                }
            } else if crate::chars::space_char(e) {
                proof {
                    assert(svf.skip(1) =~= v@.skip(i + 1));
                }
                let k = crate::chars::skip_spaces_exec(v, i + 1);
                proof {
                    assert(v@.skip(i + 1).len() > v@.skip(k as int).len()) by {
                        assert(is_space_char(v@[i + 1]));
                    };
                    assert(p_body(svf) == p_body(v@.skip(k as int)));
                }
                i = k;
            } else {
                return Err(StringError { offset: i, fault: StringFault::UnknownEscape });
            }
        } else {
            proof {
                assert(svf.skip(1) =~= v@.skip(i + 1));
                assert(p_body(svf) == crate::codec::jprepend(seq![c], p_body(v@.skip(i + 1))));
            }
            let ghost old_content = content@;
            content.push(c);
            i += 1;
            proof {
                assert(p_body(v@.skip(pos as int))
                    == crate::codec::jprepend(content@, p_body(v@.skip(i as int)))) by {
                    match p_body(v@.skip(i as int)) {
                        Some((u2, r2)) => {
                            assert(old_content + (seq![c] + u2) =~= content@ + u2);
                        },
                        None => {},
                    }
                };
            }
        }
    }
    proof {
        assert(v@.skip(i as int).len() == 0);
    }
    Err(StringError { offset: i, fault: StringFault::Unclosed })
}

fn is_hex_exec_local(c: char) -> (r: bool)
    ensures
        r == is_hex_char(c),
{
    crate::chars::ascii_digit(c) || ('a' <= c && c <= 'f') || ('A' <= c && c <= 'F')
}

fn hex_val_local(c: char) -> (r: u32)
    requires
        is_hex_char(c),
    ensures
        r == hex_val(c),
        r < 16,
{
    if crate::chars::ascii_digit(c) {
        (c as u32) - 48
    } else if 'a' <= c && c <= 'f' {
        (c as u32) - 87
    } else {
        (c as u32) - 55
    }
}

/// The folded hexadecimal value only grows as more digits are read.
proof fn lemma_fold_hex_grows(s: Seq<char>, acc: int)
    requires
        acc >= 0,
    ensures
        fold_hex(s, acc).0 >= acc,
    decreases s.len(),
{
    if s.len() > 0 && is_hex_char(s[0]) {
        assert(acc * 16 >= acc) by (nonlinear_arith)
            requires acc >= 0;
        lemma_fold_hex_grows(s.skip(1), acc * 16 + hex_val(s[0]));
    }
}

/// Reads one string literal standing at the very front of the input;
/// returns the text after the literal and the decoded content.
pub fn parse_string(input: &str) -> (r: Result<(String, String), StringError>)
    ensures
        match r {
            Ok((rest, value)) => p_mstr(input@) == Some((value@, rest@)),
            Err(_) => p_mstr(input@) is None,
        },
{
    let v = crate::chars::str_to_chars(input);
    if v.len() == 0 || v[0] != '"' {
        proof {
            if v@.len() > 0 {
                assert(input@[0] == v@[0]);
            }
        }
        return Err(StringError { offset: 0, fault: StringFault::MissingQuote });
    }
    proof {
        assert(input@[0] == '"');
        assert(input@.skip(1) =~= v@.skip(1));
    }
    match e_body(v.as_slice(), 1) {
        Ok((content, end)) => {
            let value = crate::chars::chars_to_string(&content);
            let mut restv: Vec<char> = Vec::new();
            let mut k: usize = end;
            while k < v.len()
                invariant
                    end <= k <= v@.len(),
                    restv@ == v@.skip(end as int).take(k - end),
                decreases v@.len() - k,
            {
                restv.push(v[k]);
                k += 1;
                proof {
                    assert(restv@ =~= v@.skip(end as int).take(k - end));
                }
            }
            proof {
                assert(v@.skip(end as int).take(v@.len() - end) =~= v@.skip(end as int));
            }
            let rest = crate::chars::chars_to_string(&restv);
            Ok((rest, value))
        },
        Err(e) => Err(e),
    }
}

} // verus!
