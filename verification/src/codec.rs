//! The wire form of the command protocol.
//!
//! A message is written as a tagged JSON object: the discriminant field
//! first, then the variant's fields in declaration order, strings
//! escaped as JSON does. The encoder produces the compact form that
//! [`enc_msg`] defines; the decoder reads the same token stream back
//! and tolerates insignificant whitespace anywhere between tokens
//! (the field order stays fixed). [`lemma_codec_round_trip`] proves
//! that decoding undoes encoding for every constructible message.

use vstd::prelude::*;
use crate::actions::{Actions, ActionV};
use crate::protocol::{Message, MessageV, opt_i32_view, MouseClick, RepeatingMouseClick, RepeatingKeyboardClick, StopClicking, ConfirmResponse, Error};
use crate::digits::{nat_digits, int_digits, fold_digits, push_u64_digits, push_i64_digits};
use crate::chars::{str_to_chars, chars_to_string, is_ascii_digit, is_space_char};

verus! {

/// One hexadecimal digit, lower case.
pub open spec fn hex_char(d: int) -> char {
    if d < 10 {
        (48 + d) as char
    } else {
        (87 + d) as char
    }
}

/// The escaped form of one character inside a string literal.
pub open spec fn esc1(c: char) -> Seq<char> {
    if c == '"' {
        seq!['\\', '"']
    } else if c == '\\' {
        seq!['\\', '\\']
    } else if c == '\n' {
        seq!['\\', 'n']
    } else if c == '\t' {
        seq!['\\', 't']
    } else if c == '\r' {
        seq!['\\', 'r']
    } else if (c as u32) < 32 {
        seq!['\\', 'u', '0', '0', hex_char(((c as u32) / 16) as int), hex_char(((c as u32) % 16) as int)]
    } else {
        seq![c]
    }
}

/// The escaped body of a string literal.
pub open spec fn jstr_body(s: Seq<char>) -> Seq<char>
    decreases s.len(),
{
    if s.len() == 0 {
        Seq::empty()
    } else {
        esc1(s[0]) + jstr_body(s.skip(1))
    }
}

/// A full string literal: quote, escaped body, quote.
pub open spec fn jstr(s: Seq<char>) -> Seq<char> {
    seq!['"'] + jstr_body(s) + seq!['"']
}

/// An optional coordinate: `null` or a decimal number.
pub open spec fn enc_opt_int(o: Option<int>) -> Seq<char> {
    match o {
        None => "null"@,
        Some(n) => int_digits(n),
    }
}

/// One compiled action as an externally tagged object.
pub open spec fn enc_action(a: ActionV) -> Seq<char> {
    match a {
        ActionV::PressAndRelease(k) => "{\"PressAndRelease\":"@ + jstr(k) + "}"@,
        ActionV::Press(k) => "{\"Press\":"@ + jstr(k) + "}"@,
        ActionV::Release(k) => "{\"Release\":"@ + jstr(k) + "}"@,
        ActionV::Delay(n) => "{\"Delay\":"@ + int_digits(n) + "}"@,
    }
}

/// A comma-separated action list.
pub open spec fn enc_actions(l: Seq<ActionV>) -> Seq<char>
    decreases l.len(),
{
    if l.len() == 0 {
        Seq::empty()
    } else if l.len() == 1 {
        enc_action(l[0])
    } else {
        enc_action(l[0]) + seq![','] + enc_actions(l.skip(1))
    }
}

/// The canonical wire text of a message.
pub open spec fn enc_msg(m: MessageV) -> Seq<char> {
    match m {
        MessageV::MouseClick { button } => "{\"type\":\"MouseClick\",\"button\":"@ + jstr(button)
            + "}"@,
        MessageV::RepeatingMouseClick { button, typ, amount, position, interval } => {
            "{\"type\":\"RepeatingMouseClick\",\"button\":"@ + jstr(button) + ",\"typ\":"@
                + jstr(typ) + ",\"amount\":"@ + nat_digits(amount) + ",\"position\":["@
                + enc_opt_int(position.0) + seq![','] + enc_opt_int(position.1) + "],\"interval\":"@
                + nat_digits(interval) + "}"@
        },
        MessageV::RepeatingKeyboardClick {
            buttons,
            amount,
            interval,
            delay_before_repeat,
            hold_duration,
        } => {
            "{\"type\":\"RepeatingKeyboardClick\",\"buttons\":["@ + enc_actions(buttons)
                + "],\"amount\":"@ + nat_digits(amount) + ",\"interval\":"@ + nat_digits(interval)
                + ",\"delay_before_repeat\":"@ + nat_digits(delay_before_repeat)
                + ",\"hold_duration\":"@ + nat_digits(hold_duration) + "}"@
        },
        MessageV::StopClicking => "{\"type\":\"StopClicking\"}"@,
        MessageV::ConfirmResponse => "{\"type\":\"ConfirmResponse\"}"@,
        MessageV::Error { msg } => "{\"type\":\"Error\",\"msg\":"@ + jstr(msg) + "}"@,
    }
}

fn hex_char_exec(d: u32) -> (r: char)
    requires
        d < 16,
    ensures
        r == hex_char(d as int),
{
    let u: u32 = if d < 10 {
        48 + d
    } else {
        87 + d
    };
    match crate::chars::char_from_u32(u) {
        Some(c) => {
            proof {
                vstd::utf8::char_u32_cast(c, u);
            }
            c
        },
        None => {
            proof {
                assert(false);
            }
            ' '
        },
    }
}

/// Appends the characters of a string slice.
pub fn push_str_chars(out: &mut Vec<char>, s: &str)
    ensures
        final(out)@ == old(out)@ + s@,
{
    let v = str_to_chars(s);
    let mut i: usize = 0;
    while i < v.len()
        invariant
            i <= v@.len(),
            v@ == s@,
            out@ == old(out)@ + s@.take(i as int),
        decreases v@.len() - i,
    {
        out.push(v[i]);
        i += 1;
        proof {
            assert(out@ =~= old(out)@ + s@.take(i as int));
        }
    }
    proof {
        assert(old(out)@ + s@.take(s@.len() as int) =~= old(out)@ + s@);
    }
}

fn push_esc1(out: &mut Vec<char>, c: char)
    ensures
        final(out)@ == old(out)@ + esc1(c),
{
    if c == '"' {
        out.push('\\');
        out.push('"');
    } else if c == '\\' {
        out.push('\\');
        out.push('\\');
    } else if c == '\n' {
        out.push('\\');
        out.push('n');
    } else if c == '\t' {
        out.push('\\');
        out.push('t');
    } else if c == '\r' {
        out.push('\\');
        out.push('r');
    } else if (c as u32) < 32 {
        out.push('\\');
        out.push('u');
        out.push('0');
        out.push('0');
        out.push(hex_char_exec((c as u32) / 16));
        out.push(hex_char_exec((c as u32) % 16));
    } else {
        out.push(c);
    }
    proof {
        assert(out@ =~= old(out)@ + esc1(c));
    }
}

/// Escaping one more character extends the escaped body.
proof fn lemma_jstr_body_push(t: Seq<char>, c: char)
    ensures
        jstr_body(t.push(c)) == jstr_body(t) + esc1(c),
    decreases t.len(),
{
    if t.len() == 0 {
        assert(t.push(c)[0] == c);
        assert(t.push(c).skip(1) =~= Seq::<char>::empty());
        assert(jstr_body(Seq::<char>::empty()) == Seq::<char>::empty());
        assert(jstr_body(t.push(c)) == esc1(c) + Seq::<char>::empty());
        assert(t =~= Seq::<char>::empty());
        assert(jstr_body(t.push(c)) =~= jstr_body(t) + esc1(c));
    } else {
        assert(t.push(c)[0] == t[0]);
        assert(t.push(c).skip(1) =~= t.skip(1).push(c));
        lemma_jstr_body_push(t.skip(1), c);
        assert(jstr_body(t.push(c)) =~= jstr_body(t) + esc1(c));
    }
}

/// Appends a full string literal for `s`.
fn push_jstr(out: &mut Vec<char>, s: &str)
    ensures
        final(out)@ == old(out)@ + jstr(s@),
{
    let v = str_to_chars(s);
    out.push('"');
    let mut i: usize = 0;
    while i < v.len()
        invariant
            i <= v@.len(),
            v@ == s@,
            out@ == old(out)@ + seq!['"'] + jstr_body(s@.take(i as int)),
        decreases v@.len() - i,
    {
        push_esc1(out, v[i]);
        i += 1;
        proof {
            assert(s@.take(i as int) =~= s@.take(i - 1).push(s@[i - 1]));
            lemma_jstr_body_push(s@.take(i - 1), s@[i - 1]);
            assert(out@ =~= old(out)@ + seq!['"'] + jstr_body(s@.take(i as int)));
        }
    }
    out.push('"');
    proof {
        assert(s@.take(s@.len() as int) =~= s@);
        assert(out@ =~= old(out)@ + jstr(s@));
    }
}

fn push_opt_i32(out: &mut Vec<char>, o: &Option<i32>)
    ensures
        final(out)@ == old(out)@ + enc_opt_int(opt_i32_view(*o)),
{
    match o {
        None => {
            push_str_chars(out, "null");
        },
        Some(x) => {
            push_i64_digits(out, *x as i64);
        },
    }
}

fn push_action(out: &mut Vec<char>, a: &Actions)
    ensures
        final(out)@ == old(out)@ + enc_action(a@),
{
    match a {
        Actions::PressAndRelease(k) => {
            push_str_chars(out, "{\"PressAndRelease\":");
            push_jstr(out, k.as_str());
            push_str_chars(out, "}");
            proof {
                assert(out@ =~= old(out)@ + enc_action(a@));
            }
        },
        Actions::Press(k) => {
            push_str_chars(out, "{\"Press\":");
            push_jstr(out, k.as_str());
            push_str_chars(out, "}");
            proof {
                assert(out@ =~= old(out)@ + enc_action(a@));
            }
        },
        Actions::Release(k) => {
            push_str_chars(out, "{\"Release\":");
            push_jstr(out, k.as_str());
            push_str_chars(out, "}");
            proof {
                assert(out@ =~= old(out)@ + enc_action(a@));
            }
        },
        Actions::Delay(n) => {
            push_str_chars(out, "{\"Delay\":");
            push_i64_digits(out, *n);
            push_str_chars(out, "}");
            proof {
                assert(out@ =~= old(out)@ + enc_action(a@));
            }
        },
    }
}

/// Writing one more action extends a non-empty list with a comma.
proof fn lemma_enc_actions_push(l: Seq<ActionV>, a: ActionV)
    requires
        l.len() >= 1,
    ensures
        enc_actions(l.push(a)) == enc_actions(l) + seq![','] + enc_action(a),
    decreases l.len(),
{
    if l.len() == 1 {
        assert(l.push(a)[0] == l[0]);
        assert(l.push(a).skip(1) =~= seq![a]);
        assert(enc_actions(seq![a]) == enc_action(a)) by {
            assert(seq![a].len() == 1);
            assert(seq![a][0] == a);
        };
        assert(enc_actions(l.push(a)) =~= enc_actions(l) + seq![','] + enc_action(a));
    } else {
        assert(l.push(a)[0] == l[0]);
        assert(l.push(a).skip(1) =~= l.skip(1).push(a));
        lemma_enc_actions_push(l.skip(1), a);
        assert(enc_actions(l.push(a)) =~= enc_actions(l) + seq![','] + enc_action(a));
    }
}

fn push_actions(out: &mut Vec<char>, l: &Vec<Actions>)
    ensures
        final(out)@ == old(out)@ + enc_actions(l@.map_values(|a: Actions| a@)),
{
    let ghost bs = l@.map_values(|a: Actions| a@);
    let mut i: usize = 0;
    while i < l.len()
        invariant
            i <= l@.len(),
            bs == l@.map_values(|a: Actions| a@),
            bs.len() == l@.len(),
            out@ == old(out)@ + enc_actions(bs.take(i as int)),
        decreases l@.len() - i,
    {
        if i > 0 {
            push_str_chars(out, ",");
            push_action(out, &l[i]);
            proof {
                assert(bs.take(i + 1) =~= bs.take(i as int).push(bs[i as int]));
                lemma_enc_actions_push(bs.take(i as int), bs[i as int]);
                reveal_strlit(",");
                assert(bs[i as int] == l@[i as int]@);
                assert(out@ =~= old(out)@ + enc_actions(bs.take(i + 1)));
            }
        } else {
            push_action(out, &l[i]);
            proof {
                assert(bs.take(1) =~= seq![bs[0]]);
                assert(seq![bs[0]].len() == 1);
                assert(bs[0] == l@[0]@);
                assert(out@ =~= old(out)@ + enc_actions(bs.take(1)));
            }
        }
        i += 1;
    }
    proof {
        assert(bs.take(bs.len() as int) =~= bs);
    }
}

impl Message {
    /// Writes the message in its canonical wire form. Total: every
    /// constructible message has an encoding.
    pub fn encode(message: &Message) -> (r: String)
        ensures
            r@ == enc_msg(message@),
    {
        let mut out: Vec<char> = Vec::new();
        match message {
            Message::MouseClick(c) => {
                push_str_chars(&mut out, "{\"type\":\"MouseClick\",\"button\":");
                push_jstr(&mut out, c.button.as_str());
                push_str_chars(&mut out, "}");
                proof {
                    assert(out@ =~= enc_msg(message@));
                }
            },
            Message::RepeatingMouseClick(c) => {
                push_str_chars(&mut out, "{\"type\":\"RepeatingMouseClick\",\"button\":");
                push_jstr(&mut out, c.button.as_str());
                push_str_chars(&mut out, ",\"typ\":");
                push_jstr(&mut out, c.typ.as_str());
                push_str_chars(&mut out, ",\"amount\":");
                push_u64_digits(&mut out, c.amount);
                push_str_chars(&mut out, ",\"position\":[");
                push_opt_i32(&mut out, &c.position.0);
                push_str_chars(&mut out, ",");
                push_opt_i32(&mut out, &c.position.1);
                push_str_chars(&mut out, "],\"interval\":");
                push_u64_digits(&mut out, c.interval);
                push_str_chars(&mut out, "}");
                proof {
                    reveal_strlit(",");
                    assert(out@ =~= enc_msg(message@));
                }
            },
            Message::RepeatingKeyboardClick(c) => {
                push_str_chars(&mut out, "{\"type\":\"RepeatingKeyboardClick\",\"buttons\":[");
                push_actions(&mut out, &c.buttons);
                push_str_chars(&mut out, "],\"amount\":");
                push_u64_digits(&mut out, c.amount);
                push_str_chars(&mut out, ",\"interval\":");
                push_u64_digits(&mut out, c.interval);
                push_str_chars(&mut out, ",\"delay_before_repeat\":");
                push_u64_digits(&mut out, c.delay_before_repeat);
                push_str_chars(&mut out, ",\"hold_duration\":");
                push_u64_digits(&mut out, c.hold_duration);
                push_str_chars(&mut out, "}");
                proof {
                    assert(out@ =~= enc_msg(message@));
                }
            },
            Message::StopClicking(_) => {
                push_str_chars(&mut out, "{\"type\":\"StopClicking\"}");
                proof {
                    assert(out@ =~= enc_msg(message@));
                }
            },
            Message::ConfirmResponse(_) => {
                push_str_chars(&mut out, "{\"type\":\"ConfirmResponse\"}");
                proof {
                    assert(out@ =~= enc_msg(message@));
                }
            },
            Message::Error(e) => {
                push_str_chars(&mut out, "{\"type\":\"Error\",\"msg\":");
                push_jstr(&mut out, e.msg.as_str());
                push_str_chars(&mut out, "}");
                proof {
                    assert(out@ =~= enc_msg(message@));
                }
            },
        }
        chars_to_string(&out)
    }
}

} // verus!

// ---------------------------------------------------------------------------
// Reading the wire form back.
// ---------------------------------------------------------------------------

verus! {

/// Matches a fixed literal at the front of the text.
pub open spec fn p_lit(s: Seq<char>, lit: Seq<char>) -> Option<Seq<char>> {
    if lit.len() <= s.len() && s.take(lit.len() as int) == lit {
        Some(s.skip(lit.len() as int))
    } else {
        None
    }
}

pub open spec fn is_hex_char(c: char) -> bool {
    is_ascii_digit(c) || ('a' <= c && c <= 'f') || ('A' <= c && c <= 'F')
}

pub open spec fn hex_val(c: char) -> int {
    if is_ascii_digit(c) {
        (c as u32) - 48
    } else if 'a' <= c && c <= 'f' {
        (c as u32) - 87
    } else {
        (c as u32) - 55
    }
}

/// Reads a string-literal body up to its closing quote: the unescaped
/// content and the text after the quote.
pub open spec fn p_jbody(s: Seq<char>) -> Option<(Seq<char>, Seq<char>)>
    decreases s.len(),
{
    if s.len() == 0 {
        None
    } else if s[0] == '"' {
        Some((Seq::empty(), s.skip(1)))
    } else if s[0] == '\\' {
        if s.len() < 2 {
            None
        } else {
            let e = s[1];
            if e == 'u' {
                if s.len() < 6 {
                    None
                } else if is_hex_char(s[2]) && is_hex_char(s[3]) && is_hex_char(s[4])
                    && is_hex_char(s[5]) {
                    let u = hex_val(s[2]) * 4096 + hex_val(s[3]) * 256 + hex_val(s[4]) * 16
                        + hex_val(s[5]);
                    if u < 0xD800 || u >= 0xE000 {
                        match p_jbody(s.skip(6)) {
                            Some((t, r)) => Some((seq![u as char] + t, r)),
                            None => None,
                        }
                    } else {
                        None
                    }
                } else {
                    None
                }
            } else if e == '"' || e == '\\' || e == '/' || e == 'n' || e == 't' || e == 'r'
                || e == 'b' || e == 'f' {
                let d: char = if e == 'n' {
                    '\n'
                } else if e == 't' {
                    '\t'
                } else if e == 'r' {
                    '\r'
                } else if e == 'b' {
                    8u32 as char
                } else if e == 'f' {
                    12u32 as char
                } else {
                    e
                };
                match p_jbody(s.skip(2)) {
                    Some((t, r)) => Some((seq![d] + t, r)),
                    None => None,
                }
            } else {
                None
            }
        }
    } else if (s[0] as u32) >= 32 {
        match p_jbody(s.skip(1)) {
            Some((t, r)) => Some((seq![s[0]] + t, r)),
            None => None,
        }
    } else {
        None
    }
}

/// Reads a full string literal: opening quote, body, closing quote.
pub open spec fn p_jstr(s: Seq<char>) -> Option<(Seq<char>, Seq<char>)> {
    if s.len() > 0 && s[0] == '"' {
        p_jbody(s.skip(1))
    } else {
        None
    }
}

/// Reads an unsigned decimal number that fits `u64`.
pub open spec fn p_u64(s: Seq<char>) -> Option<(int, Seq<char>)> {
    if s.len() > 0 && is_ascii_digit(s[0]) && fold_digits(s, 0).0 <= u64::MAX {
        Some(fold_digits(s, 0))
    } else {
        None
    }
}

/// Reads a signed decimal number that fits `i64`.
pub open spec fn p_i64(s: Seq<char>) -> Option<(int, Seq<char>)> {
    if s.len() > 0 && s[0] == '-' {
        let t = s.skip(1);
        if t.len() > 0 && is_ascii_digit(t[0]) && fold_digits(t, 0).0 <= 0x8000000000000000 {
            Some((-fold_digits(t, 0).0, fold_digits(t, 0).1))
        } else {
            None
        }
    } else if s.len() > 0 && is_ascii_digit(s[0]) && fold_digits(s, 0).0 <= i64::MAX {
        Some(fold_digits(s, 0))
    } else {
        None
    }
}

/// Reads a signed decimal number that fits `i32`.
pub open spec fn p_i32(s: Seq<char>) -> Option<(int, Seq<char>)> {
    if s.len() > 0 && s[0] == '-' {
        let t = s.skip(1);
        if t.len() > 0 && is_ascii_digit(t[0]) && fold_digits(t, 0).0 <= 0x80000000 {
            Some((-fold_digits(t, 0).0, fold_digits(t, 0).1))
        } else {
            None
        }
    } else if s.len() > 0 && is_ascii_digit(s[0]) && fold_digits(s, 0).0 <= i32::MAX {
        Some(fold_digits(s, 0))
    } else {
        None
    }
}

/// Reads an optional coordinate: `null` or a number in `i32` range.
pub open spec fn p_opt_i32(s: Seq<char>) -> Option<(Option<int>, Seq<char>)> {
    match p_lit(s, "null"@) {
        Some(r) => Some((None, r)),
        None => match p_i32(s) {
            Some((n, r)) => Some((Some(n), r)),
            None => None,
        },
    }
}

/// Matches a fixed token, passing over any leading whitespace.
pub open spec fn p_tok(s: Seq<char>, lit: Seq<char>) -> Option<Seq<char>> {
    p_lit(crate::chars::skip_spaces(s), lit)
}

/// A string literal after any leading whitespace.
pub open spec fn p_wstr(s: Seq<char>) -> Option<(Seq<char>, Seq<char>)> {
    p_jstr(crate::chars::skip_spaces(s))
}

/// An unsigned number after any leading whitespace.
pub open spec fn p_wu64(s: Seq<char>) -> Option<(int, Seq<char>)> {
    p_u64(crate::chars::skip_spaces(s))
}

/// A signed number after any leading whitespace.
pub open spec fn p_wi64(s: Seq<char>) -> Option<(int, Seq<char>)> {
    p_i64(crate::chars::skip_spaces(s))
}

/// An optional coordinate after any leading whitespace.
pub open spec fn p_wopt_i32(s: Seq<char>) -> Option<(Option<int>, Seq<char>)> {
    p_opt_i32(crate::chars::skip_spaces(s))
}

/// Reads one tagged action object, whitespace permitted between its
/// tokens. The tag commits to a variant.
pub open spec fn p_action(s: Seq<char>) -> Option<(ActionV, Seq<char>)> {
    match p_tok(s, "{"@) {
        Some(r0) => {
            if p_tok(r0, "\"PressAndRelease\""@) is Some {
                match p_tok(r0, "\"PressAndRelease\""@) {
                    Some(r1) => match p_tok(r1, ":"@) {
                        Some(r2) => match p_wstr(r2) {
                            Some((k, r3)) => match p_tok(r3, "}"@) {
                                Some(r4) => Some((ActionV::PressAndRelease(k), r4)),
                                None => None,
                            },
                            None => None,
                        },
                        None => None,
                    },
                    None => None,
                }
            } else if p_tok(r0, "\"Press\""@) is Some {
                match p_tok(r0, "\"Press\""@) {
                    Some(r1) => match p_tok(r1, ":"@) {
                        Some(r2) => match p_wstr(r2) {
                            Some((k, r3)) => match p_tok(r3, "}"@) {
                                Some(r4) => Some((ActionV::Press(k), r4)),
                                None => None,
                            },
                            None => None,
                        },
                        None => None,
                    },
                    None => None,
                }
            } else if p_tok(r0, "\"Release\""@) is Some {
                match p_tok(r0, "\"Release\""@) {
                    Some(r1) => match p_tok(r1, ":"@) {
                        Some(r2) => match p_wstr(r2) {
                            Some((k, r3)) => match p_tok(r3, "}"@) {
                                Some(r4) => Some((ActionV::Release(k), r4)),
                                None => None,
                            },
                            None => None,
                        },
                        None => None,
                    },
                    None => None,
                }
            } else if p_tok(r0, "\"Delay\""@) is Some {
                match p_tok(r0, "\"Delay\""@) {
                    Some(r1) => match p_tok(r1, ":"@) {
                        Some(r2) => match p_wi64(r2) {
                            Some((n, r3)) => match p_tok(r3, "}"@) {
                                Some(r4) => Some((ActionV::Delay(n), r4)),
                                None => None,
                            },
                            None => None,
                        },
                        None => None,
                    },
                    None => None,
                }
            } else {
                None
            }
        },
        None => None,
    }
}

/// Reads a non-empty action list up to and including the closing bracket.
pub open spec fn p_actions1(s: Seq<char>) -> Option<(Seq<ActionV>, Seq<char>)>
    decreases s.len(),
{
    match p_action(s) {
        Some((a, r)) => {
            if r.len() < s.len() {
                if p_tok(r, ","@) is Some {
                    match p_tok(r, ","@) {
                        Some(r2) => if r2.len() < s.len() {
                            match p_actions1(r2) {
                                Some((l, rr)) => Some((seq![a] + l, rr)),
                                None => None,
                            }
                        } else {
                            None
                        },
                        None => None,
                    }
                } else {
                    match p_tok(r, "]"@) {
                        Some(r2) => Some((seq![a], r2)),
                        None => None,
                    }
                }
            } else {
                None
            }
        },
        None => None,
    }
}

/// Reads an action list up to and including the closing bracket.
pub open spec fn p_actions(s: Seq<char>) -> Option<(Seq<ActionV>, Seq<char>)> {
    match p_tok(s, "]"@) {
        Some(r) => Some((Seq::empty(), r)),
        None => p_actions1(s),
    }
}

/// The fields after the `MouseClick` tag.
pub open spec fn p_mouse_click_tail(s: Seq<char>) -> Option<(MessageV, Seq<char>)> {
    match p_tok(s, ","@) {
        Some(r0) => match p_tok(r0, "\"button\""@) {
            Some(r1) => match p_tok(r1, ":"@) {
                Some(r2) => match p_wstr(r2) {
                    Some((b, r3)) => match p_tok(r3, "}"@) {
                        Some(r4) => Some((MessageV::MouseClick { button: b }, r4)),
                        None => None,
                    },
                    None => None,
                },
                None => None,
            },
            None => None,
        },
        None => None,
    }
}

/// The fields after the `RepeatingMouseClick` tag.
pub open spec fn p_rep_mouse_tail(s: Seq<char>) -> Option<(MessageV, Seq<char>)> {
    match p_tok(s, ","@) {
        Some(r0) => match p_tok(r0, "\"button\""@) {
            Some(r1) => match p_tok(r1, ":"@) {
                Some(r2) => match p_wstr(r2) {
                    Some((b, r3)) => match p_tok(r3, ","@) {
                        Some(r4) => match p_tok(r4, "\"typ\""@) {
                            Some(r5) => match p_tok(r5, ":"@) {
                                Some(r6) => match p_wstr(r6) {
                                    Some((t, r7)) => match p_tok(r7, ","@) {
                                        Some(r8) => match p_tok(r8, "\"amount\""@) {
                                            Some(r9) => match p_tok(r9, ":"@) {
                                                Some(r10) => match p_wu64(r10) {
                                                    Some((amount, r11)) => match p_tok(r11, ","@) {
                                                        Some(r12) => match p_tok(r12, "\"position\""@) {
                                                            Some(r13) => match p_tok(r13, ":"@) {
                                                                Some(r14) => match p_tok(r14, "["@) {
                                                                    Some(r15) => match p_wopt_i32(r15) {
                                                                        Some((x, r16)) => match p_tok(r16, ","@) {
                                                                            Some(r17) => match p_wopt_i32(r17) {
                                                                                Some((y, r18)) => match p_tok(r18, "]"@) {
                                                                                    Some(r19) => match p_tok(r19, ","@) {
                                                                                        Some(r20) => match p_tok(r20, "\"interval\""@) {
                                                                                            Some(r21) => match p_tok(r21, ":"@) {
                                                                                                Some(r22) => match p_wu64(r22) {
                                                                                                    Some((interval, r23)) => match p_tok(r23, "}"@) {
                                                                                                        Some(r24) => Some((
                                                                                                            MessageV::RepeatingMouseClick {
                                                                                                                button: b,
                                                                                                                typ: t,
                                                                                                                amount: amount,
                                                                                                                position: (x, y),
                                                                                                                interval: interval,
                                                                                                            },
                                                                                                            r24,
                                                                                                        )),
                                                                                                        None => None,
                                                                                                    },
                                                                                                    None => None,
                                                                                                },
                                                                                                None => None,
                                                                                            },
                                                                                            None => None,
                                                                                        },
                                                                                        None => None,
                                                                                    },
                                                                                    None => None,
                                                                                },
                                                                                None => None,
                                                                            },
                                                                            None => None,
                                                                        },
                                                                        None => None,
                                                                    },
                                                                    None => None,
                                                                },
                                                                None => None,
                                                            },
                                                            None => None,
                                                        },
                                                        None => None,
                                                    },
                                                    None => None,
                                                },
                                                None => None,
                                            },
                                            None => None,
                                        },
                                        None => None,
                                    },
                                    None => None,
                                },
                                None => None,
                            },
                            None => None,
                        },
                        None => None,
                    },
                    None => None,
                },
                None => None,
            },
            None => None,
        },
        None => None,
    }
}

/// The fields after the `RepeatingKeyboardClick` tag.
pub open spec fn p_rep_keyboard_tail(s: Seq<char>) -> Option<(MessageV, Seq<char>)> {
    match p_tok(s, ","@) {
        Some(r0) => match p_tok(r0, "\"buttons\""@) {
            Some(r1) => match p_tok(r1, ":"@) {
                Some(r2) => match p_tok(r2, "["@) {
                    Some(r3) => match p_actions(r3) {
                        Some((l, r4)) => match p_tok(r4, ","@) {
                            Some(r5) => match p_tok(r5, "\"amount\""@) {
                                Some(r6) => match p_tok(r6, ":"@) {
                                    Some(r7) => match p_wu64(r7) {
                                        Some((amount, r8)) => match p_tok(r8, ","@) {
                                            Some(r9) => match p_tok(r9, "\"interval\""@) {
                                                Some(r10) => match p_tok(r10, ":"@) {
                                                    Some(r11) => match p_wu64(r11) {
                                                        Some((interval, r12)) => match p_tok(r12, ","@) {
                                                            Some(r13) => match p_tok(r13, "\"delay_before_repeat\""@) {
                                                                Some(r14) => match p_tok(r14, ":"@) {
                                                                    Some(r15) => match p_wu64(r15) {
                                                                        Some((dbr, r16)) => match p_tok(r16, ","@) {
                                                                            Some(r17) => match p_tok(r17, "\"hold_duration\""@) {
                                                                                Some(r18) => match p_tok(r18, ":"@) {
                                                                                    Some(r19) => match p_wu64(r19) {
                                                                                        Some((hd, r20)) => match p_tok(r20, "}"@) {
                                                                                            Some(r21) => Some((
                                                                                                MessageV::RepeatingKeyboardClick {
                                                                                                    buttons: l,
                                                                                                    amount: amount,
                                                                                                    interval: interval,
                                                                                                    delay_before_repeat: dbr,
                                                                                                    hold_duration: hd,
                                                                                                },
                                                                                                r21,
                                                                                            )),
                                                                                            None => None,
                                                                                        },
                                                                                        None => None,
                                                                                    },
                                                                                    None => None,
                                                                                },
                                                                                None => None,
                                                                            },
                                                                            None => None,
                                                                        },
                                                                        None => None,
                                                                    },
                                                                    None => None,
                                                                },
                                                                None => None,
                                                            },
                                                            None => None,
                                                        },
                                                        None => None,
                                                    },
                                                    None => None,
                                                },
                                                None => None,
                                            },
                                            None => None,
                                        },
                                        None => None,
                                    },
                                    None => None,
                                },
                                None => None,
                            },
                            None => None,
                        },
                        None => None,
                    },
                    None => None,
                },
                None => None,
            },
            None => None,
        },
        None => None,
    }
}

/// The fields after the `Error` tag.
pub open spec fn p_error_tail(s: Seq<char>) -> Option<(MessageV, Seq<char>)> {
    match p_tok(s, ","@) {
        Some(r0) => match p_tok(r0, "\"msg\""@) {
            Some(r1) => match p_tok(r1, ":"@) {
                Some(r2) => match p_wstr(r2) {
                    Some((m, r3)) => match p_tok(r3, "}"@) {
                        Some(r4) => Some((MessageV::Error { msg: m }, r4)),
                        None => None,
                    },
                    None => None,
                },
                None => None,
            },
            None => None,
        },
        None => None,
    }
}

/// Reads one message at the front of the text, whitespace permitted
/// between its tokens. The discriminant commits to a variant; a failure
/// after it does not fall through to another.
pub open spec fn p_msg_any(s: Seq<char>) -> Option<(MessageV, Seq<char>)> {
    match p_tok(s, "{"@) {
        Some(r0) => match p_tok(r0, "\"type\""@) {
            Some(r1) => match p_tok(r1, ":"@) {
                Some(r2) => {
                    if p_tok(r2, "\"MouseClick\""@) is Some {
                        match p_tok(r2, "\"MouseClick\""@) {
                            Some(r3) => p_mouse_click_tail(r3),
                            None => None,
                        }
                    } else if p_tok(r2, "\"RepeatingMouseClick\""@) is Some {
                        match p_tok(r2, "\"RepeatingMouseClick\""@) {
                            Some(r3) => p_rep_mouse_tail(r3),
                            None => None,
                        }
                    } else if p_tok(r2, "\"RepeatingKeyboardClick\""@) is Some {
                        match p_tok(r2, "\"RepeatingKeyboardClick\""@) {
                            Some(r3) => p_rep_keyboard_tail(r3),
                            None => None,
                        }
                    } else if p_tok(r2, "\"StopClicking\""@) is Some {
                        match p_tok(r2, "\"StopClicking\""@) {
                            Some(r3) => match p_tok(r3, "}"@) {
                                Some(r4) => Some((MessageV::StopClicking, r4)),
                                None => None,
                            },
                            None => None,
                        }
                    } else if p_tok(r2, "\"ConfirmResponse\""@) is Some {
                        match p_tok(r2, "\"ConfirmResponse\""@) {
                            Some(r3) => match p_tok(r3, "}"@) {
                                Some(r4) => Some((MessageV::ConfirmResponse, r4)),
                                None => None,
                            },
                            None => None,
                        }
                    } else if p_tok(r2, "\"Error\""@) is Some {
                        match p_tok(r2, "\"Error\""@) {
                            Some(r3) => p_error_tail(r3),
                            None => None,
                        }
                    } else {
                        None
                    }
                },
                None => None,
            },
            None => None,
        },
        None => None,
    }
}

/// The decoded message of a whole text: one message and nothing but
/// whitespace after it.
pub open spec fn dec_msg(s: Seq<char>) -> Option<MessageV> {
    match p_msg_any(s) {
        Some((m, r)) => if crate::chars::skip_spaces(r).len() == 0 {
            Some(m)
        } else {
            None
        },
        None => None,
    }
}


} // verus!

// ---------------------------------------------------------------------------
// The executable decoder.
// ---------------------------------------------------------------------------

verus! {

/// Decoding failed: the text is not a canonical protocol message.
#[derive(Debug, Clone, PartialEq)]
pub struct DecodeError {
    pub msg: String,
}

fn e_lit(v: &[char], pos: usize, lit: &str) -> (r: Option<usize>)
    requires
        pos <= v@.len(),
    ensures
        match r {
            Some(j) => j == pos + lit@.len()
                && p_lit(v@.skip(pos as int), lit@) == Some(v@.skip(j as int)),
            None => p_lit(v@.skip(pos as int), lit@) is None,
        },
{
    let n = lit.unicode_len();
    let vn = v.len();
    if vn - pos < n {
        proof {
            assert(v@.skip(pos as int).len() < lit@.len());
        }
        return None;
    }
    let mut i: usize = 0;
    while i < n
        invariant
            i <= n,
            n == lit@.len(),
            pos + n <= vn,
            vn == v@.len(),
            v@.skip(pos as int).take(i as int) == lit@.take(i as int),
        decreases n - i,
    {
        if v[pos + i] != lit.get_char(i) {
            proof {
                let s = v@.skip(pos as int);
                assert(s[i as int] == v@[pos + i]);
                if lit@.len() <= s.len() && s.take(lit@.len() as int) == lit@ {
                    assert(s.take(lit@.len() as int)[i as int] == s[i as int]);
                }
            }
            return None;
        }
        i += 1;
        proof {
            let s = v@.skip(pos as int);
            assert(s[i - 1] == v@[pos + i - 1]);
            assert(s.take(i as int) =~= s.take(i - 1).push(s[i - 1]));
            assert(lit@.take(i as int) =~= lit@.take(i - 1).push(lit@[i - 1]));
        }
    }
    proof {
        let s = v@.skip(pos as int);
        assert(lit@.take(n as int) =~= lit@);
        assert(s.take(n as int) == lit@);
        assert(s.skip(n as int) =~= v@.skip(pos + n));
    }
    Some(pos + n)
}

/// The result of reading more body text, with already-read content in front.
pub(crate) open spec fn jprepend(t: Seq<char>, o: Option<(Seq<char>, Seq<char>)>) -> Option<(Seq<char>, Seq<char>)> {
    match o {
        Some((u, r)) => Some((t + u, r)),
        None => None,
    }
}

fn is_hex_exec(c: char) -> (r: bool)
    ensures
        r == is_hex_char(c),
{
    crate::chars::ascii_digit(c) || ('a' <= c && c <= 'f') || ('A' <= c && c <= 'F')
}

fn hex_val_exec(c: char) -> (r: u32)
    requires
        is_hex_char(c),
    ensures
        r == hex_val(c),
        r < 16,
{
    if crate::chars::ascii_digit(c) {
        (c as u32) - 48
    } else if 'a' <= c && c <= 'f' {
        (c as u32) - 87
    } else {
        (c as u32) - 55
    }
}

#[verifier::rlimit(60)]
fn e_jstr(v: &[char], pos: usize) -> (r: Option<(String, usize)>)
    requires
        pos <= v@.len(),
    ensures
        match r {
            Some((t, j)) => pos < j <= v@.len()
                && p_jstr(v@.skip(pos as int)) == Some((t@, v@.skip(j as int))),
            None => p_jstr(v@.skip(pos as int)) is None,
        },
{
    if pos == v.len() || v[pos] != '"' {
        proof {
            if pos < v@.len() {
                assert(v@.skip(pos as int)[0] == v@[pos as int]);
            }
        }
        return None;
    }
    proof {
        assert(v@.skip(pos as int)[0] == '"');
        assert(v@.skip(pos as int).skip(1) =~= v@.skip(pos + 1));
    }
    let mut content: Vec<char> = Vec::new();
    let mut i: usize = pos + 1;
    proof {
        assert(jprepend(content@, p_jbody(v@.skip(pos + 1))) == p_jbody(v@.skip(pos + 1))) by {
            match p_jbody(v@.skip(pos + 1)) {
                Some((u, r)) => {
                    assert(content@ + u =~= u);
                },
                None => {},
            }
        };
    }
    while i < v.len()
        invariant
            pos + 1 <= i <= v@.len(),
            pos < v@.len(),
            v@[pos as int] == '"',
            p_jbody(v@.skip(pos + 1)) == jprepend(content@, p_jbody(v@.skip(i as int))),
        decreases v@.len() - i,
    {
        let ghost svf = v@.skip(i as int);
        let c = v[i];
        proof {
            assert(svf[0] == c);
            assert(v@.skip(pos as int)[0] == v@[pos as int]);
            assert(v@.skip(pos as int).skip(1) =~= v@.skip(pos + 1));
        }
        if c == '"' {
            proof {
                assert(p_jbody(svf) == Some((Seq::<char>::empty(), svf.skip(1))));
                assert(svf.skip(1) =~= v@.skip(i + 1));
                assert(content@ + Seq::<char>::empty() =~= content@);
                assert(p_jbody(v@.skip(pos + 1)) == Some((content@, v@.skip(i + 1))));
            }
            let s = chars_to_string(&content);
            return Some((s, i + 1));
        } else if c == '\\' {
            if i + 1 == v.len() {
                proof {
                    assert(svf.len() < 2);
                }
                return None;
            }
            let e = v[i + 1];
            proof {
                assert(svf[1] == e);
            }
            if e == 'u' {
                if v.len() - i < 6 {
                    proof {
                        assert(svf.len() < 6);
                    }
                    return None;
                }
                let h2 = v[i + 2];
                let h3 = v[i + 3];
                let h4 = v[i + 4];
                let h5 = v[i + 5];
                proof {
                    assert(svf[2] == h2 && svf[3] == h3 && svf[4] == h4 && svf[5] == h5);
                }
                if !(is_hex_exec(h2) && is_hex_exec(h3) && is_hex_exec(h4) && is_hex_exec(h5)) {
                    return None;
                }
                let u: u32 = hex_val_exec(h2) * 4096 + hex_val_exec(h3) * 256
                    + hex_val_exec(h4) * 16 + hex_val_exec(h5);
                if 0xD800 <= u && u < 0xE000 {
                    return None;
                }
                let d = match crate::chars::char_from_u32(u) {
                    Some(d) => d,
                    None => {
                        proof {
                            assert(false);
                        }
                        ' '
                    },
                };
                proof {
                    vstd::utf8::char_u32_cast(d, u);
                    assert(svf.skip(6) =~= v@.skip(i + 6));
                    assert(p_jbody(svf) == jprepend(seq![d], p_jbody(v@.skip(i + 6))));
                }
                let ghost old_content = content@;
                content.push(d);
                i += 6;
                proof {
                    assert(p_jbody(v@.skip(pos + 1)) == jprepend(content@, p_jbody(v@.skip(i as int)))) by {
                        match p_jbody(v@.skip(i as int)) {
                            Some((u2, r2)) => {
                                assert(old_content + (seq![d] + u2) =~= content@ + u2);
                            },
                            None => {},
                        }
                    };
                }
            } else if e == '"' || e == '\\' || e == '/' || e == 'n' || e == 't' || e == 'r'
                || e == 'b' || e == 'f' {
                let d: char = if e == 'n' {
                    '\n'
                } else if e == 't' {
                    '\t'
                } else if e == 'r' {
                    '\r'
                } else if e == 'b' {
                    match crate::chars::char_from_u32(8) {
                        Some(d) => d,
                        None => {
                            proof {
                                assert(false);
                            }
                            ' '
                        },
                    }
                } else if e == 'f' {
                    match crate::chars::char_from_u32(12) {
                        Some(d) => d,
                        None => {
                            proof {
                                assert(false);
                            }
                            ' '
                        },
                    }
                } else {
                    e
                };
                proof {
                    if e == 'b' {
                        vstd::utf8::char_u32_cast(d, 8);
                    }
                    if e == 'f' {
                        vstd::utf8::char_u32_cast(d, 12);
                    }
                    assert(svf.skip(2) =~= v@.skip(i + 2));
                    assert(p_jbody(svf) == jprepend(seq![d], p_jbody(v@.skip(i + 2))));
                }
                let ghost old_content = content@;
                content.push(d);
                i += 2;
                proof {
                    assert(p_jbody(v@.skip(pos + 1)) == jprepend(content@, p_jbody(v@.skip(i as int)))) by {
                        match p_jbody(v@.skip(i as int)) {
                            Some((u2, r2)) => {
                                assert(old_content + (seq![d] + u2) =~= content@ + u2);
                            },
                            None => {},
                        }
                    };
                }
            } else {
                return None;
            }
        } else if (c as u32) >= 32 {
            proof {
                assert(svf.skip(1) =~= v@.skip(i + 1));
                assert(p_jbody(svf) == jprepend(seq![c], p_jbody(v@.skip(i + 1))));
            }
            let ghost old_content = content@;
            content.push(c);
            i += 1;
            proof {
                assert(p_jbody(v@.skip(pos + 1)) == jprepend(content@, p_jbody(v@.skip(i as int)))) by {
                    match p_jbody(v@.skip(i as int)) {
                        Some((u2, r2)) => {
                            assert(old_content + (seq![c] + u2) =~= content@ + u2);
                        },
                        None => {},
                    }
                };
            }
        } else {
            return None;
        }
    }
    proof {
        assert(v@.skip(i as int).len() == 0);
    }
    None
}

fn e_u64(v: &[char], pos: usize) -> (r: Option<(u64, usize)>)
    requires
        pos <= v@.len(),
    ensures
        match r {
            Some((val, j)) => pos < j <= v@.len()
                && p_u64(v@.skip(pos as int)) == Some((val as int, v@.skip(j as int))),
            None => p_u64(v@.skip(pos as int)) is None,
        },
{
    proof {
        if pos < v@.len() {
            assert(v@.skip(pos as int)[0] == v@[pos as int]);
        }
    }
    match crate::digits::scan_u64(v, pos) {
        Some((val, end)) => Some((val, end)),
        None => None,
    }
}

fn e_i64(v: &[char], pos: usize) -> (r: Option<(i64, usize)>)
    requires
        pos <= v@.len(),
    ensures
        match r {
            Some((val, j)) => pos < j <= v@.len()
                && p_i64(v@.skip(pos as int)) == Some((val as int, v@.skip(j as int))),
            None => p_i64(v@.skip(pos as int)) is None,
        },
{
    let ghost s = v@.skip(pos as int);
    if pos < v.len() && v[pos] == '-' {
        proof {
            assert(s[0] == '-');
            assert(s.skip(1) =~= v@.skip(pos + 1));
        }
        match crate::digits::scan_u64(v, pos + 1) {
            Some((val, end)) => {
                if val > 9223372036854775808u64 {
                    return None;
                }
                let r: i64 = if val == 9223372036854775808u64 {
                    i64::MIN
                } else {
                    -(val as i64)
                };
                proof {
                    if pos + 1 < v@.len() {
                        assert(v@.skip(pos + 1)[0] == v@[pos + 1]);
                    }
                }
                Some((r, end))
            },
            None => {
                proof {
                    if pos + 1 < v@.len() {
                        assert(v@.skip(pos + 1)[0] == v@[pos + 1]);
                    }
                }
                None
            },
        }
    } else {
        proof {
            if pos < v@.len() {
                assert(s[0] == v@[pos as int]);
            }
        }
        match crate::digits::scan_u64(v, pos) {
            Some((val, end)) => {
                if val > 9223372036854775807u64 {
                    return None;
                }
                Some((val as i64, end))
            },
            None => None,
        }
    }
}

pub(crate) fn e_i32(v: &[char], pos: usize) -> (r: Option<(i32, usize)>)
    requires
        pos <= v@.len(),
    ensures
        match r {
            Some((val, j)) => pos < j <= v@.len()
                && p_i32(v@.skip(pos as int)) == Some((val as int, v@.skip(j as int))),
            None => p_i32(v@.skip(pos as int)) is None,
        },
{
    let ghost s = v@.skip(pos as int);
    if pos < v.len() && v[pos] == '-' {
        proof {
            assert(s[0] == '-');
            assert(s.skip(1) =~= v@.skip(pos + 1));
        }
        match crate::digits::scan_u64(v, pos + 1) {
            Some((val, end)) => {
                if val > 2147483648u64 {
                    return None;
                }
                let r: i32 = if val == 2147483648u64 {
                    i32::MIN
                } else {
                    -(val as i32)
                };
                proof {
                    if pos + 1 < v@.len() {
                        assert(v@.skip(pos + 1)[0] == v@[pos + 1]);
                    }
                }
                Some((r, end))
            },
            None => {
                proof {
                    if pos + 1 < v@.len() {
                        assert(v@.skip(pos + 1)[0] == v@[pos + 1]);
                    }
                }
                None
            },
        }
    } else {
        proof {
            if pos < v@.len() {
                assert(s[0] == v@[pos as int]);
            }
        }
        match crate::digits::scan_u64(v, pos) {
            Some((val, end)) => {
                if val > 2147483647u64 {
                    return None;
                }
                Some((val as i32, end))
            },
            None => None,
        }
    }
}

fn e_opt_i32(v: &[char], pos: usize) -> (r: Option<(Option<i32>, usize)>)
    requires
        pos <= v@.len(),
    ensures
        match r {
            Some((o, j)) => pos < j <= v@.len()
                && p_opt_i32(v@.skip(pos as int)) == Some((opt_i32_view(o), v@.skip(j as int))),
            None => p_opt_i32(v@.skip(pos as int)) is None,
        },
{
    match e_lit(v, pos, "null") {
        Some(j) => {
            proof {
                reveal_strlit("null");
            }
            Some((None, j))
        },
        None => match e_i32(v, pos) {
            Some((n, j)) => Some((Some(n), j)),
            None => None,
        },
    }
}

} // verus!

// ---------------------------------------------------------------------------
// Actions and whole messages, executable.
// ---------------------------------------------------------------------------

verus! {

fn e_tok(v: &[char], pos: usize, lit: &str) -> (r: Option<usize>)
    requires
        pos <= v@.len(),
    ensures
        match r {
            Some(j) => pos <= j <= v@.len()
                && p_tok(v@.skip(pos as int), lit@) == Some(v@.skip(j as int))
                && (lit@.len() > 0 ==> j > pos),
            None => p_tok(v@.skip(pos as int), lit@) is None,
        },
{
    let t = crate::chars::skip_spaces_exec(v, pos);
    match e_lit(v, t, lit) {
        Some(j) => Some(j),
        None => None,
    }
}

fn e_wstr(v: &[char], pos: usize) -> (r: Option<(String, usize)>)
    requires
        pos <= v@.len(),
    ensures
        match r {
            Some((t, j)) => pos < j <= v@.len()
                && p_wstr(v@.skip(pos as int)) == Some((t@, v@.skip(j as int))),
            None => p_wstr(v@.skip(pos as int)) is None,
        },
{
    let t0 = crate::chars::skip_spaces_exec(v, pos);
    e_jstr(v, t0)
}

fn e_wu64(v: &[char], pos: usize) -> (r: Option<(u64, usize)>)
    requires
        pos <= v@.len(),
    ensures
        match r {
            Some((n, j)) => pos < j <= v@.len()
                && p_wu64(v@.skip(pos as int)) == Some((n as int, v@.skip(j as int))),
            None => p_wu64(v@.skip(pos as int)) is None,
        },
{
    let t0 = crate::chars::skip_spaces_exec(v, pos);
    e_u64(v, t0)
}

fn e_wi64(v: &[char], pos: usize) -> (r: Option<(i64, usize)>)
    requires
        pos <= v@.len(),
    ensures
        match r {
            Some((n, j)) => pos < j <= v@.len()
                && p_wi64(v@.skip(pos as int)) == Some((n as int, v@.skip(j as int))),
            None => p_wi64(v@.skip(pos as int)) is None,
        },
{
    let t0 = crate::chars::skip_spaces_exec(v, pos);
    e_i64(v, t0)
}

fn e_wopt_i32(v: &[char], pos: usize) -> (r: Option<(Option<i32>, usize)>)
    requires
        pos <= v@.len(),
    ensures
        match r {
            Some((o, j)) => pos < j <= v@.len()
                && p_wopt_i32(v@.skip(pos as int)) == Some((opt_i32_view(o), v@.skip(j as int))),
            None => p_wopt_i32(v@.skip(pos as int)) is None,
        },
{
    let t0 = crate::chars::skip_spaces_exec(v, pos);
    e_opt_i32(v, t0)
}

fn e_action(v: &[char], pos: usize) -> (r: Option<(Actions, usize)>)
    requires
        pos <= v@.len(),
    ensures
        match r {
            Some((a, j)) => pos < j <= v@.len()
                && p_action(v@.skip(pos as int)) == Some((a@, v@.skip(j as int))),
            None => p_action(v@.skip(pos as int)) is None,
        },
{
    let r0 = match e_tok(v, pos, "{") {
        Some(r0) => r0,
        None => {
            return None;
        },
    };
    if let Some(r1) = e_tok(v, r0, "\"PressAndRelease\"") {
        match e_tok(v, r1, ":") {
            Some(r2) => match e_wstr(v, r2) {
                Some((k, r3)) => match e_tok(v, r3, "}") {
                    Some(r4) => Some((Actions::PressAndRelease(k), r4)),
                    None => None,
                },
                None => None,
            },
            None => None,
        }
    } else if let Some(r1) = e_tok(v, r0, "\"Press\"") {
        match e_tok(v, r1, ":") {
            Some(r2) => match e_wstr(v, r2) {
                Some((k, r3)) => match e_tok(v, r3, "}") {
                    Some(r4) => Some((Actions::Press(k), r4)),
                    None => None,
                },
                None => None,
            },
            None => None,
        }
    } else if let Some(r1) = e_tok(v, r0, "\"Release\"") {
        match e_tok(v, r1, ":") {
            Some(r2) => match e_wstr(v, r2) {
                Some((k, r3)) => match e_tok(v, r3, "}") {
                    Some(r4) => Some((Actions::Release(k), r4)),
                    None => None,
                },
                None => None,
            },
            None => None,
        }
    } else if let Some(r1) = e_tok(v, r0, "\"Delay\"") {
        match e_tok(v, r1, ":") {
            Some(r2) => match e_wi64(v, r2) {
                Some((n, r3)) => match e_tok(v, r3, "}") {
                    Some(r4) => Some((Actions::Delay(n), r4)),
                    None => None,
                },
                None => None,
            },
            None => None,
        }
    } else {
        None
    }
}

/// The result of reading more actions, with already-read items in front.
spec fn aprepend(
    t: Seq<ActionV>,
    o: Option<(Seq<ActionV>, Seq<char>)>,
) -> Option<(Seq<ActionV>, Seq<char>)> {
    match o {
        Some((l, r)) => Some((t + l, r)),
        None => None,
    }
}

#[verifier::rlimit(60)]
fn e_actions(v: &[char], pos: usize) -> (r: Option<(Vec<Actions>, usize)>)
    requires
        pos <= v@.len(),
    ensures
        match r {
            Some((l, j)) => pos < j <= v@.len()
                && p_actions(v@.skip(pos as int))
                    == Some((l@.map_values(|a: Actions| a@), v@.skip(j as int))),
            None => p_actions(v@.skip(pos as int)) is None,
        },
{
    if let Some(j) = e_tok(v, pos, "]") {
        let l: Vec<Actions> = Vec::new();
        proof {
            reveal_strlit("]");
            assert(l@.map_values(|a: Actions| a@) =~= Seq::<ActionV>::empty());
        }
        return Some((l, j));
    }
    let mut acc: Vec<Actions> = Vec::new();
    let mut i: usize = pos;
    proof {
        assert(aprepend(acc@.map_values(|a: Actions| a@), p_actions1(v@.skip(pos as int)))
            == p_actions1(v@.skip(pos as int))) by {
            match p_actions1(v@.skip(pos as int)) {
                Some((l, r)) => {
                    assert(acc@.map_values(|a: Actions| a@) + l =~= l);
                },
                None => {},
            }
        };
    }
    loop
        invariant
            pos <= i <= v@.len(),
            p_actions(v@.skip(pos as int)) == p_actions1(v@.skip(pos as int)),
            p_actions1(v@.skip(pos as int))
                == aprepend(acc@.map_values(|a: Actions| a@), p_actions1(v@.skip(i as int))),
        decreases v@.len() - i,
    {
        let ghost accv = acc@.map_values(|a: Actions| a@);
        match e_action(v, i) {
            None => {
                return None;
            },
            Some((a, j)) => {
                let ghost av = a@;
                proof {
                    assert(v@.skip(j as int).len() < v@.skip(i as int).len());
                }
                if let Some(j2) = e_tok(v, j, ",") {
                    proof {
                        assert(v@.skip(j2 as int).len() < v@.skip(i as int).len());
                        assert(p_actions1(v@.skip(i as int)) == aprepend(
                            seq![av],
                            p_actions1(v@.skip(j2 as int)),
                        ));
                    }
                    acc.push(a);
                    i = j2;
                    proof {
                        assert(acc@.map_values(|a: Actions| a@) =~= accv.push(av));
                        assert(p_actions1(v@.skip(pos as int)) == aprepend(
                            acc@.map_values(|a: Actions| a@),
                            p_actions1(v@.skip(i as int)),
                        )) by {
                            match p_actions1(v@.skip(i as int)) {
                                Some((l, r)) => {
                                    assert(accv + (seq![av] + l) =~= accv.push(av) + l);
                                },
                                None => {},
                            }
                        };
                    }
                } else if let Some(j2) = e_tok(v, j, "]") {
                    proof {
                        assert(p_actions1(v@.skip(i as int)) == Some((seq![av], v@.skip(j2 as int))));
                    }
                    acc.push(a);
                    proof {
                        assert(acc@.map_values(|a: Actions| a@) =~= accv.push(av));
                        assert(accv + seq![av] =~= accv.push(av));
                        assert(p_actions1(v@.skip(pos as int)) == Some((
                            acc@.map_values(|a: Actions| a@),
                            v@.skip(j2 as int),
                        )));
                    }
                    return Some((acc, j2));
                } else {
                    return None;
                }
            },
        }
    }
}

impl Message {
    /// Reads a message from its wire form, tolerating insignificant
    /// whitespace anywhere between tokens; fails exactly when the text
    /// holds no message in this form.
    #[verifier::rlimit(100)]
    #[verifier::spinoff_prover]
    pub fn decode(json: &str) -> (r: Result<Message, DecodeError>)
        ensures
            match r {
                Ok(m) => dec_msg(json@) == Some(m@),
                Err(_) => dec_msg(json@) is None,
            },
    {
        let v = str_to_chars(json);
        proof {
            assert(v@.skip(0) =~= json@);
        }
        let err = DecodeError { msg: String::from_str("not a protocol message") };
        let r0 = match e_tok(v.as_slice(), 0, "{") {
            Some(r0) => r0,
            None => {
                return Err(err);
            },
        };
        let r1 = match e_tok(v.as_slice(), r0, "\"type\"") {
            Some(r1) => r1,
            None => {
                return Err(err);
            },
        };
        let r2 = match e_tok(v.as_slice(), r1, ":") {
            Some(r2) => r2,
            None => {
                return Err(err);
            },
        };
        if let Some(r3) = e_tok(v.as_slice(), r2, "\"MouseClick\"") {
            match e_tok(v.as_slice(), r3, ",") {
                Some(r4) => match e_tok(v.as_slice(), r4, "\"button\"") {
                    Some(r5) => match e_tok(v.as_slice(), r5, ":") {
                        Some(r6) => match e_wstr(v.as_slice(), r6) {
                            Some((b, r7)) => match e_tok(v.as_slice(), r7, "}") {
                                Some(r8) => {
                                    let k = crate::chars::skip_spaces_exec(v.as_slice(), r8);
                                    if k == v.len() {
                                        Ok(Message::MouseClick(MouseClick { button: b }))
                                    } else {
                                        Err(err)
                                    }
                                },
                                None => Err(err),
                            },
                            None => Err(err),
                        },
                        None => Err(err),
                    },
                    None => Err(err),
                },
                None => Err(err),
            }
        } else if let Some(r3) = e_tok(v.as_slice(), r2, "\"RepeatingMouseClick\"") {
            let b = match e_tok(v.as_slice(), r3, ",") {
                Some(r4) => match e_tok(v.as_slice(), r4, "\"button\"") {
                    Some(r5) => match e_tok(v.as_slice(), r5, ":") {
                        Some(r6) => match e_wstr(v.as_slice(), r6) {
                            Some(p) => p,
                            None => {
                                return Err(err);
                            },
                        },
                        None => {
                            return Err(err);
                        },
                    },
                    None => {
                        return Err(err);
                    },
                },
                None => {
                    return Err(err);
                },
            };
            let t = match e_tok(v.as_slice(), b.1, ",") {
                Some(r4) => match e_tok(v.as_slice(), r4, "\"typ\"") {
                    Some(r5) => match e_tok(v.as_slice(), r5, ":") {
                        Some(r6) => match e_wstr(v.as_slice(), r6) {
                            Some(p) => p,
                            None => {
                                return Err(err);
                            },
                        },
                        None => {
                            return Err(err);
                        },
                    },
                    None => {
                        return Err(err);
                    },
                },
                None => {
                    return Err(err);
                },
            };
            let amount = match e_tok(v.as_slice(), t.1, ",") {
                Some(r4) => match e_tok(v.as_slice(), r4, "\"amount\"") {
                    Some(r5) => match e_tok(v.as_slice(), r5, ":") {
                        Some(r6) => match e_wu64(v.as_slice(), r6) {
                            Some(p) => p,
                            None => {
                                return Err(err);
                            },
                        },
                        None => {
                            return Err(err);
                        },
                    },
                    None => {
                        return Err(err);
                    },
                },
                None => {
                    return Err(err);
                },
            };
            let x = match e_tok(v.as_slice(), amount.1, ",") {
                Some(r4) => match e_tok(v.as_slice(), r4, "\"position\"") {
                    Some(r5) => match e_tok(v.as_slice(), r5, ":") {
                        Some(r6) => match e_tok(v.as_slice(), r6, "[") {
                            Some(r7) => match e_wopt_i32(v.as_slice(), r7) {
                                Some(p) => p,
                                None => {
                                    return Err(err);
                                },
                            },
                            None => {
                                return Err(err);
                            },
                        },
                        None => {
                            return Err(err);
                        },
                    },
                    None => {
                        return Err(err);
                    },
                },
                None => {
                    return Err(err);
                },
            };
            let y = match e_tok(v.as_slice(), x.1, ",") {
                Some(r4) => match e_wopt_i32(v.as_slice(), r4) {
                    Some(p) => p,
                    None => {
                        return Err(err);
                    },
                },
                None => {
                    return Err(err);
                },
            };
            let interval = match e_tok(v.as_slice(), y.1, "]") {
                Some(r4) => match e_tok(v.as_slice(), r4, ",") {
                    Some(r5) => match e_tok(v.as_slice(), r5, "\"interval\"") {
                        Some(r6) => match e_tok(v.as_slice(), r6, ":") {
                            Some(r7) => match e_wu64(v.as_slice(), r7) {
                                Some(p) => p,
                                None => {
                                    return Err(err);
                                },
                            },
                            None => {
                                return Err(err);
                            },
                        },
                        None => {
                            return Err(err);
                        },
                    },
                    None => {
                        return Err(err);
                    },
                },
                None => {
                    return Err(err);
                },
            };
            match e_tok(v.as_slice(), interval.1, "}") {
                Some(r4) => {
                    let k = crate::chars::skip_spaces_exec(v.as_slice(), r4);
                    if k == v.len() {
                        Ok(Message::RepeatingMouseClick(RepeatingMouseClick {
                            button: b.0,
                            typ: t.0,
                            amount: amount.0,
                            position: (x.0, y.0),
                            interval: interval.0,
                        }))
                    } else {
                        Err(err)
                    }
                },
                None => Err(err),
            }
        } else if let Some(r3) = e_tok(v.as_slice(), r2, "\"RepeatingKeyboardClick\"") {
            let l = match e_tok(v.as_slice(), r3, ",") {
                Some(r4) => match e_tok(v.as_slice(), r4, "\"buttons\"") {
                    Some(r5) => match e_tok(v.as_slice(), r5, ":") {
                        Some(r6) => match e_tok(v.as_slice(), r6, "[") {
                            Some(r7) => match e_actions(v.as_slice(), r7) {
                                Some(p) => p,
                                None => {
                                    return Err(err);
                                },
                            },
                            None => {
                                return Err(err);
                            },
                        },
                        None => {
                            return Err(err);
                        },
                    },
                    None => {
                        return Err(err);
                    },
                },
                None => {
                    return Err(err);
                },
            };
            let amount = match e_tok(v.as_slice(), l.1, ",") {
                Some(r4) => match e_tok(v.as_slice(), r4, "\"amount\"") {
                    Some(r5) => match e_tok(v.as_slice(), r5, ":") {
                        Some(r6) => match e_wu64(v.as_slice(), r6) {
                            Some(p) => p,
                            None => {
                                return Err(err);
                            },
                        },
                        None => {
                            return Err(err);
                        },
                    },
                    None => {
                        return Err(err);
                    },
                },
                None => {
                    return Err(err);
                },
            };
            let interval = match e_tok(v.as_slice(), amount.1, ",") {
                Some(r4) => match e_tok(v.as_slice(), r4, "\"interval\"") {
                    Some(r5) => match e_tok(v.as_slice(), r5, ":") {
                        Some(r6) => match e_wu64(v.as_slice(), r6) {
                            Some(p) => p,
                            None => {
                                return Err(err);
                            },
                        },
                        None => {
                            return Err(err);
                        },
                    },
                    None => {
                        return Err(err);
                    },
                },
                None => {
                    return Err(err);
                },
            };
            let dbr = match e_tok(v.as_slice(), interval.1, ",") {
                Some(r4) => match e_tok(v.as_slice(), r4, "\"delay_before_repeat\"") {
                    Some(r5) => match e_tok(v.as_slice(), r5, ":") {
                        Some(r6) => match e_wu64(v.as_slice(), r6) {
                            Some(p) => p,
                            None => {
                                return Err(err);
                            },
                        },
                        None => {
                            return Err(err);
                        },
                    },
                    None => {
                        return Err(err);
                    },
                },
                None => {
                    return Err(err);
                },
            };
            let hd = match e_tok(v.as_slice(), dbr.1, ",") {
                Some(r4) => match e_tok(v.as_slice(), r4, "\"hold_duration\"") {
                    Some(r5) => match e_tok(v.as_slice(), r5, ":") {
                        Some(r6) => match e_wu64(v.as_slice(), r6) {
                            Some(p) => p,
                            None => {
                                return Err(err);
                            },
                        },
                        None => {
                            return Err(err);
                        },
                    },
                    None => {
                        return Err(err);
                    },
                },
                None => {
                    return Err(err);
                },
            };
            match e_tok(v.as_slice(), hd.1, "}") {
                Some(r4) => {
                    let k = crate::chars::skip_spaces_exec(v.as_slice(), r4);
                    if k == v.len() {
                        Ok(Message::RepeatingKeyboardClick(RepeatingKeyboardClick {
                            buttons: l.0,
                            amount: amount.0,
                            interval: interval.0,
                            delay_before_repeat: dbr.0,
                            hold_duration: hd.0,
                        }))
                    } else {
                        Err(err)
                    }
                },
                None => Err(err),
            }
        } else if let Some(r3) = e_tok(v.as_slice(), r2, "\"StopClicking\"") {
            match e_tok(v.as_slice(), r3, "}") {
                Some(r4) => {
                    let k = crate::chars::skip_spaces_exec(v.as_slice(), r4);
                    if k == v.len() {
                        Ok(Message::StopClicking(StopClicking {}))
                    } else {
                        Err(err)
                    }
                },
                None => Err(err),
            }
        } else if let Some(r3) = e_tok(v.as_slice(), r2, "\"ConfirmResponse\"") {
            match e_tok(v.as_slice(), r3, "}") {
                Some(r4) => {
                    let k = crate::chars::skip_spaces_exec(v.as_slice(), r4);
                    if k == v.len() {
                        Ok(Message::ConfirmResponse(ConfirmResponse {}))
                    } else {
                        Err(err)
                    }
                },
                None => Err(err),
            }
        } else if let Some(r3) = e_tok(v.as_slice(), r2, "\"Error\"") {
            match e_tok(v.as_slice(), r3, ",") {
                Some(r4) => match e_tok(v.as_slice(), r4, "\"msg\"") {
                    Some(r5) => match e_tok(v.as_slice(), r5, ":") {
                        Some(r6) => match e_wstr(v.as_slice(), r6) {
                            Some((m, r7)) => match e_tok(v.as_slice(), r7, "}") {
                                Some(r8) => {
                                    let k = crate::chars::skip_spaces_exec(v.as_slice(), r8);
                                    if k == v.len() {
                                        Ok(Message::Error(Error { msg: m }))
                                    } else {
                                        Err(err)
                                    }
                                },
                                None => Err(err),
                            },
                            None => Err(err),
                        },
                        None => Err(err),
                    },
                    None => Err(err),
                },
                None => Err(err),
            }
        } else {
            Err(err)
        }
    }
}

} // verus!

// ---------------------------------------------------------------------------
// The round-trip law: decoding undoes encoding.
// ---------------------------------------------------------------------------

verus! {

proof fn lemma_p_lit_prefix(lit: Seq<char>, rest: Seq<char>)
    ensures
        p_lit(lit + rest, lit) == Some(rest),
{
    assert((lit + rest).take(lit.len() as int) =~= lit);
    assert((lit + rest).skip(lit.len() as int) =~= rest);
}

proof fn lemma_p_lit_mismatch(s: Seq<char>, lit: Seq<char>, i: int)
    requires
        0 <= i < lit.len(),
        i < s.len(),
        s[i] != lit[i],
    ensures
        p_lit(s, lit) is None,
{
    if lit.len() <= s.len() && s.take(lit.len() as int) == lit {
        assert(s.take(lit.len() as int)[i] == s[i]);
    }
}

/// Unescaping reads back exactly the characters that were escaped.
proof fn lemma_p_jbody_enc(t: Seq<char>, rest: Seq<char>)
    ensures
        p_jbody(jstr_body(t) + seq!['"'] + rest) == Some((t, rest)),
    decreases t.len(),
{
    if t.len() == 0 {
        let s = jstr_body(t) + seq!['"'] + rest;
        assert(s =~= seq!['"'] + rest);
        assert(s[0] == '"');
        assert(s.skip(1) =~= rest);
        assert(t =~= Seq::<char>::empty());
    } else {
        let c = t[0];
        let body1 = jstr_body(t.skip(1)) + seq!['"'] + rest;
        let s = jstr_body(t) + seq!['"'] + rest;
        assert(s =~= esc1(c) + body1);
        lemma_p_jbody_enc(t.skip(1), rest);
        if c == '"' {
            assert(s[0] == '\\' && s[1] == '"');
            assert(s.skip(2) =~= body1);
            assert(seq![c] + t.skip(1) =~= t);
        } else if c == '\\' {
            assert(s[0] == '\\' && s[1] == '\\');
            assert(s.skip(2) =~= body1);
            assert(seq![c] + t.skip(1) =~= t);
        } else if c == '\n' {
            assert(s[0] == '\\' && s[1] == 'n');
            assert(s.skip(2) =~= body1);
            assert(seq![c] + t.skip(1) =~= t);
        } else if c == '\t' {
            assert(s[0] == '\\' && s[1] == 't');
            assert(s.skip(2) =~= body1);
            assert(seq![c] + t.skip(1) =~= t);
        } else if c == '\r' {
            assert(s[0] == '\\' && s[1] == 'r');
            assert(s.skip(2) =~= body1);
            assert(seq![c] + t.skip(1) =~= t);
        } else if (c as u32) < 32 {
            let cu = c as u32;
            let hi = (cu / 16) as int;
            let lo = (cu % 16) as int;
            assert(s[0] == '\\' && s[1] == 'u' && s[2] == '0' && s[3] == '0');
            assert(s[4] == hex_char(hi) && s[5] == hex_char(lo));
            assert(s.skip(6) =~= body1);
            assert(hex_val('0') == 0);
            assert(0 <= hi < 2 && 0 <= lo < 16);
            assert(is_hex_char(hex_char(hi)) && hex_val(hex_char(hi)) == hi);
            assert(is_hex_char(hex_char(lo)) && hex_val(hex_char(lo)) == lo);
            let u = hex_val(s[2]) * 4096 + hex_val(s[3]) * 256 + hex_val(s[4]) * 16 + hex_val(s[5]);
            assert(u == hi * 16 + lo);
            assert(hi * 16 + lo == cu) by (nonlinear_arith)
                requires hi == cu / 16, lo == cu % 16, cu < 32;
            vstd::utf8::char_u32_cast(c, cu);
            assert((u as char) == c);
            assert(seq![c] + t.skip(1) =~= t);
        } else {
            assert(esc1(c) =~= seq![c]);
            assert(s[0] == c);
            assert(s.skip(1) =~= body1);
            assert(seq![c] + t.skip(1) =~= t);
        }
    }
}

/// Reading a written string literal yields the original string.
proof fn lemma_p_jstr_enc(t: Seq<char>, rest: Seq<char>)
    ensures
        p_jstr(jstr(t) + rest) == Some((t, rest)),
{
    let s = jstr(t) + rest;
    assert(s[0] == '"');
    assert(s.skip(1) =~= jstr_body(t) + seq!['"'] + rest);
    lemma_p_jbody_enc(t, rest);
}

/// Reading a written unsigned number yields the number.
proof fn lemma_p_u64_enc(n: int, rest: Seq<char>)
    requires
        0 <= n <= u64::MAX,
        rest.len() == 0 || !is_ascii_digit(rest[0]),
    ensures
        p_u64(nat_digits(n) + rest) == Some((n, rest)),
{
    crate::digits::lemma_fold_digits_of(n, rest);
    crate::digits::lemma_nat_digits_are_digits(n);
    let s = nat_digits(n) + rest;
    assert(s[0] == nat_digits(n)[0]);
}

/// Reading a written signed number yields the number.
proof fn lemma_p_i64_enc(n: int, rest: Seq<char>)
    requires
        i64::MIN <= n <= i64::MAX,
        rest.len() == 0 || !is_ascii_digit(rest[0]),
    ensures
        p_i64(int_digits(n) + rest) == Some((n, rest)),
{
    let s = int_digits(n) + rest;
    if n < 0 {
        let m = -n;
        assert(s =~= seq!['-'] + (nat_digits(m) + rest));
        assert(s[0] == '-');
        assert(s.skip(1) =~= nat_digits(m) + rest);
        crate::digits::lemma_fold_digits_of(m, rest);
        crate::digits::lemma_nat_digits_are_digits(m);
        assert((nat_digits(m) + rest)[0] == nat_digits(m)[0]);
    } else {
        crate::digits::lemma_fold_digits_of(n, rest);
        crate::digits::lemma_nat_digits_are_digits(n);
        assert(s[0] == nat_digits(n)[0]);
        assert(is_ascii_digit(s[0]));
        assert(s[0] != '-');
    }
}

proof fn lemma_p_i32_enc(n: int, rest: Seq<char>)
    requires
        i32::MIN <= n <= i32::MAX,
        rest.len() == 0 || !is_ascii_digit(rest[0]),
    ensures
        p_i32(int_digits(n) + rest) == Some((n, rest)),
{
    let s = int_digits(n) + rest;
    if n < 0 {
        let m = -n;
        assert(s =~= seq!['-'] + (nat_digits(m) + rest));
        assert(s[0] == '-');
        assert(s.skip(1) =~= nat_digits(m) + rest);
        crate::digits::lemma_fold_digits_of(m, rest);
        crate::digits::lemma_nat_digits_are_digits(m);
        assert((nat_digits(m) + rest)[0] == nat_digits(m)[0]);
    } else {
        crate::digits::lemma_fold_digits_of(n, rest);
        crate::digits::lemma_nat_digits_are_digits(n);
        assert(s[0] == nat_digits(n)[0]);
        assert(is_ascii_digit(s[0]));
        assert(s[0] != '-');
    }
}

proof fn lemma_p_opt_i32_enc(o: Option<int>, rest: Seq<char>)
    requires
        match o {
            Some(n) => i32::MIN <= n <= i32::MAX,
            None => true,
        },
        rest.len() == 0 || !is_ascii_digit(rest[0]),
    ensures
        p_opt_i32(enc_opt_int(o) + rest) == Some((o, rest)),
{
    reveal_strlit("null");
    let s = enc_opt_int(o) + rest;
    match o {
        None => {
            assert(s =~= "null"@ + rest);
            lemma_p_lit_prefix("null"@, rest);
        },
        Some(n) => {
            assert(s =~= int_digits(n) + rest);
            if n < 0 {
                assert(int_digits(n) =~= seq!['-'] + nat_digits(-n));
                assert(s[0] == '-');
            } else {
                crate::digits::lemma_nat_digits_are_digits(n);
                assert(s[0] == nat_digits(n)[0]);
                assert(is_ascii_digit(s[0]));
            }
            assert(s[0] != 'n');
            lemma_p_lit_mismatch(s, "null"@, 0);
            lemma_p_i32_enc(n, rest);
        },
    }
}

proof fn lemma_p_tok_prefix(lit: Seq<char>, rest: Seq<char>)
    requires
        lit.len() > 0,
        !is_space_char(lit[0]),
    ensures
        p_tok(lit + rest, lit) == Some(rest),
{
    assert((lit + rest)[0] == lit[0]);
    crate::chars::lemma_skip_spaces_id(lit + rest);
    lemma_p_lit_prefix(lit, rest);
}

proof fn lemma_p_tok_mismatch(s: Seq<char>, lit: Seq<char>, i: int)
    requires
        s.len() > 0,
        !is_space_char(s[0]),
        0 <= i < lit.len(),
        i < s.len(),
        s[i] != lit[i],
    ensures
        p_tok(s, lit) is None,
{
    crate::chars::lemma_skip_spaces_id(s);
    lemma_p_lit_mismatch(s, lit, i);
}

proof fn lemma_p_wstr_enc(t: Seq<char>, rest: Seq<char>)
    ensures
        p_wstr(jstr(t) + rest) == Some((t, rest)),
{
    assert((jstr(t) + rest)[0] == '"');
    crate::chars::lemma_skip_spaces_id(jstr(t) + rest);
    lemma_p_jstr_enc(t, rest);
}

proof fn lemma_p_wu64_enc(n: int, rest: Seq<char>)
    requires
        0 <= n <= u64::MAX,
        rest.len() == 0 || !is_ascii_digit(rest[0]),
    ensures
        p_wu64(nat_digits(n) + rest) == Some((n, rest)),
{
    crate::digits::lemma_nat_digits_are_digits(n);
    assert((nat_digits(n) + rest)[0] == nat_digits(n)[0]);
    crate::chars::lemma_skip_spaces_id(nat_digits(n) + rest);
    lemma_p_u64_enc(n, rest);
}

proof fn lemma_p_wi64_enc(n: int, rest: Seq<char>)
    requires
        i64::MIN <= n <= i64::MAX,
        rest.len() == 0 || !is_ascii_digit(rest[0]),
    ensures
        p_wi64(int_digits(n) + rest) == Some((n, rest)),
{
    let s = int_digits(n) + rest;
    if n < 0 {
        assert(int_digits(n) =~= seq!['-'] + nat_digits(-n));
        assert(s[0] == '-');
    } else {
        crate::digits::lemma_nat_digits_are_digits(n);
        assert(s[0] == nat_digits(n)[0]);
    }
    crate::chars::lemma_skip_spaces_id(s);
    lemma_p_i64_enc(n, rest);
}

proof fn lemma_p_wopt_i32_enc(o: Option<int>, rest: Seq<char>)
    requires
        match o {
            Some(n) => i32::MIN <= n <= i32::MAX,
            None => true,
        },
        rest.len() == 0 || !is_ascii_digit(rest[0]),
    ensures
        p_wopt_i32(enc_opt_int(o) + rest) == Some((o, rest)),
{
    reveal_strlit("null");
    let s = enc_opt_int(o) + rest;
    match o {
        None => {
            assert(s[0] == "null"@[0]);
        },
        Some(n) => {
            if n < 0 {
                assert(enc_opt_int(o) =~= seq!['-'] + nat_digits(-n));
                assert(s[0] == '-');
            } else {
                crate::digits::lemma_nat_digits_are_digits(n);
                assert(s[0] == nat_digits(n)[0]);
            }
        },
    }
    crate::chars::lemma_skip_spaces_id(s);
    lemma_p_opt_i32_enc(o, rest);
}

/// Reading a written action yields the action.
#[verifier::rlimit(100)]
proof fn lemma_p_action_enc(a: ActionV, rest: Seq<char>)
    requires
        crate::actions::wf_action(a),
    ensures
        p_action(enc_action(a) + rest) == Some((a, rest)),
{
    reveal_strlit("{\"PressAndRelease\":");
    reveal_strlit("{\"Press\":");
    reveal_strlit("{\"Release\":");
    reveal_strlit("{\"Delay\":");
    reveal_strlit("{");
    reveal_strlit("}");
    reveal_strlit(":");
    reveal_strlit("\"PressAndRelease\"");
    reveal_strlit("\"Press\"");
    reveal_strlit("\"Release\"");
    reveal_strlit("\"Delay\"");
    let s = enc_action(a) + rest;
    match a {
        ActionV::PressAndRelease(k) => {
            let x2 = jstr(k) + ("}"@ + rest);
            let x1 = ":"@ + x2;
            let x0 = "\"PressAndRelease\""@ + x1;
            assert(s =~= "{"@ + x0);
            lemma_p_tok_prefix("{"@, x0);
            assert(x0[0] == '"');
            lemma_p_tok_prefix("\"PressAndRelease\""@, x1);
            lemma_p_tok_prefix(":"@, x2);
            lemma_p_wstr_enc(k, "}"@ + rest);
            lemma_p_tok_prefix("}"@, rest);
        },
        ActionV::Press(k) => {
            let x2 = jstr(k) + ("}"@ + rest);
            let x1 = ":"@ + x2;
            let x0 = "\"Press\""@ + x1;
            assert(s =~= "{"@ + x0);
            lemma_p_tok_prefix("{"@, x0);
            assert(x0[0] == '"');
            assert(x0[6] == '"');
            assert("\"PressAndRelease\""@[6] == 'A');
            lemma_p_tok_mismatch(x0, "\"PressAndRelease\""@, 6);
            lemma_p_tok_prefix("\"Press\""@, x1);
            lemma_p_tok_prefix(":"@, x2);
            lemma_p_wstr_enc(k, "}"@ + rest);
            lemma_p_tok_prefix("}"@, rest);
        },
        ActionV::Release(k) => {
            let x2 = jstr(k) + ("}"@ + rest);
            let x1 = ":"@ + x2;
            let x0 = "\"Release\""@ + x1;
            assert(s =~= "{"@ + x0);
            lemma_p_tok_prefix("{"@, x0);
            assert(x0[0] == '"');
            assert(x0[1] == 'R');
            assert("\"PressAndRelease\""@[1] == 'P');
            assert("\"Press\""@[1] == 'P');
            lemma_p_tok_mismatch(x0, "\"PressAndRelease\""@, 1);
            lemma_p_tok_mismatch(x0, "\"Press\""@, 1);
            lemma_p_tok_prefix("\"Release\""@, x1);
            lemma_p_tok_prefix(":"@, x2);
            lemma_p_wstr_enc(k, "}"@ + rest);
            lemma_p_tok_prefix("}"@, rest);
        },
        ActionV::Delay(n) => {
            let x2 = int_digits(n) + ("}"@ + rest);
            let x1 = ":"@ + x2;
            let x0 = "\"Delay\""@ + x1;
            assert(s =~= "{"@ + x0);
            lemma_p_tok_prefix("{"@, x0);
            assert(x0[0] == '"');
            assert(x0[1] == 'D');
            assert("\"PressAndRelease\""@[1] == 'P');
            assert("\"Press\""@[1] == 'P');
            assert("\"Release\""@[1] == 'R');
            lemma_p_tok_mismatch(x0, "\"PressAndRelease\""@, 1);
            lemma_p_tok_mismatch(x0, "\"Press\""@, 1);
            lemma_p_tok_mismatch(x0, "\"Release\""@, 1);
            lemma_p_tok_prefix("\"Delay\""@, x1);
            lemma_p_tok_prefix(":"@, x2);
            assert(("}"@ + rest)[0] == '}');
            assert(!is_ascii_digit('}'));
            lemma_p_wi64_enc(n, "}"@ + rest);
            lemma_p_tok_prefix("}"@, rest);
        },
    }
}

/// The first character of a written action is an opening brace.
proof fn lemma_enc_action_first(a: ActionV)
    ensures
        enc_action(a).len() >= 1,
        enc_action(a)[0] == '{',
{
    reveal_strlit("{\"PressAndRelease\":");
    reveal_strlit("{\"Press\":");
    reveal_strlit("{\"Release\":");
    reveal_strlit("{\"Delay\":");
    match a {
        ActionV::PressAndRelease(k) => {
            assert(enc_action(a)[0] == "{\"PressAndRelease\":"@[0]);
        },
        ActionV::Press(k) => {
            assert(enc_action(a)[0] == "{\"Press\":"@[0]);
        },
        ActionV::Release(k) => {
            assert(enc_action(a)[0] == "{\"Release\":"@[0]);
        },
        ActionV::Delay(n) => {
            assert(enc_action(a)[0] == "{\"Delay\":"@[0]);
        },
    }
}

/// Reading a written action list yields the list.
proof fn lemma_p_actions_enc(l: Seq<ActionV>, rest: Seq<char>)
    requires
        forall|i: int| 0 <= i < l.len() ==> crate::actions::wf_action(#[trigger] l[i]),
    ensures
        p_actions(enc_actions(l) + seq![']'] + rest) == Some((l, rest)),
    decreases l.len(),
{
    reveal_strlit("]");
    reveal_strlit(",");
    let s = enc_actions(l) + seq![']'] + rest;
    if l.len() == 0 {
        assert(s =~= "]"@ + rest);
        lemma_p_tok_prefix("]"@, rest);
        assert(l =~= Seq::<ActionV>::empty());
    } else {
        lemma_enc_action_first(l[0]);
        assert(s[0] == '{');
        assert("]"@[0] == ']');
        lemma_p_tok_mismatch(s, "]"@, 0);
        if l.len() == 1 {
            let r = seq![']'] + rest;
            assert(s =~= enc_action(l[0]) + r);
            lemma_p_action_enc(l[0], r);
            assert(r[0] == ']');
            assert(","@[0] == ',');
            lemma_p_tok_mismatch(r, ","@, 0);
            assert(r =~= "]"@ + rest);
            lemma_p_tok_prefix("]"@, rest);
            assert(r.len() < s.len());
            assert(seq![l[0]] =~= l);
        } else {
            let tail = enc_actions(l.skip(1)) + seq![']'] + rest;
            let r = seq![','] + tail;
            assert(s =~= enc_action(l[0]) + r);
            lemma_p_action_enc(l[0], r);
            assert(r[0] == ',');
            assert(r =~= ","@ + tail);
            lemma_p_tok_prefix(","@, tail);
            assert(forall|i: int| 0 <= i < l.skip(1).len()
                ==> crate::actions::wf_action(#[trigger] l.skip(1)[i]));
            lemma_p_actions_enc(l.skip(1), rest);
            lemma_enc_action_first(l.skip(1)[0]);
            assert(tail[0] == '{') by {
                if l.skip(1).len() == 1 {
                    assert(enc_actions(l.skip(1)) == enc_action(l.skip(1)[0]));
                    assert(tail[0] == enc_action(l.skip(1)[0])[0]);
                } else {
                    assert(enc_actions(l.skip(1)) == enc_action(l.skip(1)[0]) + seq![',']
                        + enc_actions(l.skip(1).skip(1)));
                    assert(tail[0] == enc_action(l.skip(1)[0])[0]);
                }
            };
            lemma_p_tok_mismatch(tail, "]"@, 0);
            assert(p_actions1(tail) == Some((l.skip(1), rest)));
            assert(r.len() < s.len());
            assert(tail.len() < s.len());
            assert(seq![l[0]] + l.skip(1) =~= l);
        }
    }
}

proof fn lemma_msg_enc_mouse_click(button: Seq<char>)
    ensures
        p_msg_any(enc_msg(MessageV::MouseClick { button })) == Some((
            MessageV::MouseClick { button },
            Seq::<char>::empty(),
        )),
{
    reveal_strlit("{\"type\":\"MouseClick\",\"button\":");
    reveal_strlit("{");
    reveal_strlit("}");
    reveal_strlit(":");
    reveal_strlit(",");
    reveal_strlit("\"type\"");
    reveal_strlit("\"MouseClick\"");
    reveal_strlit("\"button\"");
    let s = enc_msg(MessageV::MouseClick { button });
    let e = Seq::<char>::empty();
    let t5 = "}"@ + e;
    let t4 = jstr(button) + t5;
    let t3 = ":"@ + t4;
    let t2 = "\"button\""@ + t3;
    let t1 = ","@ + t2;
    let tag = "\"MouseClick\""@ + t1;
    let ty = ":"@ + tag;
    let tn = "\"type\""@ + ty;
    assert(s =~= "{"@ + tn);
    lemma_p_tok_prefix("{"@, tn);
    lemma_p_tok_prefix("\"type\""@, ty);
    lemma_p_tok_prefix(":"@, tag);
    assert(tag[0] == '"');
    lemma_p_tok_prefix("\"MouseClick\""@, t1);
    lemma_p_tok_prefix(","@, t2);
    lemma_p_tok_prefix("\"button\""@, t3);
    lemma_p_tok_prefix(":"@, t4);
    lemma_p_wstr_enc(button, t5);
    lemma_p_tok_prefix("}"@, e);
}

#[verifier::rlimit(100)]
#[verifier::spinoff_prover]
proof fn lemma_msg_enc_rep_mouse(
    button: Seq<char>,
    typ: Seq<char>,
    amount: int,
    position: (Option<int>, Option<int>),
    interval: int,
)
    requires
        crate::protocol::wf_msg(MessageV::RepeatingMouseClick { button, typ, amount, position, interval }),
    ensures
        p_msg_any(enc_msg(MessageV::RepeatingMouseClick { button, typ, amount, position, interval }))
            == Some((
            MessageV::RepeatingMouseClick { button, typ, amount, position, interval },
            Seq::<char>::empty(),
        )),
{
    reveal_strlit("{\"type\":\"RepeatingMouseClick\",\"button\":");
    reveal_strlit(",\"typ\":");
    reveal_strlit(",\"amount\":");
    reveal_strlit(",\"position\":[");
    reveal_strlit("],\"interval\":");
    reveal_strlit("{");
    reveal_strlit("}");
    reveal_strlit(":");
    reveal_strlit(",");
    reveal_strlit("[");
    reveal_strlit("]");
    reveal_strlit("\"type\"");
    reveal_strlit("\"MouseClick\"");
    reveal_strlit("\"RepeatingMouseClick\"");
    reveal_strlit("\"button\"");
    reveal_strlit("\"typ\"");
    reveal_strlit("\"amount\"");
    reveal_strlit("\"position\"");
    reveal_strlit("\"interval\"");
    let s = enc_msg(MessageV::RepeatingMouseClick { button, typ, amount, position, interval });
    let e = Seq::<char>::empty();
    let u0 = "}"@ + e;
    let u1 = nat_digits(interval) + u0;
    let u2 = ":"@ + u1;
    let u3 = "\"interval\""@ + u2;
    let u4 = ","@ + u3;
    let u5 = "]"@ + u4;
    let u6 = enc_opt_int(position.1) + u5;
    let u7 = ","@ + u6;
    let u8 = enc_opt_int(position.0) + u7;
    let u9 = "["@ + u8;
    let u10 = ":"@ + u9;
    let u11 = "\"position\""@ + u10;
    let u12 = ","@ + u11;
    let u13 = nat_digits(amount) + u12;
    let u14 = ":"@ + u13;
    let u15 = "\"amount\""@ + u14;
    let u16 = ","@ + u15;
    let u17 = jstr(typ) + u16;
    let u18 = ":"@ + u17;
    let u19 = "\"typ\""@ + u18;
    let u20 = ","@ + u19;
    let u21 = jstr(button) + u20;
    let u22 = ":"@ + u21;
    let u23 = "\"button\""@ + u22;
    let u24 = ","@ + u23;
    let tag = "\"RepeatingMouseClick\""@ + u24;
    let ty = ":"@ + tag;
    let tn = "\"type\""@ + ty;
    assert(s =~= "{"@ + tn);
    lemma_p_tok_prefix("{"@, tn);
    lemma_p_tok_prefix("\"type\""@, ty);
    lemma_p_tok_prefix(":"@, tag);
    assert(tag[0] == '"');
    assert(tag[1] == 'R');
    assert("\"MouseClick\""@[1] == 'M');
    lemma_p_tok_mismatch(tag, "\"MouseClick\""@, 1);
    lemma_p_tok_prefix("\"RepeatingMouseClick\""@, u24);
    lemma_p_tok_prefix(","@, u23);
    lemma_p_tok_prefix("\"button\""@, u22);
    lemma_p_tok_prefix(":"@, u21);
    lemma_p_wstr_enc(button, u20);
    lemma_p_tok_prefix(","@, u19);
    lemma_p_tok_prefix("\"typ\""@, u18);
    lemma_p_tok_prefix(":"@, u17);
    lemma_p_wstr_enc(typ, u16);
    lemma_p_tok_prefix(","@, u15);
    lemma_p_tok_prefix("\"amount\""@, u14);
    lemma_p_tok_prefix(":"@, u13);
    assert(u12[0] == ',');
    assert(!is_ascii_digit(','));
    lemma_p_wu64_enc(amount, u12);
    lemma_p_tok_prefix(","@, u11);
    lemma_p_tok_prefix("\"position\""@, u10);
    lemma_p_tok_prefix(":"@, u9);
    lemma_p_tok_prefix("["@, u8);
    assert(u7[0] == ',');
    lemma_p_wopt_i32_enc(position.0, u7);
    lemma_p_tok_prefix(","@, u6);
    assert(u5[0] == ']');
    assert(!is_ascii_digit(']'));
    lemma_p_wopt_i32_enc(position.1, u5);
    lemma_p_tok_prefix("]"@, u4);
    lemma_p_tok_prefix(","@, u3);
    lemma_p_tok_prefix("\"interval\""@, u2);
    lemma_p_tok_prefix(":"@, u1);
    assert(u0[0] == '}');
    assert(!is_ascii_digit('}'));
    lemma_p_wu64_enc(interval, u0);
    lemma_p_tok_prefix("}"@, e);
}

#[verifier::rlimit(100)]
#[verifier::spinoff_prover]
proof fn lemma_msg_enc_rep_keyboard(
    buttons: Seq<ActionV>,
    amount: int,
    interval: int,
    delay_before_repeat: int,
    hold_duration: int,
)
    requires
        crate::protocol::wf_msg(MessageV::RepeatingKeyboardClick {
            buttons,
            amount,
            interval,
            delay_before_repeat,
            hold_duration,
        }),
    ensures
        p_msg_any(enc_msg(MessageV::RepeatingKeyboardClick {
            buttons,
            amount,
            interval,
            delay_before_repeat,
            hold_duration,
        })) == Some((
            MessageV::RepeatingKeyboardClick {
                buttons,
                amount,
                interval,
                delay_before_repeat,
                hold_duration,
            },
            Seq::<char>::empty(),
        )),
{
    reveal_strlit("{\"type\":\"RepeatingKeyboardClick\",\"buttons\":[");
    reveal_strlit("],\"amount\":");
    reveal_strlit(",\"interval\":");
    reveal_strlit(",\"delay_before_repeat\":");
    reveal_strlit(",\"hold_duration\":");
    reveal_strlit("{");
    reveal_strlit("}");
    reveal_strlit(":");
    reveal_strlit(",");
    reveal_strlit("[");
    reveal_strlit("]");
    reveal_strlit("\"type\"");
    reveal_strlit("\"MouseClick\"");
    reveal_strlit("\"RepeatingMouseClick\"");
    reveal_strlit("\"RepeatingKeyboardClick\"");
    reveal_strlit("\"buttons\"");
    reveal_strlit("\"amount\"");
    reveal_strlit("\"interval\"");
    reveal_strlit("\"delay_before_repeat\"");
    reveal_strlit("\"hold_duration\"");
    let m = MessageV::RepeatingKeyboardClick {
        buttons,
        amount,
        interval,
        delay_before_repeat,
        hold_duration,
    };
    let s = enc_msg(m);
    let e = Seq::<char>::empty();
    let u0 = "}"@ + e;
    let u1 = nat_digits(hold_duration) + u0;
    let u2 = ":"@ + u1;
    let u3 = "\"hold_duration\""@ + u2;
    let u4 = ","@ + u3;
    let u5 = nat_digits(delay_before_repeat) + u4;
    let u6 = ":"@ + u5;
    let u7 = "\"delay_before_repeat\""@ + u6;
    let u8 = ","@ + u7;
    let u9 = nat_digits(interval) + u8;
    let u10 = ":"@ + u9;
    let u11 = "\"interval\""@ + u10;
    let u12 = ","@ + u11;
    let u13 = nat_digits(amount) + u12;
    let u14 = ":"@ + u13;
    let u15 = "\"amount\""@ + u14;
    let u16 = ","@ + u15;
    let u17 = enc_actions(buttons) + (seq![']'] + u16);
    let u18 = "["@ + u17;
    let u19 = ":"@ + u18;
    let u20 = "\"buttons\""@ + u19;
    let u21 = ","@ + u20;
    let tag = "\"RepeatingKeyboardClick\""@ + u21;
    let ty = ":"@ + tag;
    let tn = "\"type\""@ + ty;
    assert(s =~= "{"@ + tn);
    lemma_p_tok_prefix("{"@, tn);
    lemma_p_tok_prefix("\"type\""@, ty);
    lemma_p_tok_prefix(":"@, tag);
    assert(tag[0] == '"');
    assert(tag[1] == 'R');
    assert("\"MouseClick\""@[1] == 'M');
    lemma_p_tok_mismatch(tag, "\"MouseClick\""@, 1);
    assert(tag[10] == 'K');
    assert("\"RepeatingMouseClick\""@[10] == 'M');
    lemma_p_tok_mismatch(tag, "\"RepeatingMouseClick\""@, 10);
    lemma_p_tok_prefix("\"RepeatingKeyboardClick\""@, u21);
    lemma_p_tok_prefix(","@, u20);
    lemma_p_tok_prefix("\"buttons\""@, u19);
    lemma_p_tok_prefix(":"@, u18);
    lemma_p_tok_prefix("["@, u17);
    assert(u17 =~= enc_actions(buttons) + seq![']'] + u16);
    lemma_p_actions_enc(buttons, u16);
    lemma_p_tok_prefix(","@, u15);
    lemma_p_tok_prefix("\"amount\""@, u14);
    lemma_p_tok_prefix(":"@, u13);
    assert(u12[0] == ',');
    assert(!is_ascii_digit(','));
    lemma_p_wu64_enc(amount, u12);
    lemma_p_tok_prefix(","@, u11);
    lemma_p_tok_prefix("\"interval\""@, u10);
    lemma_p_tok_prefix(":"@, u9);
    assert(u8[0] == ',');
    lemma_p_wu64_enc(interval, u8);
    lemma_p_tok_prefix(","@, u7);
    lemma_p_tok_prefix("\"delay_before_repeat\""@, u6);
    lemma_p_tok_prefix(":"@, u5);
    assert(u4[0] == ',');
    lemma_p_wu64_enc(delay_before_repeat, u4);
    lemma_p_tok_prefix(","@, u3);
    lemma_p_tok_prefix("\"hold_duration\""@, u2);
    lemma_p_tok_prefix(":"@, u1);
    assert(u0[0] == '}');
    assert(!is_ascii_digit('}'));
    lemma_p_wu64_enc(hold_duration, u0);
    lemma_p_tok_prefix("}"@, e);
}

proof fn lemma_msg_enc_stop()
    ensures
        p_msg_any(enc_msg(MessageV::StopClicking)) == Some((
            MessageV::StopClicking,
            Seq::<char>::empty(),
        )),
{
    reveal_strlit("{\"type\":\"StopClicking\"}");
    reveal_strlit("{");
    reveal_strlit("}");
    reveal_strlit(":");
    reveal_strlit("\"type\"");
    reveal_strlit("\"MouseClick\"");
    reveal_strlit("\"RepeatingMouseClick\"");
    reveal_strlit("\"RepeatingKeyboardClick\"");
    reveal_strlit("\"StopClicking\"");
    let s = enc_msg(MessageV::StopClicking);
    let e = Seq::<char>::empty();
    let t1 = "}"@ + e;
    let tag = "\"StopClicking\""@ + t1;
    let ty = ":"@ + tag;
    let tn = "\"type\""@ + ty;
    assert(s =~= "{"@ + tn);
    lemma_p_tok_prefix("{"@, tn);
    lemma_p_tok_prefix("\"type\""@, ty);
    lemma_p_tok_prefix(":"@, tag);
    assert(tag[0] == '"');
    assert(tag[1] == 'S');
    assert("\"MouseClick\""@[1] == 'M');
    assert("\"RepeatingMouseClick\""@[1] == 'R');
    assert("\"RepeatingKeyboardClick\""@[1] == 'R');
    lemma_p_tok_mismatch(tag, "\"MouseClick\""@, 1);
    lemma_p_tok_mismatch(tag, "\"RepeatingMouseClick\""@, 1);
    lemma_p_tok_mismatch(tag, "\"RepeatingKeyboardClick\""@, 1);
    lemma_p_tok_prefix("\"StopClicking\""@, t1);
    lemma_p_tok_prefix("}"@, e);
}

proof fn lemma_msg_enc_confirm()
    ensures
        p_msg_any(enc_msg(MessageV::ConfirmResponse)) == Some((
            MessageV::ConfirmResponse,
            Seq::<char>::empty(),
        )),
{
    reveal_strlit("{\"type\":\"ConfirmResponse\"}");
    reveal_strlit("{");
    reveal_strlit("}");
    reveal_strlit(":");
    reveal_strlit("\"type\"");
    reveal_strlit("\"MouseClick\"");
    reveal_strlit("\"RepeatingMouseClick\"");
    reveal_strlit("\"RepeatingKeyboardClick\"");
    reveal_strlit("\"StopClicking\"");
    reveal_strlit("\"ConfirmResponse\"");
    let s = enc_msg(MessageV::ConfirmResponse);
    let e = Seq::<char>::empty();
    let t1 = "}"@ + e;
    let tag = "\"ConfirmResponse\""@ + t1;
    let ty = ":"@ + tag;
    let tn = "\"type\""@ + ty;
    assert(s =~= "{"@ + tn);
    lemma_p_tok_prefix("{"@, tn);
    lemma_p_tok_prefix("\"type\""@, ty);
    lemma_p_tok_prefix(":"@, tag);
    assert(tag[0] == '"');
    assert(tag[1] == 'C');
    assert("\"MouseClick\""@[1] == 'M');
    assert("\"RepeatingMouseClick\""@[1] == 'R');
    assert("\"RepeatingKeyboardClick\""@[1] == 'R');
    assert("\"StopClicking\""@[1] == 'S');
    lemma_p_tok_mismatch(tag, "\"MouseClick\""@, 1);
    lemma_p_tok_mismatch(tag, "\"RepeatingMouseClick\""@, 1);
    lemma_p_tok_mismatch(tag, "\"RepeatingKeyboardClick\""@, 1);
    lemma_p_tok_mismatch(tag, "\"StopClicking\""@, 1);
    lemma_p_tok_prefix("\"ConfirmResponse\""@, t1);
    lemma_p_tok_prefix("}"@, e);
}

proof fn lemma_msg_enc_error(msg: Seq<char>)
    ensures
        p_msg_any(enc_msg(MessageV::Error { msg })) == Some((
            MessageV::Error { msg },
            Seq::<char>::empty(),
        )),
{
    reveal_strlit("{\"type\":\"Error\",\"msg\":");
    reveal_strlit("{");
    reveal_strlit("}");
    reveal_strlit(":");
    reveal_strlit(",");
    reveal_strlit("\"type\"");
    reveal_strlit("\"MouseClick\"");
    reveal_strlit("\"RepeatingMouseClick\"");
    reveal_strlit("\"RepeatingKeyboardClick\"");
    reveal_strlit("\"StopClicking\"");
    reveal_strlit("\"ConfirmResponse\"");
    reveal_strlit("\"Error\"");
    reveal_strlit("\"msg\"");
    let s = enc_msg(MessageV::Error { msg });
    let e = Seq::<char>::empty();
    let t5 = "}"@ + e;
    let t4 = jstr(msg) + t5;
    let t3 = ":"@ + t4;
    let t2 = "\"msg\""@ + t3;
    let t1 = ","@ + t2;
    let tag = "\"Error\""@ + t1;
    let ty = ":"@ + tag;
    let tn = "\"type\""@ + ty;
    assert(s =~= "{"@ + tn);
    lemma_p_tok_prefix("{"@, tn);
    lemma_p_tok_prefix("\"type\""@, ty);
    lemma_p_tok_prefix(":"@, tag);
    assert(tag[0] == '"');
    assert(tag[1] == 'E');
    assert("\"MouseClick\""@[1] == 'M');
    assert("\"RepeatingMouseClick\""@[1] == 'R');
    assert("\"RepeatingKeyboardClick\""@[1] == 'R');
    assert("\"StopClicking\""@[1] == 'S');
    assert("\"ConfirmResponse\""@[1] == 'C');
    lemma_p_tok_mismatch(tag, "\"MouseClick\""@, 1);
    lemma_p_tok_mismatch(tag, "\"RepeatingMouseClick\""@, 1);
    lemma_p_tok_mismatch(tag, "\"RepeatingKeyboardClick\""@, 1);
    lemma_p_tok_mismatch(tag, "\"StopClicking\""@, 1);
    lemma_p_tok_mismatch(tag, "\"ConfirmResponse\""@, 1);
    lemma_p_tok_prefix("\"Error\""@, t1);
    lemma_p_tok_prefix(","@, t2);
    lemma_p_tok_prefix("\"msg\""@, t3);
    lemma_p_tok_prefix(":"@, t4);
    lemma_p_wstr_enc(msg, t5);
    lemma_p_tok_prefix("}"@, e);
}

/// Reading a written message yields the message and nothing is left over.
proof fn lemma_p_msg_any_enc(m: MessageV)
    requires
        crate::protocol::wf_msg(m),
    ensures
        p_msg_any(enc_msg(m)) == Some((m, Seq::<char>::empty())),
{
    match m {
        MessageV::MouseClick { button } => {
            lemma_msg_enc_mouse_click(button);
        },
        MessageV::RepeatingMouseClick { button, typ, amount, position, interval } => {
            lemma_msg_enc_rep_mouse(button, typ, amount, position, interval);
        },
        MessageV::RepeatingKeyboardClick {
            buttons,
            amount,
            interval,
            delay_before_repeat,
            hold_duration,
        } => {
            lemma_msg_enc_rep_keyboard(buttons, amount, interval, delay_before_repeat, hold_duration);
        },
        MessageV::StopClicking => {
            lemma_msg_enc_stop();
        },
        MessageV::ConfirmResponse => {
            lemma_msg_enc_confirm();
        },
        MessageV::Error { msg } => {
            lemma_msg_enc_error(msg);
        },
    }
}

/// The round-trip law of the wire format: decoding the canonical text of
/// any constructible message yields that message back, stated over the
/// spec functions that [`Message::encode`] and [`Message::decode`]
/// promise in their contracts.
pub proof fn lemma_codec_round_trip(m: MessageV)
    requires
        crate::protocol::wf_msg(m),
    ensures
        dec_msg(enc_msg(m)) == Some(m),
{
    lemma_p_msg_any_enc(m);
}

} // verus!
