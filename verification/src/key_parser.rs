//! The key-sequence compiler: macro text to an ordered action list.
//!
//! The grammar is a whitespace-separated stream of tokens: quoted string
//! literals, bare keywords that must name a key, the calls `press(key)`,
//! `release(key)` and `delay(number)`, and numeric literals inside calls.
//! Every failure carries the offending position, from which the rendered
//! diagnostic derives its line, column and source line.

pub mod strings;

use vstd::prelude::*;
use crate::chars::{
    is_space_char, is_ascii_digit, is_ident_start, is_ident_char, spec_upper,
};
use crate::actions::{Actions, ActionV};
use crate::digits::digit_val;
use crate::keycodes::{is_key_name, stored_key_of};
use crate::key_parser::strings::p_mstr;
use crate::chars::skip_spaces;

verus! {

/// One argument of a call: a keyword or a number.
pub enum ArgV {
    Ident(Seq<char>),
    Num(int),
}

/// One token of the macro language.
pub enum TokenV {
    /// A quoted string literal, already unescaped.
    Str(Seq<char>),
    /// A call: its name and its arguments.
    Call(Seq<char>, Seq<ArgV>),
    /// A bare keyword that exists in the keycode table.
    Key(Seq<char>),
    /// A run of non-whitespace the grammar does not recognize.
    Unknown(Seq<char>),
}

/// The longest identifier run at the front of the text.
pub open spec fn scan_ident(s: Seq<char>) -> (Seq<char>, Seq<char>)
    decreases s.len(),
{
    if s.len() > 0 && is_ident_char(s[0]) {
        let w = scan_ident(s.skip(1));
        (seq![s[0]] + w.0, w.1)
    } else {
        (Seq::empty(), s)
    }
}

/// The longest non-whitespace run at the front of the text.
pub open spec fn scan_nonspace(s: Seq<char>) -> (Seq<char>, Seq<char>)
    decreases s.len(),
{
    if s.len() > 0 && !is_space_char(s[0]) {
        let w = scan_nonspace(s.skip(1));
        (seq![s[0]] + w.0, w.1)
    } else {
        (Seq::empty(), s)
    }
}

pub open spec fn is_func_name(w: Seq<char>) -> bool {
    w == "press"@ || w == "release"@ || w == "delay"@
}

/// Folds leading digits onto `acc`, passing over underscore separators.
pub open spec fn fold_numtok(s: Seq<char>, acc: int) -> (int, Seq<char>)
    decreases s.len(),
{
    if s.len() > 0 && is_ascii_digit(s[0]) {
        fold_numtok(s.skip(1), acc * 10 + digit_val(s[0]))
    } else if s.len() > 0 && s[0] == '_' {
        fold_numtok(s.skip(1), acc)
    } else {
        (acc, s)
    }
}

/// A numeric literal: an optional minus sign, then digits with optional
/// underscore separators; fails when the value does not fit `i64`.
pub open spec fn p_numtok(s: Seq<char>) -> Option<(int, Seq<char>)> {
    if s.len() > 0 && s[0] == '-' {
        let t = s.skip(1);
        if t.len() > 0 && is_ascii_digit(t[0]) {
            let f = fold_numtok(t, 0);
            if f.0 <= 0x8000000000000000 {
                Some((-f.0, f.1))
            } else {
                None
            }
        } else {
            None
        }
    } else if s.len() > 0 && is_ascii_digit(s[0]) {
        let f = fold_numtok(s, 0);
        if f.0 <= i64::MAX {
            Some(f)
        } else {
            None
        }
    } else {
        None
    }
}

/// One call argument: a keyword, or a number in range.
pub open spec fn p_arg(s: Seq<char>) -> Option<(ArgV, Seq<char>)> {
    if s.len() > 0 && is_ident_start(s[0]) {
        let w = scan_ident(s);
        Some((ArgV::Ident(w.0), w.1))
    } else {
        match p_numtok(s) {
            Some((n, r)) => Some((ArgV::Num(n), r)),
            None => None,
        }
    }
}

/// The arguments after the first: each a comma, whitespace, an argument
/// and whitespace. A comma not followed by an argument ends the list
/// (the text then still stands at that comma).
pub open spec fn p_args_rest(s: Seq<char>) -> (Seq<ArgV>, Seq<char>)
    decreases s.len(),
{
    if s.len() > 0 && s[0] == ',' {
        let t = skip_spaces(s.skip(1));
        match p_arg(t) {
            Some((a, r)) => {
                let r2 = skip_spaces(r);
                if r2.len() < s.len() {
                    let more = p_args_rest(r2);
                    (seq![a] + more.0, more.1)
                } else {
                    (Seq::empty(), s)
                }
            },
            None => (Seq::empty(), s),
        }
    } else {
        (Seq::empty(), s)
    }
}

/// The argument list of a call, read after the opening parenthesis, up
/// to and including the closing one. An empty list must close at once.
pub open spec fn p_call_args(s: Seq<char>) -> Option<(Seq<ArgV>, Seq<char>)> {
    let t = skip_spaces(s);
    match p_arg(t) {
        Some((a, r)) => {
            let r2 = skip_spaces(r);
            let more = p_args_rest(r2);
            let rr = more.1;
            if rr.len() > 0 && rr[0] == ')' {
                Some((seq![a] + more.0, rr.skip(1)))
            } else {
                None
            }
        },
        None => {
            if s.len() > 0 && s[0] == ')' {
                Some((Seq::empty(), s.skip(1)))
            } else {
                None
            }
        },
    }
}

/// One token at the front of the text (first character not whitespace).
/// `None` is a hard failure: a malformed string literal, or a call name
/// without its parenthesis or with a malformed argument list.
pub open spec fn p_token(s: Seq<char>) -> Option<(TokenV, Seq<char>)> {
    if s.len() == 0 {
        None
    } else if s[0] == '"' {
        match p_mstr(s) {
            Some((t, r)) => Some((TokenV::Str(t), r)),
            None => None,
        }
    } else if is_ident_start(s[0]) {
        let w = scan_ident(s);
        if is_func_name(w.0) {
            if w.1.len() > 0 && w.1[0] == '(' {
                match p_call_args(w.1.skip(1)) {
                    Some((args, rr)) => Some((TokenV::Call(w.0, args), rr)),
                    None => None,
                }
            } else {
                None
            }
        } else if is_key_name(spec_upper(w.0)) {
            Some((TokenV::Key(w.0), w.1))
        } else {
            let u = scan_nonspace(s);
            Some((TokenV::Unknown(u.0), u.1))
        }
    } else {
        let u = scan_nonspace(s);
        Some((TokenV::Unknown(u.0), u.1))
    }
}

} // verus!

// ---------------------------------------------------------------------------
// Expansion: tokens to actions.
// ---------------------------------------------------------------------------

verus! {

pub open spec fn acts_view(l: Seq<Actions>) -> Seq<ActionV> {
    l.map_values(|a: Actions| a@)
}

/// A plain press-and-release of one stored key.
pub open spec fn pr(k: Seq<char>) -> Seq<ActionV> {
    seq![ActionV::PressAndRelease(k)]
}

/// A key reached through the shift modifier: shift and key are pressed,
/// then shift and key are released, explicitly and in this order.
pub open spec fn shifted(k: Seq<char>) -> Seq<ActionV> {
    seq![
        ActionV::Press("KEY_LEFTSHIFT"@),
        ActionV::Press(k),
        ActionV::Release("KEY_LEFTSHIFT"@),
        ActionV::Release(k),
    ]
}

/// What one character of a string literal expands to. Characters not in
/// the table expand to nothing and are silently skipped.
pub open spec fn expand_char(c: char) -> Seq<ActionV> {
    if ('a' <= c && c <= 'z') || ('A' <= c && c <= 'Z') || is_ascii_digit(c) {
        pr("KEY_"@ + seq![crate::chars::spec_upper_char(c)])
    } else if c == '-' {
        pr("KEY_MINUS"@)
    } else if c == '_' {
        shifted("KEY_MINUS"@)
    } else if c == '=' {
        pr("KEY_EQUAL"@)
    } else if c == '+' {
        shifted("KEY_EQUAL"@)
    } else if c == '\t' {
        pr("KEY_TAB"@)
    } else if c == '[' {
        pr("KEY_LEFTBRACE"@)
    } else if c == '{' {
        shifted("KEY_LEFTBRACE"@)
    } else if c == ']' {
        pr("KEY_RIGHTBRACE"@)
    } else if c == '}' {
        shifted("KEY_RIGHTBRACE"@)
    } else if c == '\n' {
        pr("KEY_ENTER"@)
    } else if c == ';' {
        pr("KEY_SEMICOLON"@)
    } else if c == ':' {
        shifted("KEY_SEMICOLON"@)
    } else if c == '\'' {
        pr("KEY_APOSTROPHE"@)
    } else if c == '"' {
        shifted("KEY_APOSTROPHE"@)
    } else if c == '`' {
        pr("KEY_GRAVE"@)
    } else if c == '~' {
        shifted("KEY_GRAVE"@)
    } else if c == '\\' {
        pr("KEY_BACKSLASH"@)
    } else if c == '|' {
        shifted("KEY_BACKSLASH"@)
    } else if c == ',' {
        pr("KEY_COMMA"@)
    } else if c == '<' {
        shifted("KEY_COMMA"@)
    } else if c == '.' {
        pr("KEY_DOT"@)
    } else if c == '>' {
        shifted("KEY_DOT"@)
    } else if c == '/' {
        pr("KEY_SLASH"@)
    } else if c == '?' {
        shifted("KEY_SLASH"@)
    } else if c == ' ' {
        pr("KEY_SPACE"@)
    } else if c == '!' {
        shifted("KEY_1"@)
    } else if c == '@' {
        shifted("KEY_2"@)
    } else if c == '#' {
        shifted("KEY_3"@)
    } else if c == '$' {
        shifted("KEY_4"@)
    } else if c == '%' {
        shifted("KEY_5"@)
    } else if c == '^' {
        shifted("KEY_6"@)
    } else if c == '&' {
        shifted("KEY_7"@)
    } else if c == '*' {
        shifted("KEY_8"@)
    } else if c == '(' {
        shifted("KEY_9"@)
    } else if c == ')' {
        shifted("KEY_0"@)
    } else {
        Seq::empty()
    }
}

/// A string literal expands character by character, in order.
pub open spec fn expand_string(t: Seq<char>) -> Seq<ActionV>
    decreases t.len(),
{
    if t.len() == 0 {
        Seq::empty()
    } else {
        expand_char(t[0]) + expand_string(t.skip(1))
    }
}

/// What a token contributes to the action list; `None` is a compile
/// error (unknown token, unknown key, or a call of the wrong shape).
pub open spec fn expand_token(tok: TokenV) -> Option<Seq<ActionV>> {
    match tok {
        TokenV::Str(t) => Some(expand_string(t)),
        TokenV::Key(w) => Some(seq![ActionV::PressAndRelease(stored_key_of(w))]),
        TokenV::Unknown(_) => None,
        TokenV::Call(name, args) => {
            if name == "delay"@ {
                if args.len() == 1 {
                    match args[0] {
                        ArgV::Num(n) => Some(seq![ActionV::Delay(n)]),
                        _ => None,
                    }
                } else {
                    None
                }
            } else if name == "press"@ {
                if args.len() == 1 {
                    match args[0] {
                        ArgV::Ident(k) => if is_key_name(spec_upper(k)) {
                            Some(seq![ActionV::Press(stored_key_of(k))])
                        } else {
                            None
                        },
                        _ => None,
                    }
                } else {
                    None
                }
            } else if name == "release"@ {
                if args.len() == 1 {
                    match args[0] {
                        ArgV::Ident(k) => if is_key_name(spec_upper(k)) {
                            Some(seq![ActionV::Release(stored_key_of(k))])
                        } else {
                            None
                        },
                        _ => None,
                    }
                } else {
                    None
                }
            } else {
                None
            }
        },
    }
}

/// Nothing left but whitespace.
pub open spec fn all_spaces(s: Seq<char>) -> bool {
    skip_spaces(s).len() == 0
}

/// The whole compilation: skip whitespace, read a token, expand it,
/// until only whitespace remains. `None` is a compile error.
pub open spec fn p_parse_loop(s: Seq<char>) -> Option<Seq<ActionV>>
    decreases s.len(),
{
    let t = skip_spaces(s);
    match p_token(t) {
        None => None,
        Some((tok, r)) => match expand_token(tok) {
            None => None,
            Some(acts) => if all_spaces(r) {
                Some(acts)
            } else if r.len() < s.len() {
                match p_parse_loop(r) {
                    Some(more) => Some(acts + more),
                    None => None,
                }
            } else {
                None
            },
        },
    }
}

/// The meaning of a whole macro text.
pub open spec fn p_parse(s: Seq<char>) -> Option<Seq<ActionV>> {
    p_parse_loop(s)
}

} // verus!

// ---------------------------------------------------------------------------
// The executable tokenizer.
// ---------------------------------------------------------------------------

verus! {

/// One call argument, executable form.
pub(crate) enum ArgE {
    Ident(Vec<char>),
    Num(i64),
}

pub(crate) open spec fn arg_view(a: ArgE) -> ArgV {
    match a {
        ArgE::Ident(w) => ArgV::Ident(w@),
        ArgE::Num(n) => ArgV::Num(n as int),
    }
}

/// One token, executable form.
pub(crate) enum TokenE {
    Str(Vec<char>),
    Call(Vec<char>, Vec<ArgE>),
    Key(Vec<char>),
    Unknown(Vec<char>),
}

pub(crate) open spec fn token_view(t: TokenE) -> TokenV {
    match t {
        TokenE::Str(c) => TokenV::Str(c@),
        TokenE::Call(name, args) => TokenV::Call(name@, args@.map_values(|a: ArgE| arg_view(a))),
        TokenE::Key(w) => TokenV::Key(w@),
        TokenE::Unknown(u) => TokenV::Unknown(u@),
    }
}

/// Scans the identifier run at `pos`.
fn e_ident(v: &[char], pos: usize) -> (r: (Vec<char>, usize))
    requires
        pos <= v@.len(),
    ensures
        pos <= r.1 <= v@.len(),
        scan_ident(v@.skip(pos as int)).0 == r.0@,
        scan_ident(v@.skip(pos as int)).1 == v@.skip(r.1 as int),
        pos < v@.len() && is_ident_char(v@[pos as int]) ==> r.1 > pos,
{
    let mut w: Vec<char> = Vec::new();
    let mut i: usize = pos;
    proof {
        assert(Seq::<char>::empty() + scan_ident(v@.skip(pos as int)).0
            =~= scan_ident(v@.skip(pos as int)).0);
    }
    while i < v.len() && crate::chars::ident_char(v[i])
        invariant
            pos <= i <= v@.len(),
            scan_ident(v@.skip(pos as int)).0 == w@ + scan_ident(v@.skip(i as int)).0,
            scan_ident(v@.skip(pos as int)).1 == scan_ident(v@.skip(i as int)).1,
        decreases v@.len() - i,
    {
        let c = v[i];
        proof {
            assert(v@.skip(i as int)[0] == c);
            assert(v@.skip(i as int).skip(1) =~= v@.skip(i + 1));
        }
        let ghost oldw = w@;
        w.push(c);
        i += 1;
        proof {
            assert(oldw + (seq![c] + scan_ident(v@.skip(i as int)).0)
                =~= w@ + scan_ident(v@.skip(i as int)).0);
        }
    }
    proof {
        if i < v@.len() {
            assert(v@.skip(i as int)[0] == v@[i as int]);
        }
        assert(scan_ident(v@.skip(i as int)).0 =~= Seq::<char>::empty());
        assert(w@ + Seq::<char>::empty() =~= w@);
        if pos < v@.len() && is_ident_char(v@[pos as int]) {
            assert(v@.skip(pos as int)[0] == v@[pos as int]);
        }
    }
    (w, i)
}

/// Scans the non-whitespace run at `pos`.
fn e_nonspace(v: &[char], pos: usize) -> (r: (Vec<char>, usize))
    requires
        pos <= v@.len(),
    ensures
        pos <= r.1 <= v@.len(),
        scan_nonspace(v@.skip(pos as int)).0 == r.0@,
        scan_nonspace(v@.skip(pos as int)).1 == v@.skip(r.1 as int),
        pos < v@.len() && !is_space_char(v@[pos as int]) ==> r.1 > pos,
{
    let mut w: Vec<char> = Vec::new();
    let mut i: usize = pos;
    proof {
        assert(Seq::<char>::empty() + scan_nonspace(v@.skip(pos as int)).0
            =~= scan_nonspace(v@.skip(pos as int)).0);
    }
    while i < v.len() && !crate::chars::space_char(v[i])
        invariant
            pos <= i <= v@.len(),
            scan_nonspace(v@.skip(pos as int)).0 == w@ + scan_nonspace(v@.skip(i as int)).0,
            scan_nonspace(v@.skip(pos as int)).1 == scan_nonspace(v@.skip(i as int)).1,
        decreases v@.len() - i,
    {
        let c = v[i];
        proof {
            assert(v@.skip(i as int)[0] == c);
            assert(v@.skip(i as int).skip(1) =~= v@.skip(i + 1));
        }
        let ghost oldw = w@;
        w.push(c);
        i += 1;
        proof {
            assert(oldw + (seq![c] + scan_nonspace(v@.skip(i as int)).0)
                =~= w@ + scan_nonspace(v@.skip(i as int)).0);
        }
    }
    proof {
        if i < v@.len() {
            assert(v@.skip(i as int)[0] == v@[i as int]);
        }
        assert(scan_nonspace(v@.skip(i as int)).0 =~= Seq::<char>::empty());
        assert(w@ + Seq::<char>::empty() =~= w@);
        if pos < v@.len() && !is_space_char(v@[pos as int]) {
            assert(v@.skip(pos as int)[0] == v@[pos as int]);
        }
    }
    (w, i)
}

/// Folding consumes at least the first digit or separator.
proof fn lemma_fold_numtok_consumes(s: Seq<char>, acc: int)
    ensures
        fold_numtok(s, acc).1.len() <= s.len(),
        s.len() > 0 && (is_ascii_digit(s[0]) || s[0] == '_')
            ==> fold_numtok(s, acc).1.len() < s.len(),
    decreases s.len(),
{
    if s.len() > 0 && is_ascii_digit(s[0]) {
        lemma_fold_numtok_consumes(s.skip(1), acc * 10 + digit_val(s[0]));
    } else if s.len() > 0 && s[0] == '_' {
        lemma_fold_numtok_consumes(s.skip(1), acc);
    }
}

/// The folded value of a numeric token only grows as digits are read.
proof fn lemma_fold_numtok_grows(s: Seq<char>, acc: int)
    requires
        acc >= 0,
    ensures
        fold_numtok(s, acc).0 >= acc,
    decreases s.len(),
{
    if s.len() > 0 && is_ascii_digit(s[0]) {
        assert(acc * 10 >= acc) by (nonlinear_arith)
            requires acc >= 0;
        lemma_fold_numtok_grows(s.skip(1), acc * 10 + digit_val(s[0]));
    } else if s.len() > 0 && s[0] == '_' {
        lemma_fold_numtok_grows(s.skip(1), acc);
    }
}

/// Reads the digit-and-underscore run at `pos`, folding the digit value.
fn e_foldnum(v: &[char], pos: usize) -> (r: (Option<u64>, usize))
    requires
        pos <= v@.len(),
    ensures
        pos <= r.1 <= v@.len(),
        match r.0 {
            Some(val) => fold_numtok(v@.skip(pos as int), 0) == (val as int, v@.skip(r.1 as int)),
            None => fold_numtok(v@.skip(pos as int), 0).0 > u64::MAX,
        },
{
    let mut i: usize = pos;
    let mut val: u64 = 0;
    let mut over = false;
    while i < v.len() && (crate::chars::ascii_digit(v[i]) || v[i] == '_')
        invariant
            pos <= i <= v@.len(),
            !over ==> fold_numtok(v@.skip(pos as int), 0)
                == fold_numtok(v@.skip(i as int), val as int),
            over ==> fold_numtok(v@.skip(pos as int), 0).0 > u64::MAX,
        decreases v@.len() - i,
    {
        let c = v[i];
        proof {
            assert(v@.skip(i as int)[0] == c);
            assert(v@.skip(i as int).skip(1) =~= v@.skip(i + 1));
        }
        if !over {
            if c == '_' {
            } else {
                let d: u64 = (c as u32 as u64) - 48;
                proof {
                    assert(d < 10);
                }
                if val > (u64::MAX - d) / 10 {
                    proof {
                        assert(val * 10 + d > u64::MAX) by (nonlinear_arith)
                            requires val > (u64::MAX - d) / 10, d < 10, val <= u64::MAX;
                        lemma_fold_numtok_grows(v@.skip(i + 1), val as int * 10 + d as int);
                    }
                    over = true;
                } else {
                    proof {
                        assert(val * 10 + d <= u64::MAX) by (nonlinear_arith)
                            requires val <= (u64::MAX - d) / 10, d < 10;
                    }
                    val = val * 10 + d;
                }
            }
        }
        i += 1;
    }
    proof {
        if i < v@.len() {
            assert(v@.skip(i as int)[0] == v@[i as int]);
        }
    }
    if over {
        (None, i)
    } else {
        (Some(val), i)
    }
}

/// Reads a numeric literal at `pos`; mirrors [`p_numtok`].
fn e_numtok(v: &[char], pos: usize) -> (r: Option<(i64, usize)>)
    requires
        pos <= v@.len(),
    ensures
        match r {
            Some((n, j)) => pos < j <= v@.len()
                && p_numtok(v@.skip(pos as int)) == Some((n as int, v@.skip(j as int))),
            None => p_numtok(v@.skip(pos as int)) is None,
        },
{
    let ghost s = v@.skip(pos as int);
    if pos < v.len() && v[pos] == '-' {
        proof {
            assert(s[0] == '-');
            assert(s.skip(1) =~= v@.skip(pos + 1));
        }
        if pos + 1 == v.len() || !crate::chars::ascii_digit(v[pos + 1]) {
            proof {
                if pos + 1 < v@.len() {
                    assert(v@.skip(pos + 1)[0] == v@[pos + 1]);
                }
            }
            return None;
        }
        proof {
            assert(v@.skip(pos + 1)[0] == v@[pos + 1]);
        }
        let f = e_foldnum(v, pos + 1);
        match f.0 {
            Some(val) => {
                if val > 9223372036854775808u64 {
                    return None;
                }
                let n: i64 = if val == 9223372036854775808u64 {
                    i64::MIN
                } else {
                    -(val as i64)
                };
                Some((n, f.1))
            },
            None => None,
        }
    } else if pos < v.len() && crate::chars::ascii_digit(v[pos]) {
        proof {
            assert(s[0] == v@[pos as int]);
        }
        let f = e_foldnum(v, pos);
        match f.0 {
            Some(val) => {
                if val > 9223372036854775807u64 {
                    return None;
                }
                proof {
                    lemma_fold_numtok_consumes(v@.skip(pos as int), 0);
                }
                Some((val as i64, f.1))
            },
            None => None,
        }
    } else {
        proof {
            if pos < v@.len() {
                assert(s[0] == v@[pos as int]);
            }
        }
        None
    }
}

/// Reads one call argument at `pos`; mirrors [`p_arg`].
fn e_arg(v: &[char], pos: usize) -> (r: Option<(ArgE, usize)>)
    requires
        pos <= v@.len(),
    ensures
        match r {
            Some((a, j)) => pos < j <= v@.len()
                && p_arg(v@.skip(pos as int)) == Some((arg_view(a), v@.skip(j as int))),
            None => p_arg(v@.skip(pos as int)) is None,
        },
{
    if pos < v.len() && crate::chars::ident_start(v[pos]) {
        proof {
            assert(v@.skip(pos as int)[0] == v@[pos as int]);
        }
        let (w, j) = e_ident(v, pos);
        proof {
            assert(is_ident_char(v@[pos as int]));
        }
        Some((ArgE::Ident(w), j))
    } else {
        proof {
            if pos < v@.len() {
                assert(v@.skip(pos as int)[0] == v@[pos as int]);
            }
        }
        match e_numtok(v, pos) {
            Some((n, j)) => Some((ArgE::Num(n), j)),
            None => None,
        }
    }
}

} // verus!

// ---------------------------------------------------------------------------
// Calls and whole tokens, executable.
// ---------------------------------------------------------------------------

verus! {

/// A failure inside the tokenizer: where, and the human-readable cause.
pub(crate) struct Fail {
    pub offset: usize,
    pub cause: String,
}

spec fn argsprep(
    t: Seq<ArgV>,
    o: (Seq<ArgV>, Seq<char>),
) -> (Seq<ArgV>, Seq<char>) {
    (t + o.0, o.1)
}

/// Reads a call's argument list after the opening parenthesis; mirrors
/// [`p_call_args`]. The error carries the position where `)` was owed.
#[verifier::rlimit(60)]
fn e_call_args(v: &[char], pos: usize) -> (r: Result<(Vec<ArgE>, usize), usize>)
    requires
        pos <= v@.len(),
    ensures
        match r {
            Ok((l, j)) => pos < j <= v@.len()
                && p_call_args(v@.skip(pos as int))
                    == Some((l@.map_values(|a: ArgE| arg_view(a)), v@.skip(j as int))),
            Err(off) => p_call_args(v@.skip(pos as int)) is None && off <= v@.len(),
        },
{
    let t = crate::chars::skip_spaces_exec(v, pos);
    match e_arg(v, t) {
        None => {
            if pos < v.len() && v[pos] == ')' {
                proof {
                    assert(v@.skip(pos as int)[0] == ')');
                    assert(v@.skip(pos as int).skip(1) =~= v@.skip(pos + 1));
                }
                let l: Vec<ArgE> = Vec::new();
                proof {
                    assert(l@.map_values(|a: ArgE| arg_view(a)) =~= Seq::<ArgV>::empty());
                }
                Ok((l, pos + 1))
            } else {
                proof {
                    if pos < v@.len() {
                        assert(v@.skip(pos as int)[0] == v@[pos as int]);
                    }
                }
                Err(pos)
            }
        },
        Some((a0, r0)) => {
            let ghost a0v = arg_view(a0);
            let r2 = crate::chars::skip_spaces_exec(v, r0);
            let mut acc: Vec<ArgE> = Vec::new();
            acc.push(a0);
            let mut i: usize = r2;
            proof {
                assert(acc@.map_values(|a: ArgE| arg_view(a)) =~= seq![a0v]);
                assert(seq![a0v] + p_args_rest(v@.skip(r2 as int)).0
                    =~= seq![a0v] + p_args_rest(v@.skip(r2 as int)).0);
            }
            loop
                invariant
                    pos < r2 <= i <= v@.len(),
                    p_call_args(v@.skip(pos as int)) == {
                        let more = argsprep(
                            acc@.map_values(|a: ArgE| arg_view(a)),
                            p_args_rest(v@.skip(i as int)),
                        );
                        if more.1.len() > 0 && more.1[0] == ')' {
                            Some((more.0, more.1.skip(1)))
                        } else {
                            None
                        }
                    },
                decreases v@.len() - i,
            {
                let ghost accv = acc@.map_values(|a: ArgE| arg_view(a));
                if i < v.len() && v[i] == ',' {
                    proof {
                        assert(v@.skip(i as int)[0] == ',');
                        assert(v@.skip(i as int).skip(1) =~= v@.skip(i + 1));
                    }
                    let t2 = crate::chars::skip_spaces_exec(v, i + 1);
                    match e_arg(v, t2) {
                        Some((a, r3)) => {
                            let ghost av = arg_view(a);
                            let r4 = crate::chars::skip_spaces_exec(v, r3);
                            proof {
                                assert(v@.skip(r4 as int).len() < v@.skip(i as int).len());
                                assert(p_args_rest(v@.skip(i as int)) == argsprep(
                                    seq![av],
                                    p_args_rest(v@.skip(r4 as int)),
                                ));
                            }
                            acc.push(a);
                            i = r4;
                            proof {
                                assert(acc@.map_values(|a: ArgE| arg_view(a))
                                    =~= accv.push(av));
                                assert(accv + (seq![av] + p_args_rest(v@.skip(i as int)).0)
                                    =~= accv.push(av) + p_args_rest(v@.skip(i as int)).0);
                            }
                        },
                        None => {
                            proof {
                                assert(p_args_rest(v@.skip(i as int))
                                    == (Seq::<ArgV>::empty(), v@.skip(i as int)));
                                assert(accv + Seq::<ArgV>::empty() =~= accv);
                                assert(v@.skip(i as int)[0] == ',');
                            }
                            return Err(i);
                        },
                    }
                } else {
                    proof {
                        assert(p_args_rest(v@.skip(i as int))
                            == (Seq::<ArgV>::empty(), v@.skip(i as int)));
                        assert(acc@.map_values(|a: ArgE| arg_view(a)) + Seq::<ArgV>::empty()
                            =~= acc@.map_values(|a: ArgE| arg_view(a)));
                    }
                    if i < v.len() && v[i] == ')' {
                        proof {
                            assert(v@.skip(i as int)[0] == ')');
                            assert(v@.skip(i as int).skip(1) =~= v@.skip(i + 1));
                        }
                        return Ok((acc, i + 1));
                    } else {
                        proof {
                            if i < v@.len() {
                                assert(v@.skip(i as int)[0] == v@[i as int]);
                            }
                        }
                        return Err(i);
                    }
                }
            }
        },
    }
}

/// Reads one token standing at `pos` (not whitespace); mirrors
/// [`p_token`]. A hard failure carries its position and cause.
#[verifier::rlimit(60)]
fn e_token(v: &[char], pos: usize) -> (r: Result<(TokenE, usize), Fail>)
    requires
        pos <= v@.len(),
        pos == v@.len() || !is_space_char(v@[pos as int]),
    ensures
        match r {
            Ok((tok, j)) => pos < j <= v@.len()
                && p_token(v@.skip(pos as int)) == Some((token_view(tok), v@.skip(j as int))),
            Err(e) => p_token(v@.skip(pos as int)) is None && e.offset <= v@.len(),
        },
{
    if pos == v.len() {
        return Err(Fail {
            offset: pos,
            cause: String::from_str("got empty input"),
        });
    }
    let c = v[pos];
    proof {
        assert(v@.skip(pos as int)[0] == c);
    }
    if c == '"' {
        proof {
            assert(v@.skip(pos as int).skip(1) =~= v@.skip(pos + 1));
        }
        match strings::e_body(v, pos + 1) {
            Ok((content, j)) => Ok((TokenE::Str(content), j)),
            Err(e) => {
                let cause = match e.fault {
                    strings::StringFault::MissingQuote => String::from_str("expected '\"'"),
                    strings::StringFault::Unclosed => String::from_str(
                        "missing '\"', got end of input",
                    ),
                    strings::StringFault::UnknownEscape => String::from_str("unknown escape"),
                    strings::StringFault::BadUnicodeEscape => String::from_str(
                        "invalid unicode escape",
                    ),
                };
                Err(Fail { offset: e.offset, cause })
            },
        }
    } else if crate::chars::ident_start(c) {
        let (w, j) = e_ident(v, pos);
        let is_func = crate::chars::chars_eq_str(w.as_slice(), "press")
            || crate::chars::chars_eq_str(w.as_slice(), "release")
            || crate::chars::chars_eq_str(w.as_slice(), "delay");
        if is_func {
            if j < v.len() && v[j] == '(' {
                proof {
                    assert(v@.skip(j as int)[0] == '(');
                    assert(v@.skip(j as int).skip(1) =~= v@.skip(j + 1));
                }
                match e_call_args(v, j + 1) {
                    Ok((args, jj)) => Ok((TokenE::Call(w, args), jj)),
                    Err(off) => Err(Fail {
                        offset: off,
                        cause: String::from_str("expected ')'"),
                    }),
                }
            } else {
                proof {
                    if j < v@.len() {
                        assert(v@.skip(j as int)[0] == v@[j as int]);
                    }
                }
                Err(Fail {
                    offset: j,
                    cause: String::from_str("expected ("),
                })
            }
        } else if crate::keycodes::key_exists_chars(w.as_slice()) {
            Ok((TokenE::Key(w), j))
        } else {
            let (u, j2) = e_nonspace(v, pos);
            Ok((TokenE::Unknown(u), j2))
        }
    } else {
        let (u, j2) = e_nonspace(v, pos);
        Ok((TokenE::Unknown(u), j2))
    }
}

} // verus!

// ---------------------------------------------------------------------------
// Positional diagnostics.
// ---------------------------------------------------------------------------

verus! {

/// Newlines in a piece of text.
pub open spec fn count_nl(s: Seq<char>) -> int
    decreases s.len(),
{
    if s.len() == 0 {
        0
    } else {
        (if s[0] == '\n' { 1int } else { 0int }) + count_nl(s.skip(1))
    }
}

/// The 1-based line number of the character offset `off`.
pub open spec fn line_of(s: Seq<char>, off: int) -> int {
    1 + count_nl(s.take(off))
}

/// Where the line holding offset `off` begins.
pub open spec fn line_start(s: Seq<char>, off: int) -> int
    decreases off,
{
    if off <= 0 {
        0
    } else if s[off - 1] == '\n' {
        off
    } else {
        line_start(s, off - 1)
    }
}

/// The 1-based column of the character offset `off` within its line.
pub open spec fn col_of(s: Seq<char>, off: int) -> int {
    off - line_start(s, off) + 1
}

/// Where the line holding offset `i` ends (exclusive).
pub open spec fn line_end(s: Seq<char>, i: int) -> int
    decreases s.len() - i,
{
    if i >= s.len() || i < 0 {
        s.len() as int
    } else if s[i] == '\n' {
        i
    } else {
        line_end(s, i + 1)
    }
}

/// Trailing whitespace removed.
pub open spec fn trim_end_sp(t: Seq<char>) -> Seq<char>
    decreases t.len(),
{
    if t.len() > 0 && is_space_char(t[t.len() - 1]) {
        trim_end_sp(t.take(t.len() - 1))
    } else {
        t
    }
}

/// The source line holding offset `off`, trailing whitespace removed.
pub open spec fn line_text_of(s: Seq<char>, off: int) -> Seq<char> {
    trim_end_sp(s.subrange(line_start(s, off), line_end(s, off)))
}

/// A rejected macro text: the offending position, its line and column,
/// the source line it stands in, and the rendered diagnostic.
#[derive(Debug, Clone, PartialEq)]
pub struct ParseError {
    /// Character offset of the offending text.
    pub offset: usize,
    /// 1-based line number derived from the offset.
    pub line: usize,
    /// 1-based column within that line.
    pub column: usize,
    /// The source line, trailing whitespace removed.
    pub line_text: String,
    /// The full rendered diagnostic.
    pub message: String,
}

proof fn lemma_count_nl_push(t: Seq<char>, c: char)
    ensures
        count_nl(t.push(c)) == count_nl(t) + (if c == '\n' { 1int } else { 0int }),
    decreases t.len(),
{
    if t.len() == 0 {
        assert(t.push(c)[0] == c);
        assert(t.push(c).skip(1) =~= Seq::<char>::empty());
        assert(t =~= Seq::<char>::empty());
    } else {
        assert(t.push(c)[0] == t[0]);
        assert(t.push(c).skip(1) =~= t.skip(1).push(c));
        lemma_count_nl_push(t.skip(1), c);
    }
}

proof fn lemma_count_nl_bound(s: Seq<char>)
    ensures
        0 <= count_nl(s) <= s.len(),
    decreases s.len(),
{
    if s.len() > 0 {
        lemma_count_nl_bound(s.skip(1));
    }
}

/// Builds the diagnostic for the failure `cause` at `offset`.
#[verifier::rlimit(60)]
fn error_at(v: &[char], offset: usize, cause: &str) -> (r: ParseError)
    requires
        offset <= v@.len(),
        offset < usize::MAX,
    ensures
        r.offset == offset,
        r.line == line_of(v@, offset as int),
        r.column == col_of(v@, offset as int),
        r.line_text@ == line_text_of(v@, offset as int),
        r.message@ == "error: "@ + cause@ + seq!['\n'] + "line:column "@
            + crate::digits::nat_digits(line_of(v@, offset as int)) + seq![':']
            + crate::digits::nat_digits(col_of(v@, offset as int)) + seq!['\n']
            + line_text_of(v@, offset as int) + seq!['\n', '\n'],
{
    // line number: newlines before the offset
    let mut nl: u64 = 0;
    let mut i: usize = 0;
    proof {
        assert(v@.take(0) =~= Seq::<char>::empty());
    }
    while i < offset
        invariant
            0 <= i <= offset <= v@.len(),
            nl == count_nl(v@.take(i as int)),
            nl <= i,
        decreases offset - i,
    {
        proof {
            assert(v@.take(i + 1) =~= v@.take(i as int).push(v@[i as int]));
            lemma_count_nl_push(v@.take(i as int), v@[i as int]);
        }
        if v[i] == '\n' {
            nl = nl + 1;
        }
        i += 1;
    }
    let line: usize = (nl as usize) + 1;
    proof {
        lemma_count_nl_bound(v@.take(offset as int));
    }
    // start of the line holding the offset
    let mut ls: usize = 0;
    let mut k: usize = 0;
    while k < offset
        invariant
            0 <= k <= offset <= v@.len(),
            ls == line_start(v@, k as int),
            ls <= k,
        decreases offset - k,
    {
        if v[k] == '\n' {
            ls = k + 1;
        }
        k += 1;
        proof {
            assert(line_start(v@, k as int) == (if v@[k - 1] == '\n' {
                k as int
            } else {
                line_start(v@, k - 1)
            }));
        }
    }
    let column: usize = offset - ls + 1;
    // end of that line
    let mut le: usize = offset;
    while le < v.len() && v[le] != '\n'
        invariant
            offset <= le <= v@.len(),
            line_end(v@, offset as int) == line_end(v@, le as int),
        decreases v@.len() - le,
    {
        le += 1;
    }
    proof {
        assert(line_end(v@, le as int) == le);
    }
    // the line text, trailing whitespace removed
    let mut te: usize = le;
    while te > ls && (v[te - 1] == ' ' || v[te - 1] == '\t' || v[te - 1] == '\r' || v[te - 1]
        == '\n')
        invariant
            ls <= te <= le <= v@.len(),
            trim_end_sp(v@.subrange(ls as int, le as int))
                == trim_end_sp(v@.subrange(ls as int, te as int)),
        decreases te,
    {
        proof {
            let t = v@.subrange(ls as int, te as int);
            assert(t[t.len() - 1] == v@[te - 1]);
            assert(t.take(t.len() - 1) =~= v@.subrange(ls as int, te - 1));
        }
        te -= 1;
    }
    proof {
        let t = v@.subrange(ls as int, te as int);
        if t.len() > 0 {
            assert(t[t.len() - 1] == v@[te - 1]);
        }
        assert(trim_end_sp(t) == t);
    }
    let mut linev: Vec<char> = Vec::new();
    let mut q: usize = ls;
    while q < te
        invariant
            ls <= q <= te <= v@.len(),
            linev@ == v@.subrange(ls as int, q as int),
        decreases te - q,
    {
        linev.push(v[q]);
        q += 1;
        proof {
            assert(linev@ =~= v@.subrange(ls as int, q as int));
        }
    }
    let line_text = crate::chars::chars_to_string(&linev);
    // render the message
    let mut msg: Vec<char> = Vec::new();
    crate::codec::push_str_chars(&mut msg, "error: ");
    crate::codec::push_str_chars(&mut msg, cause);
    msg.push('\n');
    crate::codec::push_str_chars(&mut msg, "line:column ");
    crate::digits::push_u64_digits(&mut msg, line as u64);
    msg.push(':');
    crate::digits::push_u64_digits(&mut msg, column as u64);
    msg.push('\n');
    let ghost before_line = msg@;
    let mut p: usize = 0;
    while p < linev.len()
        invariant
            p <= linev@.len(),
            msg@ == before_line + linev@.take(p as int),
        decreases linev@.len() - p,
    {
        msg.push(linev[p]);
        p += 1;
        proof {
            assert(msg@ =~= before_line + linev@.take(p as int));
        }
    }
    proof {
        assert(before_line + linev@.take(linev@.len() as int) =~= before_line + linev@);
    }
    msg.push('\n');
    msg.push('\n');
    let message = crate::chars::chars_to_string(&msg);
    proof {
        assert(message@ =~= "error: "@ + cause@ + seq!['\n'] + "line:column "@
            + crate::digits::nat_digits(line_of(v@, offset as int)) + seq![':']
            + crate::digits::nat_digits(col_of(v@, offset as int)) + seq!['\n']
            + line_text_of(v@, offset as int) + seq!['\n', '\n']);
    }
    ParseError { offset, line, column, line_text, message }
}

} // verus!

// ---------------------------------------------------------------------------
// Compiling: tokens to actions, executable.
// ---------------------------------------------------------------------------

verus! {

fn push_pr(acts: &mut Vec<Actions>, k: String)
    ensures
        acts_view(final(acts)@) == acts_view(old(acts)@) + pr(k@),
{
    let ghost kv = k@;
    acts.push(Actions::PressAndRelease(k));
    proof {
        assert(acts_view(acts@) =~= acts_view(old(acts)@) + pr(kv));
    }
}

fn push_shifted(acts: &mut Vec<Actions>, key: &str)
    ensures
        acts_view(final(acts)@) == acts_view(old(acts)@) + shifted(key@),
{
    acts.push(Actions::Press(String::from_str("KEY_LEFTSHIFT")));
    acts.push(Actions::Press(String::from_str(key)));
    acts.push(Actions::Release(String::from_str("KEY_LEFTSHIFT")));
    acts.push(Actions::Release(String::from_str(key)));
    proof {
        assert(acts_view(acts@) =~= acts_view(old(acts)@) + shifted(key@));
    }
}

/// The stored identifier of one letter or digit key.
fn single_key_string(c: char) -> (r: String)
    requires
        ('a' <= c && c <= 'z') || ('A' <= c && c <= 'Z') || is_ascii_digit(c),
    ensures
        r@ == "KEY_"@ + seq![crate::chars::spec_upper_char(c)],
{
    let mut kv: Vec<char> = Vec::new();
    kv.push('K');
    kv.push('E');
    kv.push('Y');
    kv.push('_');
    kv.push(crate::chars::upper_char(c));
    proof {
        reveal_strlit("KEY_");
        assert(kv@ =~= "KEY_"@ + seq![crate::chars::spec_upper_char(c)]);
    }
    crate::chars::chars_to_string(&kv)
}

/// Appends what one string-literal character expands to.
fn push_expand_char(acts: &mut Vec<Actions>, c: char)
    ensures
        acts_view(final(acts)@) == acts_view(old(acts)@) + expand_char(c),
{
    if ('a' <= c && c <= 'z') || ('A' <= c && c <= 'Z') || crate::chars::ascii_digit(c) {
        push_pr(acts, single_key_string(c));
    } else if c == '-' {
        push_pr(acts, String::from_str("KEY_MINUS"));
    } else if c == '_' {
        push_shifted(acts, "KEY_MINUS");
    } else if c == '=' {
        push_pr(acts, String::from_str("KEY_EQUAL"));
    } else if c == '+' {
        push_shifted(acts, "KEY_EQUAL");
    } else if c == '\t' {
        push_pr(acts, String::from_str("KEY_TAB"));
    } else if c == '[' {
        push_pr(acts, String::from_str("KEY_LEFTBRACE"));
    } else if c == '{' {
        push_shifted(acts, "KEY_LEFTBRACE");
    } else if c == ']' {
        push_pr(acts, String::from_str("KEY_RIGHTBRACE"));
    } else if c == '}' {
        push_shifted(acts, "KEY_RIGHTBRACE");
    } else if c == '\n' {
        push_pr(acts, String::from_str("KEY_ENTER"));
    } else if c == ';' {
        push_pr(acts, String::from_str("KEY_SEMICOLON"));
    } else if c == ':' {
        push_shifted(acts, "KEY_SEMICOLON");
    } else if c == '\'' {
        push_pr(acts, String::from_str("KEY_APOSTROPHE"));
    } else if c == '"' {
        push_shifted(acts, "KEY_APOSTROPHE");
    } else if c == '`' {
        push_pr(acts, String::from_str("KEY_GRAVE"));
    } else if c == '~' {
        push_shifted(acts, "KEY_GRAVE");
    } else if c == '\\' {
        push_pr(acts, String::from_str("KEY_BACKSLASH"));
    } else if c == '|' {
        push_shifted(acts, "KEY_BACKSLASH");
    } else if c == ',' {
        push_pr(acts, String::from_str("KEY_COMMA"));
    } else if c == '<' {
        push_shifted(acts, "KEY_COMMA");
    } else if c == '.' {
        push_pr(acts, String::from_str("KEY_DOT"));
    } else if c == '>' {
        push_shifted(acts, "KEY_DOT");
    } else if c == '/' {
        push_pr(acts, String::from_str("KEY_SLASH"));
    } else if c == '?' {
        push_shifted(acts, "KEY_SLASH");
    } else if c == ' ' {
        push_pr(acts, String::from_str("KEY_SPACE"));
    } else if c == '!' {
        push_shifted(acts, "KEY_1");
    } else if c == '@' {
        push_shifted(acts, "KEY_2");
    } else if c == '#' {
        push_shifted(acts, "KEY_3");
    } else if c == '$' {
        push_shifted(acts, "KEY_4");
    } else if c == '%' {
        push_shifted(acts, "KEY_5");
    } else if c == '^' {
        push_shifted(acts, "KEY_6");
    } else if c == '&' {
        push_shifted(acts, "KEY_7");
    } else if c == '*' {
        push_shifted(acts, "KEY_8");
    } else if c == '(' {
        push_shifted(acts, "KEY_9");
    } else if c == ')' {
        push_shifted(acts, "KEY_0");
    } else {
        proof {
            assert(acts_view(acts@) =~= acts_view(old(acts)@) + expand_char(c));
        }
    }
}

proof fn lemma_expand_string_push(t: Seq<char>, c: char)
    ensures
        expand_string(t.push(c)) == expand_string(t) + expand_char(c),
    decreases t.len(),
{
    if t.len() == 0 {
        assert(t.push(c)[0] == c);
        assert(t.push(c).skip(1) =~= Seq::<char>::empty());
        assert(t =~= Seq::<char>::empty());
        assert(expand_string(t.push(c)) =~= expand_string(t) + expand_char(c));
    } else {
        assert(t.push(c)[0] == t[0]);
        assert(t.push(c).skip(1) =~= t.skip(1).push(c));
        lemma_expand_string_push(t.skip(1), c);
        assert(expand_string(t.push(c)) =~= expand_string(t) + expand_char(c));
    }
}

/// Appends what a whole string literal expands to.
fn push_expand_string(acts: &mut Vec<Actions>, content: &Vec<char>)
    ensures
        acts_view(final(acts)@) == acts_view(old(acts)@) + expand_string(content@),
{
    let mut i: usize = 0;
    proof {
        assert(expand_string(content@.take(0)) =~= Seq::<ActionV>::empty());
        assert(acts_view(acts@) + Seq::<ActionV>::empty() =~= acts_view(acts@));
    }
    while i < content.len()
        invariant
            i <= content@.len(),
            acts_view(acts@) == acts_view(old(acts)@) + expand_string(content@.take(i as int)),
        decreases content@.len() - i,
    {
        push_expand_char(acts, content[i]);
        i += 1;
        proof {
            assert(content@.take(i as int) =~= content@.take(i - 1).push(content@[i - 1]));
            lemma_expand_string_push(content@.take(i - 1), content@[i - 1]);
            assert(acts_view(acts@) =~= acts_view(old(acts)@)
                + expand_string(content@.take(i as int)));
        }
    }
    proof {
        assert(content@.take(content@.len() as int) =~= content@);
    }
}

/// The diagnostic cause for a token the grammar read but the compiler
/// rejects: an unknown token, a call of the wrong shape, or a call
/// naming a key the table does not have.
pub open spec fn reject_cause(tok: TokenV) -> Seq<char> {
    match tok {
        TokenV::Unknown(u) => "unknown token: "@ + u,
        TokenV::Str(_) => Seq::empty(),
        TokenV::Key(_) => Seq::empty(),
        TokenV::Call(name, args) => {
            if name == "delay"@ {
                if args.len() == 1 && args[0] is Num {
                    Seq::empty()
                } else {
                    "delay is defined as: `delay(number)`"@
                }
            } else if name == "press"@ {
                if args.len() == 1 {
                    match args[0] {
                        ArgV::Ident(k) => if is_key_name(spec_upper(k)) {
                            Seq::empty()
                        } else {
                            "invalid key: "@ + k
                        },
                        _ => "press is defined as: `press(key)`"@,
                    }
                } else {
                    "press is defined as: `press(key)`"@
                }
            } else if name == "release"@ {
                if args.len() == 1 {
                    match args[0] {
                        ArgV::Ident(k) => if is_key_name(spec_upper(k)) {
                            Seq::empty()
                        } else {
                            "invalid key: "@ + k
                        },
                        _ => "release is defined as: `release(key)`"@,
                    }
                } else {
                    "release is defined as: `release(key)`"@
                }
            } else {
                "unknown function"@
            }
        },
    }
}

/// The first token the compiler rejects, scanning from offset `i`:
/// where it starts and what it is. `None` means the text compiles from
/// here, or the tokenizer itself fails before any token is rejected.
pub open spec fn p_reject(v: Seq<char>, i: int) -> Option<(int, TokenV)>
    decreases v.len() - i,
        when 0 <= i <= v.len()
{
    let t = skip_spaces(v.skip(i));
    let tstart = v.len() - t.len();
    match p_token(t) {
        None => None,
        Some((tok, r)) => match expand_token(tok) {
            None => Some((tstart, tok)),
            Some(_) => {
                let j = v.len() - r.len();
                if all_spaces(r) {
                    None
                } else if i < j <= v.len() {
                    p_reject(v, j)
                } else {
                    None
                }
            },
        },
    }
}

/// Compiles macro source text into its ordered action list, or reports
/// the first failure with a positional diagnostic.
#[verifier::rlimit(100)]
pub fn parse(input: String) -> (r: Result<Vec<Actions>, ParseError>)
    ensures
        match r {
            Ok(acts) => p_parse(input@) == Some(acts_view(acts@)),
            Err(e) => p_parse(input@) is None && e.offset <= input@.len()
                && e.line == line_of(input@, e.offset as int)
                && e.column == col_of(input@, e.offset as int)
                && e.line_text@ == line_text_of(input@, e.offset as int)
                && (match p_reject(input@, 0) {
                    Some((off, tok)) => e.offset == off && e.message@ == "error: "@
                        + reject_cause(tok) + seq!['\n'] + "line:column "@
                        + crate::digits::nat_digits(e.line as int) + seq![':']
                        + crate::digits::nat_digits(e.column as int) + seq!['\n']
                        + e.line_text@ + seq!['\n', '\n'],
                    None => true,
                }),
        },
{
    let v = crate::chars::str_to_chars(input.as_str());
    let mut acts: Vec<Actions> = Vec::new();
    let mut i: usize = 0;
    proof {
        assert(v@.skip(0) =~= input@);
        assert(match p_parse_loop(input@) {
            Some(more) => acts_view(acts@) + more =~= more,
            None => true,
        });
    }
    loop
        invariant
            i <= v@.len(),
            v@ == input@,
            p_parse(input@) == match p_parse_loop(v@.skip(i as int)) {
                Some(more) => Some(acts_view(acts@) + more),
                None => None,
            },
            p_reject(input@, 0) == p_reject(input@, i as int),
        decreases v@.len() - i,
    {
        let ghost accv = acts_view(acts@);
        let ghost suf = v@.skip(i as int);
        let t = crate::chars::skip_spaces_exec(v.as_slice(), i);
        match e_token(v.as_slice(), t) {
            Err(f) => {
                let off = if f.offset == usize::MAX {
                    f.offset - 1
                } else {
                    f.offset
                };
                return Err(error_at(v.as_slice(), off, f.cause.as_str()));
            },
            Ok((tok, j)) => {
                let ghost tokv = token_view(tok);
                let ghost exp = expand_token(tokv);
                match tok {
                    TokenE::Str(content) => {
                        push_expand_string(&mut acts, &content);
                        proof {
                            assert(exp == Some(expand_string(content@)));
                        }
                    },
                    TokenE::Key(w) => {
                        let kv = crate::keycodes::stored_key_chars(w.as_slice());
                        let ks = crate::chars::chars_to_string(&kv);
                        push_pr(&mut acts, ks);
                        proof {
                            assert(pr(stored_key_of(w@)) =~= seq![ActionV::PressAndRelease(
                                stored_key_of(w@),
                            )]);
                        }
                    },
                    TokenE::Unknown(u) => {
                        let us = crate::chars::chars_to_string(&u);
                        let cause = String::from_str("unknown token: ").concat(us.as_str());
                        return Err(error_at(v.as_slice(), t, cause.as_str()));
                    },
                    TokenE::Call(name, args) => {
                        let ghost argsv = args@.map_values(|a: ArgE| arg_view(a));
                        if crate::chars::chars_eq_str(name.as_slice(), "delay") {
                            if args.len() != 1 {
                                return Err(error_at(
                                    v.as_slice(),
                                    t,
                                    "delay is defined as: `delay(number)`",
                                ));
                            }
                            match &args[0] {
                                ArgE::Num(n) => {
                                    proof {
                                        assert(argsv[0] == arg_view(args@[0]));
                                    }
                                    acts.push(Actions::Delay(*n));
                                    proof {
                                        assert(acts_view(acts@) =~= accv + seq![ActionV::Delay(
                                            *n as int,
                                        )]);
                                    }
                                },
                                _ => {
                                    proof {
                                        assert(argsv[0] == arg_view(args@[0]));
                                    }
                                    return Err(error_at(
                                        v.as_slice(),
                                        t,
                                        "delay is defined as: `delay(number)`",
                                    ));
                                },
                            }
                        } else if crate::chars::chars_eq_str(name.as_slice(), "press") {
                            if args.len() != 1 {
                                return Err(error_at(
                                    v.as_slice(),
                                    t,
                                    "press is defined as: `press(key)`",
                                ));
                            }
                            match &args[0] {
                                ArgE::Ident(k) => {
                                    proof {
                                        assert(argsv[0] == arg_view(args@[0]));
                                    }
                                    if !crate::keycodes::key_exists_chars(k.as_slice()) {
                                        let ksu = crate::chars::chars_to_string(k);
                                        let cause = String::from_str("invalid key: ").concat(
                                            ksu.as_str(),
                                        );
                                        return Err(error_at(v.as_slice(), t, cause.as_str()));
                                    }
                                    let kv = crate::keycodes::stored_key_chars(k.as_slice());
                                    let ks = crate::chars::chars_to_string(&kv);
                                    acts.push(Actions::Press(ks));
                                    proof {
                                        assert(acts_view(acts@) =~= accv + seq![ActionV::Press(
                                            stored_key_of(k@),
                                        )]);
                                    }
                                },
                                _ => {
                                    proof {
                                        assert(argsv[0] == arg_view(args@[0]));
                                    }
                                    return Err(error_at(
                                        v.as_slice(),
                                        t,
                                        "press is defined as: `press(key)`",
                                    ));
                                },
                            }
                        } else if crate::chars::chars_eq_str(name.as_slice(), "release") {
                            if args.len() != 1 {
                                return Err(error_at(
                                    v.as_slice(),
                                    t,
                                    "release is defined as: `release(key)`",
                                ));
                            }
                            match &args[0] {
                                ArgE::Ident(k) => {
                                    proof {
                                        assert(argsv[0] == arg_view(args@[0]));
                                    }
                                    if !crate::keycodes::key_exists_chars(k.as_slice()) {
                                        let ksu = crate::chars::chars_to_string(k);
                                        let cause = String::from_str("invalid key: ").concat(
                                            ksu.as_str(),
                                        );
                                        return Err(error_at(v.as_slice(), t, cause.as_str()));
                                    }
                                    let kv = crate::keycodes::stored_key_chars(k.as_slice());
                                    let ks = crate::chars::chars_to_string(&kv);
                                    acts.push(Actions::Release(ks));
                                    proof {
                                        assert(acts_view(acts@) =~= accv + seq![ActionV::Release(
                                            stored_key_of(k@),
                                        )]);
                                    }
                                },
                                _ => {
                                    proof {
                                        assert(argsv[0] == arg_view(args@[0]));
                                    }
                                    return Err(error_at(
                                        v.as_slice(),
                                        t,
                                        "release is defined as: `release(key)`",
                                    ));
                                },
                            }
                        } else {
                            return Err(error_at(v.as_slice(), t, "unknown function"));
                        }
                    },
                }
                let k2 = crate::chars::skip_spaces_exec(v.as_slice(), j);
                if k2 == v.len() {
                    proof {
                        assert(all_spaces(v@.skip(j as int)));
                        assert(acts_view(acts@) =~= accv + expand_token(tokv).unwrap());
                    }
                    return Ok(acts);
                }
                proof {
                    assert(!all_spaces(v@.skip(j as int)));
                    assert(v@.skip(j as int).len() < suf.len());
                    assert(acts_view(acts@) =~= accv + expand_token(tokv).unwrap());
                    assert(p_parse(input@) == match p_parse_loop(v@.skip(j as int)) {
                        Some(more) => Some(acts_view(acts@) + more),
                        None => None,
                    }) by {
                        match p_parse_loop(v@.skip(j as int)) {
                            Some(more) => {
                                assert(accv + (expand_token(tokv).unwrap() + more)
                                    =~= acts_view(acts@) + more);
                            },
                            None => {},
                        }
                    };
                }
                i = j;
            },
        }
    }
}

} // verus!

// ---------------------------------------------------------------------------
// Canonical re-serialization.
// ---------------------------------------------------------------------------

verus! {

/// A stored key the canonical writer can put back into source form:
/// `KEY_` and a table name that is a well-shaped identifier.
pub open spec fn canon_key(k: Seq<char>) -> bool {
    &&& crate::keycodes::is_stored_key(k)
    &&& is_ident_start(k[4])
    &&& forall|i: int| 4 <= i < k.len() ==> is_ident_char(#[trigger] k[i])
}

/// An action the canonical writer handles.
pub open spec fn canon_action(a: ActionV) -> bool {
    match a {
        ActionV::PressAndRelease(k) => canon_key(k),
        ActionV::Press(k) => canon_key(k),
        ActionV::Release(k) => canon_key(k),
        ActionV::Delay(n) => i64::MIN <= n <= i64::MAX,
    }
}

/// The canonical source form of one action.
pub open spec fn ser_action(a: ActionV) -> Seq<char> {
    match a {
        ActionV::PressAndRelease(k) => k.skip(4),
        ActionV::Press(k) => "press("@ + k.skip(4) + ")"@,
        ActionV::Release(k) => "release("@ + k.skip(4) + ")"@,
        ActionV::Delay(n) => "delay("@ + crate::digits::int_digits(n) + ")"@,
    }
}

/// The canonical source form of a whole list: tokens joined by single
/// spaces.
pub open spec fn ser_actions(l: Seq<ActionV>) -> Seq<char>
    decreases l.len(),
{
    if l.len() == 0 {
        Seq::empty()
    } else if l.len() == 1 {
        ser_action(l[0])
    } else {
        ser_action(l[0]) + seq![' '] + ser_actions(l.skip(1))
    }
}

/// Writes the table name of a stored key (everything after `KEY_`).
fn push_key_name(out: &mut Vec<char>, k: &str)
    requires
        k@.len() >= 4,
    ensures
        final(out)@ == old(out)@ + k@.skip(4),
{
    let v = crate::chars::str_to_chars(k);
    let mut i: usize = 4;
    proof {
        assert(k@.skip(4).take(0) =~= Seq::<char>::empty());
        assert(out@ + Seq::<char>::empty() =~= out@);
    }
    while i < v.len()
        invariant
            4 <= i <= v@.len(),
            v@ == k@,
            out@ == old(out)@ + k@.skip(4).take(i - 4),
        decreases v@.len() - i,
    {
        out.push(v[i]);
        i += 1;
        proof {
            assert(out@ =~= old(out)@ + k@.skip(4).take(i - 4));
        }
    }
    proof {
        assert(k@.skip(4).take(k@.len() - 4) =~= k@.skip(4));
    }
}

/// Is this key in the canonical writer's domain?
fn canon_key_exec(k: &str) -> (r: bool)
    ensures
        r == canon_key(k@),
{
    if !crate::keycodes::is_valid_stored_key(k) {
        return false;
    }
    let v = crate::chars::str_to_chars(k);
    if !crate::chars::ident_start(v[4]) {
        return false;
    }
    let mut i: usize = 4;
    while i < v.len()
        invariant
            4 <= i <= v@.len(),
            v@ == k@,
            k@.len() >= 5,
            forall|j: int| 4 <= j < i ==> is_ident_char(#[trigger] k@[j]),
        decreases v@.len() - i,
    {
        if !crate::chars::ident_char(v[i]) {
            return false;
        }
        i += 1;
    }
    true
}

/// Adding one more action to a non-empty list appends a space and its
/// form.
proof fn lemma_ser_actions_push(l: Seq<ActionV>, a: ActionV)
    requires
        l.len() >= 1,
    ensures
        ser_actions(l.push(a)) == ser_actions(l) + seq![' '] + ser_action(a),
    decreases l.len(),
{
    if l.len() == 1 {
        assert(l.push(a)[0] == l[0]);
        assert(l.push(a).skip(1) =~= seq![a]);
        assert(ser_actions(seq![a]) == ser_action(a)) by {
            assert(seq![a].len() == 1);
            assert(seq![a][0] == a);
        };
        assert(ser_actions(l.push(a)) =~= ser_actions(l) + seq![' '] + ser_action(a));
    } else {
        assert(l.push(a)[0] == l[0]);
        assert(l.push(a).skip(1) =~= l.skip(1).push(a));
        lemma_ser_actions_push(l.skip(1), a);
        assert(ser_actions(l.push(a)) =~= ser_actions(l) + seq![' '] + ser_action(a));
    }
}

/// Writes a compiled action list back into canonical macro source.
/// `None` exactly when some action's key is outside the writer's
/// domain (not a well-shaped stored identifier of the table).
pub fn serialize_actions(l: &Vec<Actions>) -> (r: Option<String>)
    ensures
        match r {
            Some(s) => s@ == ser_actions(acts_view(l@))
                && forall|i: int| 0 <= i < l@.len() ==> canon_action(#[trigger] acts_view(l@)[i]),
            None => exists|i: int| 0 <= i < l@.len() && !canon_action(#[trigger] acts_view(l@)[i]),
        },
{
    let ghost lv = acts_view(l@);
    let mut out: Vec<char> = Vec::new();
    let mut i: usize = 0;
    proof {
        assert(lv.len() == l@.len());
        assert(ser_actions(lv.take(0)) =~= Seq::<char>::empty());
        assert(out@ =~= Seq::<char>::empty());
    }
    while i < l.len()
        invariant
            i <= l@.len(),
            lv == acts_view(l@),
            lv.len() == l@.len(),
            out@ == ser_actions(lv.take(i as int)),
            forall|j: int| 0 <= j < i ==> canon_action(#[trigger] lv[j]),
        decreases l@.len() - i,
    {
        proof {
            assert(lv[i as int] == l@[i as int]@);
        }
        if i > 0 {
            out.push(' ');
        }
        let ghost outsp = out@;
        match &l[i] {
            Actions::PressAndRelease(k) => {
                if !canon_key_exec(k.as_str()) {
                    return None;
                }
                push_key_name(&mut out, k.as_str());
            },
            Actions::Press(k) => {
                if !canon_key_exec(k.as_str()) {
                    return None;
                }
                crate::codec::push_str_chars(&mut out, "press(");
                push_key_name(&mut out, k.as_str());
                crate::codec::push_str_chars(&mut out, ")");
            },
            Actions::Release(k) => {
                if !canon_key_exec(k.as_str()) {
                    return None;
                }
                crate::codec::push_str_chars(&mut out, "release(");
                push_key_name(&mut out, k.as_str());
                crate::codec::push_str_chars(&mut out, ")");
            },
            Actions::Delay(n) => {
                crate::codec::push_str_chars(&mut out, "delay(");
                crate::digits::push_i64_digits(&mut out, *n);
                crate::codec::push_str_chars(&mut out, ")");
            },
        }
        i += 1;
        proof {
            assert(out@ =~= outsp + ser_action(lv[i - 1]));
            if i == 1 {
                assert(lv.take(1) =~= seq![lv[0]]);
                assert(seq![lv[0]].len() == 1);
                assert(out@ =~= ser_actions(lv.take(1)));
            } else {
                assert(lv.take(i as int) =~= lv.take(i - 1).push(lv[i - 1]));
                lemma_ser_actions_push(lv.take(i - 1), lv[i - 1]);
                assert(out@ =~= ser_actions(lv.take(i as int)));
            }
        }
    }
    proof {
        assert(lv.take(lv.len() as int) =~= lv);
    }
    Some(crate::chars::chars_to_string(&out))
}

} // verus!

// ---------------------------------------------------------------------------
// Re-parsing the canonical form.
// ---------------------------------------------------------------------------

verus! {

proof fn lemma_skip_spaces_concat(lead: Seq<char>, x: Seq<char>)
    requires
        forall|i: int| 0 <= i < lead.len() ==> is_space_char(#[trigger] lead[i]),
        x.len() == 0 || !is_space_char(x[0]),
    ensures
        skip_spaces(lead + x) == skip_spaces(x),
        skip_spaces(x) == x,
    decreases lead.len(),
{
    if x.len() > 0 {
        assert(skip_spaces(x) == x);
    }
    if lead.len() == 0 {
        assert(lead + x =~= x);
    } else {
        let s = lead + x;
        assert(s[0] == lead[0]);
        assert(s.skip(1) =~= lead.skip(1) + x);
        lemma_skip_spaces_concat(lead.skip(1), x);
    }
}

proof fn lemma_scan_ident_complete(w: Seq<char>, rest: Seq<char>)
    requires
        forall|i: int| 0 <= i < w.len() ==> is_ident_char(#[trigger] w[i]),
        rest.len() == 0 || !is_ident_char(rest[0]),
    ensures
        scan_ident(w + rest) == (w, rest),
    decreases w.len(),
{
    if w.len() == 0 {
        assert(w + rest =~= rest);
        assert(scan_ident(rest) == (Seq::<char>::empty(), rest));
        assert(w =~= Seq::<char>::empty());
    } else {
        let s = w + rest;
        assert(s[0] == w[0]);
        assert(s.skip(1) =~= w.skip(1) + rest);
        assert(forall|i: int| 0 <= i < w.skip(1).len() ==> is_ident_char(#[trigger] w.skip(1)[i]))
            by {
            assert(forall|i: int| 0 <= i < w.skip(1).len() ==> w.skip(1)[i] == w[i + 1]);
        };
        lemma_scan_ident_complete(w.skip(1), rest);
        assert(seq![w[0]] + w.skip(1) =~= w);
    }
}

proof fn lemma_fold_numtok_shift(n: int, rest: Seq<char>, acc: int)
    requires
        n >= 0,
    ensures
        fold_numtok(crate::digits::nat_digits(n) + rest, acc) == fold_numtok(
            rest,
            acc * crate::digits::pow10(crate::digits::nat_digits(n).len()) + n,
        ),
    decreases n,
{
    crate::digits::lemma_nat_digits_are_digits(n);
    if n < 10 {
        let s = crate::digits::nat_digits(n) + rest;
        assert(s[0] == crate::digits::nat_digits(n)[0]);
        assert(s.skip(1) =~= rest);
        assert(crate::digits::pow10(0) == 1);
        assert(crate::digits::pow10(1) == 10);
        assert(crate::digits::digit_val(crate::digits::nat_digits(n)[0]) == n) by {
            crate::digits::lemma_fold_digits_of(n, Seq::<char>::empty());
            assert(crate::digits::nat_digits(n) + Seq::<char>::empty()
                =~= crate::digits::nat_digits(n));
        };
    } else {
        let a = crate::digits::nat_digits(n / 10);
        let d = crate::digits::nat_digits(n).last();
        assert(crate::digits::nat_digits(n) =~= a + seq![crate::digits::digit_char(n % 10)]);
        let tail = seq![crate::digits::digit_char(n % 10)] + rest;
        assert(crate::digits::nat_digits(n) + rest =~= a + tail);
        lemma_fold_numtok_shift(n / 10, tail, acc);
        assert(tail[0] == crate::digits::digit_char(n % 10));
        assert(tail.skip(1) =~= rest);
        assert(is_ascii_digit(tail[0]) && crate::digits::digit_val(tail[0]) == n % 10) by {
            crate::digits::lemma_fold_digits_of(n % 10, Seq::<char>::empty());
            assert(crate::digits::nat_digits(n % 10) + Seq::<char>::empty()
                =~= crate::digits::nat_digits(n % 10));
        };
        let acc1 = acc * crate::digits::pow10(a.len()) + n / 10;
        assert(fold_numtok(tail, acc1) == fold_numtok(rest, acc1 * 10 + n % 10));
        assert(crate::digits::nat_digits(n).len() == a.len() + 1);
        assert(acc1 * 10 + n % 10 == acc * crate::digits::pow10(a.len() + 1) + n) by {
            assert((acc * crate::digits::pow10(a.len()) + n / 10) * 10
                == acc * crate::digits::pow10(a.len()) * 10 + (n / 10) * 10) by (nonlinear_arith);
            assert(acc * crate::digits::pow10(a.len()) * 10
                == acc * (crate::digits::pow10(a.len()) * 10)) by (nonlinear_arith);
            assert(crate::digits::pow10(a.len()) * 10 == crate::digits::pow10(a.len() + 1)) by {
                assert(crate::digits::pow10(a.len() + 1) == 10 * crate::digits::pow10(a.len()));
            };
            assert((n / 10) * 10 + n % 10 == n) by (nonlinear_arith)
                requires n >= 0;
        };
    }
}

proof fn lemma_p_numtok_ser(n: int, rest: Seq<char>)
    requires
        i64::MIN <= n <= i64::MAX,
        rest.len() > 0,
        !is_ascii_digit(rest[0]),
        rest[0] != '_',
    ensures
        p_numtok(crate::digits::int_digits(n) + rest) == Some((n, rest)),
{
    let s = crate::digits::int_digits(n) + rest;
    if n < 0 {
        let m = -n;
        assert(crate::digits::int_digits(n) =~= seq!['-'] + crate::digits::nat_digits(m));
        assert(s =~= seq!['-'] + (crate::digits::nat_digits(m) + rest));
        assert(s[0] == '-');
        assert(s.skip(1) =~= crate::digits::nat_digits(m) + rest);
        crate::digits::lemma_nat_digits_are_digits(m);
        assert((crate::digits::nat_digits(m) + rest)[0] == crate::digits::nat_digits(m)[0]);
        lemma_fold_numtok_shift(m, rest, 0);
        assert(0 * crate::digits::pow10(crate::digits::nat_digits(m).len()) == 0)
            by (nonlinear_arith);
    } else {
        crate::digits::lemma_nat_digits_are_digits(n);
        assert(s[0] == crate::digits::nat_digits(n)[0]);
        assert(is_ascii_digit(s[0]));
        assert(s[0] != '-');
        lemma_fold_numtok_shift(n, rest, 0);
        assert(0 * crate::digits::pow10(crate::digits::nat_digits(n).len()) == 0)
            by (nonlinear_arith);
    }
}

/// An upper-case-canonical identifier is none of the call names.
proof fn lemma_canon_not_func(w: Seq<char>)
    requires
        spec_upper(w) == w,
        w.len() > 0,
    ensures
        !is_func_name(w),
{
    reveal_strlit("press");
    reveal_strlit("release");
    reveal_strlit("delay");
    if w == "press"@ {
        assert(spec_upper(w)[0] == crate::chars::spec_upper_char('p'));
        assert(crate::chars::spec_upper_char('p') != 'p');
    }
    if w == "release"@ {
        assert(spec_upper(w)[0] == crate::chars::spec_upper_char('r'));
        assert(crate::chars::spec_upper_char('r') != 'r');
    }
    if w == "delay"@ {
        assert(spec_upper(w)[0] == crate::chars::spec_upper_char('d'));
        assert(crate::chars::spec_upper_char('d') != 'd');
    }
}

/// The token the canonical form of an action reads back as.
pub open spec fn tok_of(a: ActionV) -> TokenV {
    match a {
        ActionV::PressAndRelease(k) => TokenV::Key(k.skip(4)),
        ActionV::Press(k) => TokenV::Call("press"@, seq![ArgV::Ident(k.skip(4))]),
        ActionV::Release(k) => TokenV::Call("release"@, seq![ArgV::Ident(k.skip(4))]),
        ActionV::Delay(n) => TokenV::Call("delay"@, seq![ArgV::Num(n)]),
    }
}

proof fn lemma_canon_key_parts(k: Seq<char>)
    requires
        canon_key(k),
    ensures
        k.skip(4).len() >= 1,
        is_ident_start(k.skip(4)[0]),
        forall|i: int| 0 <= i < k.skip(4).len() ==> is_ident_char(#[trigger] k.skip(4)[i]),
        spec_upper(k.skip(4)) == k.skip(4),
        crate::keycodes::is_key_name(k.skip(4)),
        "KEY_"@ + k.skip(4) == k,
        !is_space_char(k.skip(4)[0]),
{
    assert(forall|i: int| 0 <= i < k.skip(4).len() ==> k.skip(4)[i] == k[i + 4]);
    assert(k.skip(4)[0] == k[4]);
    assert("KEY_"@ + k.skip(4) =~= k) by {
        assert(k.take(4) == "KEY_"@);
        assert(forall|i: int| 0 <= i < 4 ==> k.take(4)[i] == k[i]);
    };
    reveal_strlit("KEY_");
}

#[verifier::rlimit(100)]
proof fn lemma_token_ser(a: ActionV, rest: Seq<char>)
    requires
        canon_action(a),
        rest.len() == 0 || rest[0] == ' ',
    ensures
        p_token(ser_action(a) + rest) == Some((tok_of(a), rest)),
        expand_token(tok_of(a)) == Some(seq![a]),
    decreases 1int,
{
    reveal_strlit("press");
    reveal_strlit("release");
    reveal_strlit("delay");
    reveal_strlit("press(");
    reveal_strlit("release(");
    reveal_strlit("delay(");
    reveal_strlit(")");
    let s = ser_action(a) + rest;
    match a {
        ActionV::PressAndRelease(k) => {
            lemma_canon_key_parts(k);
            let w = k.skip(4);
            assert(s =~= w + rest);
            assert(s[0] == w[0]);
            assert(rest.len() == 0 || !is_ident_char(rest[0]));
            lemma_scan_ident_complete(w, rest);
            lemma_canon_not_func(w);
            assert(crate::keycodes::is_key_name(spec_upper(w)));
            assert(p_token(s) == Some((TokenV::Key(w), rest)));
            assert(crate::keycodes::stored_key_of(w) == k);
            assert(expand_token(tok_of(a)) == Some(seq![a]));
        },
        ActionV::Press(k) => {
            lemma_canon_key_parts(k);
            let w = k.skip(4);
            let inner = w + (")"@ + rest);
            assert(s =~= "press"@ + (seq!['('] + inner));
            assert(s[0] == 'p');
            assert(forall|i: int| 0 <= i < "press"@.len()
                ==> is_ident_char(#[trigger] "press"@[i]));
            assert(!is_ident_char('('));
            assert((seq!['('] + inner)[0] == '(');
            lemma_scan_ident_complete("press"@, seq!['('] + inner);
            assert((seq!['('] + inner).skip(1) =~= inner);
            // the argument list
            assert(inner[0] == w[0]);
            assert(!is_space_char(w[0]));
            lemma_skip_spaces_concat(Seq::<char>::empty(), inner);
            assert(Seq::<char>::empty() + inner =~= inner);
            assert((")"@ + rest)[0] == ')');
            assert(!is_ident_char(')'));
            lemma_scan_ident_complete(w, ")"@ + rest);
            let r2 = ")"@ + rest;
            assert(skip_spaces(r2) == r2);
            assert(r2[0] != ',');
            assert(p_args_rest(r2) == (Seq::<ArgV>::empty(), r2));
            assert(seq![ArgV::Ident(w)] + Seq::<ArgV>::empty() =~= seq![ArgV::Ident(w)]);
            assert(r2.skip(1) =~= rest);
            assert(p_call_args(inner) == Some((seq![ArgV::Ident(w)], rest)));
            assert(p_token(s) == Some((TokenV::Call("press"@, seq![ArgV::Ident(w)]), rest)));
            assert(crate::keycodes::stored_key_of(w) == k);
            assert(expand_token(tok_of(a)) == Some(seq![a]));
        },
        ActionV::Release(k) => {
            lemma_canon_key_parts(k);
            let w = k.skip(4);
            let inner = w + (")"@ + rest);
            assert(s =~= "release"@ + (seq!['('] + inner));
            assert(s[0] == 'r');
            assert(forall|i: int| 0 <= i < "release"@.len()
                ==> is_ident_char(#[trigger] "release"@[i]));
            assert(!is_ident_char('('));
            assert((seq!['('] + inner)[0] == '(');
            lemma_scan_ident_complete("release"@, seq!['('] + inner);
            assert((seq!['('] + inner).skip(1) =~= inner);
            assert(inner[0] == w[0]);
            assert(!is_space_char(w[0]));
            lemma_skip_spaces_concat(Seq::<char>::empty(), inner);
            assert(Seq::<char>::empty() + inner =~= inner);
            assert((")"@ + rest)[0] == ')');
            assert(!is_ident_char(')'));
            lemma_scan_ident_complete(w, ")"@ + rest);
            let r2 = ")"@ + rest;
            assert(skip_spaces(r2) == r2);
            assert(r2[0] != ',');
            assert(p_args_rest(r2) == (Seq::<ArgV>::empty(), r2));
            assert(seq![ArgV::Ident(w)] + Seq::<ArgV>::empty() =~= seq![ArgV::Ident(w)]);
            assert(r2.skip(1) =~= rest);
            assert(p_call_args(inner) == Some((seq![ArgV::Ident(w)], rest)));
            assert(p_token(s) == Some((TokenV::Call("release"@, seq![ArgV::Ident(w)]), rest)));
            assert(crate::keycodes::stored_key_of(w) == k);
            assert(expand_token(tok_of(a)) == Some(seq![a]));
        },
        ActionV::Delay(n) => {
            let digits = crate::digits::int_digits(n);
            let inner = digits + (")"@ + rest);
            assert(s =~= "delay"@ + (seq!['('] + inner));
            assert(s[0] == 'd');
            assert(forall|i: int| 0 <= i < "delay"@.len()
                ==> is_ident_char(#[trigger] "delay"@[i]));
            assert(!is_ident_char('('));
            assert((seq!['('] + inner)[0] == '(');
            lemma_scan_ident_complete("delay"@, seq!['('] + inner);
            assert((seq!['('] + inner).skip(1) =~= inner);
            // the numeric argument
            crate::digits::lemma_nat_digits_are_digits(if n < 0 { -n } else { n });
            assert(inner[0] == digits[0]);
            if n < 0 {
                assert(digits =~= seq!['-'] + crate::digits::nat_digits(-n));
                assert(digits[0] == '-');
            } else {
                assert(digits[0] == crate::digits::nat_digits(n)[0]);
            }
            assert(!is_space_char(inner[0]));
            lemma_skip_spaces_concat(Seq::<char>::empty(), inner);
            assert(Seq::<char>::empty() + inner =~= inner);
            assert(!is_ident_start(inner[0]));
            assert((")"@ + rest)[0] == ')');
            lemma_p_numtok_ser(n, ")"@ + rest);
            let r2 = ")"@ + rest;
            assert(skip_spaces(r2) == r2);
            assert(r2[0] != ',');
            assert(p_args_rest(r2) == (Seq::<ArgV>::empty(), r2));
            assert(seq![ArgV::Num(n)] + Seq::<ArgV>::empty() =~= seq![ArgV::Num(n)]);
            assert(r2.skip(1) =~= rest);
            assert(p_call_args(inner) == Some((seq![ArgV::Num(n)], rest)));
            assert(p_token(s) == Some((TokenV::Call("delay"@, seq![ArgV::Num(n)]), rest)));
            assert(expand_token(tok_of(a)) == Some(seq![a]));
        },
    }
}

proof fn lemma_ser_action_shape(a: ActionV)
    requires
        canon_action(a),
    ensures
        ser_action(a).len() > 0,
        !is_space_char(ser_action(a)[0]),
{
    reveal_strlit("press(");
    reveal_strlit("release(");
    reveal_strlit("delay(");
    match a {
        ActionV::PressAndRelease(k) => {
            lemma_canon_key_parts(k);
        },
        ActionV::Press(k) => {
            assert(ser_action(a)[0] == "press("@[0]);
        },
        ActionV::Release(k) => {
            assert(ser_action(a)[0] == "release("@[0]);
        },
        ActionV::Delay(n) => {
            assert(ser_action(a)[0] == "delay("@[0]);
        },
    }
}

proof fn lemma_parse_loop_ser(l: Seq<ActionV>, lead: Seq<char>)
    requires
        l.len() > 0,
        forall|i: int| 0 <= i < l.len() ==> canon_action(#[trigger] l[i]),
        forall|i: int| 0 <= i < lead.len() ==> is_space_char(#[trigger] lead[i]),
    ensures
        p_parse_loop(lead + ser_actions(l)) == Some(l),
    decreases l.len(),
{
    let body = ser_actions(l);
    let s = lead + body;
    lemma_ser_action_shape(l[0]);
    if l.len() == 1 {
        assert(body == ser_action(l[0]));
        lemma_skip_spaces_concat(lead, body);
        assert(skip_spaces(s) == body);
        assert(ser_action(l[0]) + Seq::<char>::empty() =~= body);
        lemma_token_ser(l[0], Seq::<char>::empty());
        assert(p_token(body) == Some((tok_of(l[0]), Seq::<char>::empty())));
        assert(all_spaces(Seq::<char>::empty()));
        assert(seq![l[0]] =~= l);
    } else {
        let tail = ser_actions(l.skip(1));
        let rest = seq![' '] + tail;
        assert(body =~= ser_action(l[0]) + rest);
        lemma_skip_spaces_concat(lead, body);
        assert(skip_spaces(s) == body);
        assert(rest[0] == ' ');
        lemma_token_ser(l[0], rest);
        assert(p_token(body) == Some((tok_of(l[0]), rest)));
        // what remains is not just whitespace
        assert(forall|i: int| 0 <= i < l.skip(1).len() ==> canon_action(#[trigger] l.skip(1)[i]))
            by {
            assert(forall|i: int| 0 <= i < l.skip(1).len() ==> l.skip(1)[i] == l[i + 1]);
        };
        lemma_ser_action_shape(l.skip(1)[0]);
        assert(tail.len() > 0 && !is_space_char(tail[0])) by {
            if l.skip(1).len() == 1 {
                assert(tail == ser_action(l.skip(1)[0]));
            } else {
                assert(tail =~= ser_action(l.skip(1)[0]) + (seq![' ']
                    + ser_actions(l.skip(1).skip(1))));
                assert(tail[0] == ser_action(l.skip(1)[0])[0]);
            }
        };
        lemma_skip_spaces_concat(seq![' '], tail);
        assert(skip_spaces(rest) == tail);
        assert(!all_spaces(rest));
        assert(rest.len() < s.len());
        lemma_parse_loop_ser(l.skip(1), seq![' ']);
        assert(p_parse_loop(rest) == Some(l.skip(1)));
        assert(seq![l[0]] + l.skip(1) =~= l);
    }
}

/// Re-parsing the canonical re-serialization of a compiled action list
/// yields the same list: the compiler is idempotent on its own output.
/// Stated over the spec functions of [`parse`] and
/// [`serialize_actions`], for every non-empty list whose keys are in
/// the writer's domain.
pub proof fn lemma_reserialize_parse(l: Seq<ActionV>)
    requires
        l.len() > 0,
        forall|i: int| 0 <= i < l.len() ==> canon_action(#[trigger] l[i]),
    ensures
        p_parse(ser_actions(l)) == Some(l),
{
    lemma_parse_loop_ser(l, Seq::<char>::empty());
    assert(Seq::<char>::empty() + ser_actions(l) =~= ser_actions(l));
}

} // verus!

// ---------------------------------------------------------------------------
// Tolerant tokenization for highlighting.
// ---------------------------------------------------------------------------

verus! {

/// What a highlighted region is.
#[derive(Debug, Clone, Copy, PartialEq, Eq, Structural)]
pub enum SpanKind {
    /// A string literal.
    Str,
    /// A recognized call.
    Call,
    /// A keyword naming a key.
    Key,
}

/// One highlighted region: `len` characters from `start` (the region
/// begins at the previous token's end, so it may cover leading
/// whitespace, exactly as the editor tags it).
#[derive(Debug, Clone, Copy, PartialEq, Eq, Structural)]
pub struct Span {
    pub start: usize,
    pub len: usize,
    pub kind: SpanKind,
}

/// The regions the tolerant pass tags, scanning from offset `i`.
/// Unrecognized tokens are passed over without a tag; a hard failure
/// (malformed string, call without its parentheses) stops the scan.
pub open spec fn p_spans(v: Seq<char>, i: int) -> Seq<(int, int, SpanKind)>
    decreases v.len() - i,
        when 0 <= i <= v.len()
{
    let t = skip_spaces(v.skip(i));
    match p_token(t) {
        None => Seq::empty(),
        Some((tok, r)) => {
            let j = v.len() - r.len();
            let here: Seq<(int, int, SpanKind)> = match tok {
                TokenV::Str(_) => seq![(i, j - i, SpanKind::Str)],
                TokenV::Call(_, _) => seq![(i, j - i, SpanKind::Call)],
                TokenV::Key(_) => seq![(i, j - i, SpanKind::Key)],
                TokenV::Unknown(_) => Seq::empty(),
            };
            if all_spaces(r) || !(i < j <= v.len()) {
                here
            } else {
                here + p_spans(v, j)
            }
        },
    }
}

pub open spec fn spans_view(l: Seq<Span>) -> Seq<(int, int, SpanKind)> {
    l.map_values(|s: Span| (s.start as int, s.len as int, s.kind))
}

/// The tolerant tokenization mode: tags every recognized token for the
/// editor and never reports an error; it stops where no further token
/// can be read.
#[verifier::rlimit(100)]
pub fn highlight_spans(input: &str) -> (r: Vec<Span>)
    ensures
        spans_view(r@) == p_spans(input@, 0),
{
    let v = crate::chars::str_to_chars(input);
    let mut out: Vec<Span> = Vec::new();
    let mut i: usize = 0;
    proof {
        assert(v@ == input@);
        assert(spans_view(out@) =~= Seq::<(int, int, SpanKind)>::empty());
        assert(Seq::<(int, int, SpanKind)>::empty() + p_spans(input@, 0) =~= p_spans(input@, 0));
    }
    loop
        invariant
            0 <= i <= v@.len(),
            v@ == input@,
            p_spans(input@, 0) == spans_view(out@) + p_spans(input@, i as int),
        decreases v@.len() - i,
    {
        let ghost outv = spans_view(out@);
        let t = crate::chars::skip_spaces_exec(v.as_slice(), i);
        match e_token(v.as_slice(), t) {
            Err(_) => {
                proof {
                    assert(p_spans(input@, i as int) =~= Seq::<(int, int, SpanKind)>::empty());
                    assert(outv + Seq::<(int, int, SpanKind)>::empty() =~= outv);
                }
                return out;
            },
            Ok((tok, j)) => {
                let ghost jj = v@.len() - v@.skip(j as int).len();
                proof {
                    assert(jj == j as int);
                }
                let kind: Option<SpanKind> = match &tok {
                    TokenE::Str(_) => Some(SpanKind::Str),
                    TokenE::Call(_, _) => Some(SpanKind::Call),
                    TokenE::Key(_) => Some(SpanKind::Key),
                    TokenE::Unknown(_) => None,
                };
                let ghost oldout = out@;
                match kind {
                    Some(kd) => {
                        out.push(Span { start: i, len: j - i, kind: kd });
                        proof {
                            assert(spans_view(oldout).len() == oldout.len());
                            assert(spans_view(out@) =~= outv.push(
                                (i as int, j - i, kd),
                            ));
                        }
                    },
                    None => {},
                }
                let k2 = crate::chars::skip_spaces_exec(v.as_slice(), j);
                if k2 == v.len() {
                    proof {
                        assert(all_spaces(v@.skip(j as int)));
                        let here = p_spans(input@, i as int);
                        assert(spans_view(out@) =~= outv + (match token_view(tok) {
                            TokenV::Str(_) => seq![(i as int, j - i, SpanKind::Str)],
                            TokenV::Call(_, _) => seq![(i as int, j - i, SpanKind::Call)],
                            TokenV::Key(_) => seq![(i as int, j - i, SpanKind::Key)],
                            TokenV::Unknown(_) => Seq::<(int, int, SpanKind)>::empty(),
                        }));
                        assert(p_spans(input@, 0) =~= spans_view(out@));
                    }
                    return out;
                }
                proof {
                    assert(!all_spaces(v@.skip(j as int)));
                    assert(i < j <= v@.len());
                    assert(spans_view(out@) =~= outv + (match token_view(tok) {
                        TokenV::Str(_) => seq![(i as int, j - i, SpanKind::Str)],
                        TokenV::Call(_, _) => seq![(i as int, j - i, SpanKind::Call)],
                        TokenV::Key(_) => seq![(i as int, j - i, SpanKind::Key)],
                        TokenV::Unknown(_) => Seq::<(int, int, SpanKind)>::empty(),
                    }));
                    assert(p_spans(input@, 0) =~= spans_view(out@) + p_spans(input@, j as int));
                }
                i = j;
            },
        }
    }
}

} // verus!
