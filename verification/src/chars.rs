//! Character-level helpers shared by the compiler and the codec.
//!
//! All text is handled as `Vec<char>` / `Seq<char>` internally; these
//! helpers move between `String` and character vectors and give the few
//! character classifications the grammar needs.

use vstd::prelude::*;

verus! {

/// Turn a string slice into the vector of its characters.
pub fn str_to_chars(s: &str) -> (r: Vec<char>)
    ensures
        r@ == s@,
{
    let n = s.unicode_len();
    let mut r: Vec<char> = Vec::new();
    let mut i: usize = 0;
    while i < n
        invariant
            i <= n,
            n == s@.len(),
            r@ == s@.take(i as int),
        decreases n - i,
    {
        r.push(s.get_char(i));
        i += 1;
        proof {
            assert(r@ =~= s@.take(i as int));
        }
    }
    proof {
        assert(s@.take(n as int) =~= s@);
    }
    r
}

/// Relies on std's `FromIterator<char> for String`: collecting characters
/// yields a string holding exactly those characters in order.
#[verifier::external_body]
pub fn chars_to_string(v: &Vec<char>) -> (r: String)
    ensures
        r@ == v@,
{
    v.iter().collect()
}

/// Relies on `char::from_u32`: `Some` exactly for Unicode scalar values
/// (not a surrogate, at most 0x10FFFF), and the returned character has
/// the given code point.
#[verifier::external_body]
pub fn char_from_u32(u: u32) -> (r: Option<char>)
    ensures
        match r {
            Some(c) => c as u32 == u && (u < 0xD800 || (0xE000 <= u && u <= 0x10FFFF)),
            None => 0xD800 <= u && (u < 0xE000 || u > 0x10FFFF),
        },
{
    char::from_u32(u)
}

/// The whitespace the macro grammar separates tokens with.
pub open spec fn is_space_char(c: char) -> bool {
    c == ' ' || c == '\t' || c == '\r' || c == '\n'
}

/// Executable mirror of [`is_space_char`].
pub fn space_char(c: char) -> (r: bool)
    ensures
        r == is_space_char(c),
{
    c == ' ' || c == '\t' || c == '\r' || c == '\n'
}

pub open spec fn is_ascii_digit(c: char) -> bool {
    '0' <= c && c <= '9'
}

pub fn ascii_digit(c: char) -> (r: bool)
    ensures
        r == is_ascii_digit(c),
{
    '0' <= c && c <= '9'
}

pub open spec fn is_ascii_alpha(c: char) -> bool {
    ('a' <= c && c <= 'z') || ('A' <= c && c <= 'Z')
}

pub fn ascii_alpha(c: char) -> (r: bool)
    ensures
        r == is_ascii_alpha(c),
{
    ('a' <= c && c <= 'z') || ('A' <= c && c <= 'Z')
}

/// First character of an identifier: a letter or an underscore.
pub open spec fn is_ident_start(c: char) -> bool {
    is_ascii_alpha(c) || c == '_'
}

pub fn ident_start(c: char) -> (r: bool)
    ensures
        r == is_ident_start(c),
{
    ascii_alpha(c) || c == '_'
}

/// Later character of an identifier: a letter, a digit or an underscore.
pub open spec fn is_ident_char(c: char) -> bool {
    is_ascii_alpha(c) || is_ascii_digit(c) || c == '_'
}

pub fn ident_char(c: char) -> (r: bool)
    ensures
        r == is_ident_char(c),
{
    ascii_alpha(c) || ascii_digit(c) || c == '_'
}

/// ASCII uppercasing of one character; everything else is untouched.
pub open spec fn spec_upper_char(c: char) -> char {
    if 'a' <= c && c <= 'z' {
        ((c as u32) - 32) as char
    } else {
        c
    }
}

/// Executable mirror of [`spec_upper_char`].
pub fn upper_char(c: char) -> (r: char)
    ensures
        r == spec_upper_char(c),
{
    if 'a' <= c && c <= 'z' {
        let u: u32 = (c as u32) - 32;
        assert(u < 0xD800) by {
            assert(c as u32 <= 'z' as u32);
        };
        match char_from_u32(u) {
            Some(d) => {
                proof {
                    vstd::utf8::char_u32_cast(d, u);
                }
                d
            },
            None => {
                proof {
                    assert(false);
                }
                c
            },
        }
    } else {
        c
    }
}

/// ASCII uppercasing of a whole character sequence.
pub open spec fn spec_upper(s: Seq<char>) -> Seq<char> {
    s.map_values(|c: char| spec_upper_char(c))
}

/// Executable mirror of [`spec_upper`].
pub fn upper_chars(s: &[char]) -> (r: Vec<char>)
    ensures
        r@ == spec_upper(s@),
{
    let mut r: Vec<char> = Vec::new();
    let mut i: usize = 0;
    while i < s.len()
        invariant
            i <= s@.len(),
            r@ == spec_upper(s@.take(i as int)),
        decreases s@.len() - i,
    {
        r.push(upper_char(s[i]));
        i += 1;
        proof {
            assert(r@ =~= spec_upper(s@.take(i as int)));
        }
    }
    proof {
        assert(s@.take(s@.len() as int) =~= s@);
    }
    r
}

/// Character-by-character equality of a slice against a string slice.
pub fn chars_eq_str(v: &[char], s: &str) -> (r: bool)
    ensures
        r == (v@ == s@),
{
    let n = s.unicode_len();
    if v.len() != n {
        proof {
            assert(v@.len() != s@.len());
        }
        return false;
    }
    let mut i: usize = 0;
    while i < n
        invariant
            i <= n,
            n == s@.len(),
            v@.len() == n,
            v@.take(i as int) == s@.take(i as int),
        decreases n - i,
    {
        if v[i] != s.get_char(i) {
            proof {
                assert(v@[i as int] != s@[i as int]);
            }
            return false;
        }
        i += 1;
        proof {
            assert(v@.take(i as int) =~= s@.take(i as int));
        }
    }
    proof {
        assert(v@.take(n as int) =~= v@);
        assert(s@.take(n as int) =~= s@);
    }
    true
}

/// Drops leading whitespace.
pub open spec fn skip_spaces(s: Seq<char>) -> Seq<char>
    decreases s.len(),
{
    if s.len() > 0 && is_space_char(s[0]) {
        skip_spaces(s.skip(1))
    } else {
        s
    }
}

/// Skips whitespace, executable; returns the first non-space position.
pub fn skip_spaces_exec(v: &[char], pos: usize) -> (r: usize)
    requires
        pos <= v@.len(),
    ensures
        pos <= r <= v@.len(),
        skip_spaces(v@.skip(pos as int)) == v@.skip(r as int),
        r < v@.len() ==> !is_space_char(v@[r as int]),
        forall|k: int| pos <= k < r ==> is_space_char(v@[k]),
{
    let mut i: usize = pos;
    while i < v.len() && space_char(v[i])
        invariant
            pos <= i <= v@.len(),
            skip_spaces(v@.skip(pos as int)) == skip_spaces(v@.skip(i as int)),
            forall|k: int| pos <= k < i ==> is_space_char(v@[k]),
        decreases v@.len() - i,
    {
        proof {
            assert(v@.skip(i as int)[0] == v@[i as int]);
            assert(v@.skip(i as int).skip(1) =~= v@.skip(i + 1));
        }
        i += 1;
    }
    proof {
        if i < v@.len() {
            assert(v@.skip(i as int)[0] == v@[i as int]);
        }
    }
    i
}

/// Whitespace-skipping does nothing on text that starts with none.
pub proof fn lemma_skip_spaces_id(s: Seq<char>)
    requires
        s.len() == 0 || !is_space_char(s[0]),
    ensures
        skip_spaces(s) == s,
{
}

/// Character-by-character equality of two string slices.
pub fn str_eq(a: &str, b: &str) -> (r: bool)
    ensures
        r == (a@ == b@),
{
    let v = str_to_chars(a);
    chars_eq_str(v.as_slice(), b)
}

} // verus!
