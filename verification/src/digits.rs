//! Decimal text for the wire format and the macro grammar.
//!
//! Writing a number and reading it back are both specified here, together
//! with the lemma that reading undoes writing; the codec's round-trip law
//! and the compiler's re-serialization law both rest on it.

use vstd::prelude::*;
use crate::chars::is_ascii_digit;

verus! {

/// The digit character for one value below ten.
pub open spec fn digit_char(d: int) -> char {
    (48 + d) as char
}

/// The numeric value of a digit character.
pub open spec fn digit_val(c: char) -> int {
    (c as u32) - 48
}

/// Decimal digits of a non-negative number, most significant first.
pub open spec fn nat_digits(n: int) -> Seq<char>
    decreases n,
{
    if n < 10 {
        seq![digit_char(if n < 0 { 0 } else { n })]
    } else {
        nat_digits(n / 10) + seq![digit_char(n % 10)]
    }
}

/// Decimal digits of a signed number: a minus sign, then the magnitude.
pub open spec fn int_digits(n: int) -> Seq<char> {
    if n < 0 {
        seq!['-'] + nat_digits(-n)
    } else {
        nat_digits(n)
    }
}

/// Reads a run of leading digits, folding them onto `acc`; returns the
/// folded value and the remainder of the text.
pub open spec fn fold_digits(s: Seq<char>, acc: int) -> (int, Seq<char>)
    decreases s.len(),
{
    if s.len() > 0 && is_ascii_digit(s[0]) {
        fold_digits(s.skip(1), acc * 10 + digit_val(s[0]))
    } else {
        (acc, s)
    }
}

pub open spec fn pow10(k: nat) -> int
    decreases k,
{
    if k == 0 {
        1
    } else {
        10 * pow10((k - 1) as nat)
    }
}

proof fn lemma_digit_char_val(d: int)
    requires
        0 <= d < 10,
    ensures
        is_ascii_digit(digit_char(d)),
        digit_val(digit_char(d)) == d,
{
    let c = digit_char(d);
    vstd::utf8::char_u32_cast(c, (48 + d) as u32);
}

/// Every character written by [`nat_digits`] is a digit.
pub proof fn lemma_nat_digits_are_digits(n: int)
    ensures
        nat_digits(n).len() >= 1,
        forall|i: int| 0 <= i < nat_digits(n).len() ==> is_ascii_digit(#[trigger] nat_digits(n)[i]),
    decreases n,
{
    if n < 10 {
        lemma_digit_char_val(if n < 0 { 0 } else { n });
    } else {
        lemma_nat_digits_are_digits(n / 10);
        lemma_digit_char_val(n % 10);
    }
}

/// Folding the digits of `n` written in front of `rest` shifts the
/// accumulator past them and adds `n`.
proof fn lemma_fold_digits_shift(n: int, rest: Seq<char>, acc: int)
    requires
        n >= 0,
    ensures
        fold_digits(nat_digits(n) + rest, acc)
            == fold_digits(rest, acc * pow10(nat_digits(n).len()) + n),
    decreases n,
{
    if n < 10 {
        lemma_digit_char_val(n);
        let s = nat_digits(n) + rest;
        assert(s[0] == digit_char(n));
        assert(s.skip(1) =~= rest);
        assert(pow10(0) == 1);
        assert(pow10(1) == 10);
    } else {
        let a = nat_digits(n / 10);
        let tail = seq![digit_char(n % 10)] + rest;
        assert(nat_digits(n) + rest =~= a + tail);
        lemma_fold_digits_shift(n / 10, tail, acc);
        lemma_digit_char_val(n % 10);
        assert(tail[0] == digit_char(n % 10));
        assert(tail.skip(1) =~= rest);
        let acc1 = acc * pow10(a.len()) + n / 10;
        assert(fold_digits(tail, acc1) == fold_digits(rest, acc1 * 10 + n % 10));
        assert(nat_digits(n).len() == a.len() + 1);
        assert(acc1 * 10 + n % 10 == acc * pow10(a.len() + 1) + n) by {
            assert((acc * pow10(a.len()) + n / 10) * 10
                == acc * pow10(a.len()) * 10 + (n / 10) * 10) by (nonlinear_arith);
            assert(acc * pow10(a.len()) * 10 == acc * (pow10(a.len()) * 10)) by (nonlinear_arith);
            assert(pow10(a.len()) * 10 == pow10(a.len() + 1)) by {
                assert(pow10(a.len() + 1) == 10 * pow10(a.len()));
            };
            assert((n / 10) * 10 + n % 10 == n) by (nonlinear_arith)
                requires n >= 0;
        };
    }
}

/// Reading the digits of `n` written in front of non-digit text yields
/// exactly `n` and that text.
pub proof fn lemma_fold_digits_of(n: int, rest: Seq<char>)
    requires
        n >= 0,
        rest.len() == 0 || !is_ascii_digit(rest[0]),
    ensures
        fold_digits(nat_digits(n) + rest, 0) == (n, rest),
{
    lemma_fold_digits_shift(n, rest, 0);
    assert(0 * pow10(nat_digits(n).len()) == 0) by (nonlinear_arith);
}

/// The folded value only grows as more digits are read.
pub proof fn lemma_fold_digits_grows(s: Seq<char>, acc: int)
    requires
        acc >= 0,
    ensures
        fold_digits(s, acc).0 >= acc,
    decreases s.len(),
{
    if s.len() > 0 && is_ascii_digit(s[0]) {
        assert(acc * 10 >= acc) by (nonlinear_arith)
            requires acc >= 0;
        lemma_fold_digits_grows(s.skip(1), acc * 10 + digit_val(s[0]));
    }
}

/// One digit character, executable.
fn digit_to_char(d: u64) -> (r: char)
    requires
        d < 10,
    ensures
        r == digit_char(d as int),
{
    let r = match d {
        0 => '0',
        1 => '1',
        2 => '2',
        3 => '3',
        4 => '4',
        5 => '5',
        6 => '6',
        7 => '7',
        8 => '8',
        _ => '9',
    };
    proof {
        assert(r as u32 == 48 + d);
        vstd::utf8::char_u32_cast(r, (48 + d) as u32);
    }
    r
}

/// Appends the decimal digits of `n` to `out`.
pub fn push_u64_digits(out: &mut Vec<char>, n: u64)
    ensures
        final(out)@ == old(out)@ + nat_digits(n as int),
    decreases n,
{
    if n < 10 {
        out.push(digit_to_char(n));
        proof {
            assert(out@ =~= old(out)@ + nat_digits(n as int));
        }
    } else {
        push_u64_digits(out, n / 10);
        out.push(digit_to_char(n % 10));
        proof {
            assert(out@ =~= old(out)@ + nat_digits(n as int));
        }
    }
}

/// Appends the decimal digits of `n`, sign included, to `out`.
pub fn push_i64_digits(out: &mut Vec<char>, n: i64)
    ensures
        final(out)@ == old(out)@ + int_digits(n as int),
{
    if n < 0 {
        out.push('-');
        let m: u64 = if n == i64::MIN {
            9223372036854775808u64
        } else {
            (-n) as u64
        };
        assert(m as int == -(n as int));
        push_u64_digits(out, m);
        proof {
            assert(out@ =~= old(out)@ + int_digits(n as int));
        }
    } else {
        push_u64_digits(out, n as u64);
    }
}

/// Reads a run of digits at `pos`. Returns the value and the position
/// after it, or `None` when no digit stands at `pos` or the value does
/// not fit `u64`. Mirrors [`fold_digits`] on the remaining text.
pub fn scan_u64(v: &[char], pos: usize) -> (r: Option<(u64, usize)>)
    requires
        pos <= v@.len(),
    ensures
        match r {
            Some((val, end)) => {
                &&& pos < end <= v@.len()
                &&& is_ascii_digit(v@[pos as int])
                &&& fold_digits(v@.skip(pos as int), 0) == (val as int, v@.skip(end as int))
            },
            None => pos == v@.len() || !is_ascii_digit(v@[pos as int])
                || fold_digits(v@.skip(pos as int), 0).0 > u64::MAX,
        },
{
    if pos == v.len() || !crate::chars::ascii_digit(v[pos]) {
        return None;
    }
    let ghost orig = v@.skip(pos as int);
    let mut i: usize = pos;
    let mut val: u64 = 0;
    while i < v.len() && crate::chars::ascii_digit(v[i])
        invariant
            pos <= i <= v@.len(),
            fold_digits(orig, 0) == fold_digits(v@.skip(i as int), val as int),
            orig == v@.skip(pos as int),
        decreases v@.len() - i,
    {
        let c = v[i];
        let d: u64 = (c as u32 as u64) - 48;
        proof {
            assert(v@.skip(i as int)[0] == c);
            assert(d < 10);
        }
        if val > (u64::MAX - d) / 10 {
            proof {
                assert(val * 10 + d > u64::MAX) by (nonlinear_arith)
                    requires val > (u64::MAX - d) / 10, d < 10, val <= u64::MAX;
                assert(v@.skip(i as int).skip(1) =~= v@.skip(i + 1));
                lemma_fold_digits_grows(v@.skip(i + 1), val as int * 10 + d as int);
            }
            return None;
        }
        proof {
            assert(val * 10 + d <= u64::MAX) by (nonlinear_arith)
                requires val <= (u64::MAX - d) / 10, d < 10;
            assert(v@.skip(i as int).skip(1) =~= v@.skip(i + 1));
        }
        val = val * 10 + d;
        i += 1;
    }
    proof {
        if i < v@.len() {
            assert(v@.skip(i as int)[0] == v@[i as int]);
        }
    }
    Some((val, i))
}

} // verus!
