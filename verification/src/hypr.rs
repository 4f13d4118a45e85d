//! The compositor cursor workaround, as computation.
//!
//! Some compositors ignore absolute pointer moves; the host then asks
//! the compositor where the cursor actually landed and nudges it by the
//! difference. Reading the compositor's answer and computing the nudge
//! are decided here; the socket talk stays with the host.

use vstd::prelude::*;
use crate::codec::p_i32;

verus! {

/// Splits at the first `", "`, if any.
pub open spec fn split_once(s: Seq<char>) -> Option<(Seq<char>, Seq<char>)>
    decreases s.len(),
{
    if s.len() < 2 {
        None
    } else if s[0] == ',' && s[1] == ' ' {
        Some((Seq::empty(), s.skip(2)))
    } else {
        match split_once(s.skip(1)) {
            Some((a, b)) => Some((seq![s[0]] + a, b)),
            None => None,
        }
    }
}

/// A whole field read as an `i32`: nothing before, nothing after.
pub open spec fn p_i32_all(t: Seq<char>) -> Option<int> {
    match p_i32(t) {
        Some((n, r)) => if r.len() == 0 {
            Some(n)
        } else {
            None
        },
        None => None,
    }
}

/// The cursor position in a compositor's `X, Y` answer: exactly two
/// comma-separated fields, each a whole number.
pub open spec fn cursor_pos_spec(s: Seq<char>) -> Option<(int, int)> {
    match split_once(s) {
        Some((a, b)) => if split_once(b) is Some {
            None
        } else {
            match (p_i32_all(a), p_i32_all(b)) {
                (Some(x), Some(y)) => Some((x, y)),
                _ => None,
            }
        },
        None => None,
    }
}

/// Copies `v[from..to]` into a fresh vector.
fn copy_range(v: &[char], from: usize, to: usize) -> (r: Vec<char>)
    requires
        from <= to <= v@.len(),
    ensures
        r@ == v@.subrange(from as int, to as int),
{
    let mut r: Vec<char> = Vec::new();
    let mut i: usize = from;
    while i < to
        invariant
            from <= i <= to <= v@.len(),
            r@ == v@.subrange(from as int, i as int),
        decreases to - i,
    {
        r.push(v[i]);
        i += 1;
        proof {
            assert(r@ =~= v@.subrange(from as int, i as int));
        }
    }
    r
}

/// Finds the first `", "` at or after `pos`, mirroring [`split_once`]
/// on the text from `pos`.
fn find_sep(v: &[char], pos: usize) -> (r: Option<usize>)
    requires
        pos <= v@.len(),
    ensures
        match r {
            Some(m) => pos <= m && m + 2 <= v@.len()
                && split_once(v@.skip(pos as int)) == Some((
                    v@.subrange(pos as int, m as int),
                    v@.skip(m + 2),
                )),
            None => split_once(v@.skip(pos as int)) is None,
        },
{
    let mut i: usize = pos;
    proof {
        assert(split_once(v@.skip(pos as int)) == (match split_once(v@.skip(pos as int)) {
            Some((a, b)) => Some((v@.subrange(pos as int, pos as int) + a, b)),
            None => None,
        })) by {
            match split_once(v@.skip(pos as int)) {
                Some((a, b)) => {
                    assert(v@.subrange(pos as int, pos as int) + a =~= a);
                },
                None => {},
            }
        };
    }
    while v.len() - i >= 2
        invariant
            pos <= i <= v@.len(),
            split_once(v@.skip(pos as int)) == (match split_once(v@.skip(i as int)) {
                Some((a, b)) => Some((v@.subrange(pos as int, i as int) + a, b)),
                None => None,
            }),
        decreases v@.len() - i,
    {
        let ghost suf = v@.skip(i as int);
        proof {
            assert(suf[0] == v@[i as int] && suf[1] == v@[i + 1]);
            assert(suf.skip(2) =~= v@.skip(i + 2));
            assert(suf.skip(1) =~= v@.skip(i + 1));
        }
        if v[i] == ',' && v[i + 1] == ' ' {
            proof {
                assert(split_once(suf) == Some((Seq::<char>::empty(), v@.skip(i + 2))));
                assert(v@.subrange(pos as int, i as int) + Seq::<char>::empty()
                    =~= v@.subrange(pos as int, i as int));
            }
            return Some(i);
        }
        i += 1;
        proof {
            assert(split_once(v@.skip(pos as int)) == (match split_once(v@.skip(i as int)) {
                Some((a, b)) => Some((v@.subrange(pos as int, i as int) + a, b)),
                None => None,
            })) by {
                match split_once(v@.skip(i as int)) {
                    Some((a, b)) => {
                        assert(v@.subrange(pos as int, i - 1) + (seq![v@[i - 1]] + a)
                            =~= v@.subrange(pos as int, i as int) + a);
                    },
                    None => {},
                }
            };
        }
    }
    proof {
        assert(v@.skip(i as int).len() < 2);
    }
    None
}

/// Reads an `i32` that must cover the whole vector.
fn parse_i32_all(v: &Vec<char>) -> (r: Option<i32>)
    ensures
        match r {
            Some(n) => p_i32_all(v@) == Some(n as int),
            None => p_i32_all(v@) is None,
        },
{
    proof {
        assert(v@.skip(0) =~= v@);
    }
    match crate::codec::e_i32(v.as_slice(), 0) {
        Some((n, j)) => {
            if j == v.len() {
                proof {
                    assert(v@.skip(j as int).len() == 0);
                }
                Some(n)
            } else {
                proof {
                    assert(v@.skip(j as int).len() != 0);
                }
                None
            }
        },
        None => None,
    }
}

/// Reads a compositor's cursor answer. `Some` exactly for two whole
/// numbers separated by one `", "`.
pub fn parse_cursor_pos(msg: &str) -> (r: Option<(i32, i32)>)
    ensures
        match r {
            Some((x, y)) => cursor_pos_spec(msg@) == Some((x as int, y as int)),
            None => cursor_pos_spec(msg@) is None,
        },
{
    let v = crate::chars::str_to_chars(msg);
    proof {
        assert(v@.skip(0) =~= msg@);
        assert(v@.subrange(0, 0) =~= Seq::<char>::empty());
    }
    let m = match find_sep(v.as_slice(), 0) {
        Some(m) => m,
        None => {
            return None;
        },
    };
    proof {
        assert(Seq::<char>::empty() + v@.subrange(0, m as int) =~= v@.subrange(0, m as int));
    }
    if find_sep(v.as_slice(), m + 2).is_some() {
        return None;
    }
    let a = copy_range(v.as_slice(), 0, m);
    let b = copy_range(v.as_slice(), m + 2, v.len());
    proof {
        assert(v@.subrange(m + 2, v@.len() as int) =~= v@.skip(m + 2));
    }
    let x = match parse_i32_all(&a) {
        Some(x) => x,
        None => {
            return None;
        },
    };
    let y = match parse_i32_all(&b) {
        Some(y) => y,
        None => {
            return None;
        },
    };
    Some((x, y))
}

/// The nudge after an absolute move: `Some` exactly when some requested
/// axis missed, carrying the relative correction for each requested
/// axis.
pub fn mouse_correction(
    target_x: Option<i32>,
    target_y: Option<i32>,
    actual_x: i32,
    actual_y: i32,
) -> (r: Option<(Option<i64>, Option<i64>)>)
    ensures
        r is Some <==> ((target_x matches Some(x) && x != actual_x) || (target_y matches Some(y)
            && y != actual_y)),
        r matches Some((dx, dy)) ==> {
            &&& (match (dx, target_x) {
                (Some(d), Some(x)) => d == x - actual_x,
                (None, None) => true,
                _ => false,
            })
            &&& (match (dy, target_y) {
                (Some(d), Some(y)) => d == y - actual_y,
                (None, None) => true,
                _ => false,
            })
        },
{
    let missed_x = match target_x {
        Some(x) => x != actual_x,
        None => false,
    };
    let missed_y = match target_y {
        Some(y) => y != actual_y,
        None => false,
    };
    if missed_x || missed_y {
        let dx = match target_x {
            Some(x) => Some((x as i64) - (actual_x as i64)),
            None => None,
        };
        let dy = match target_y {
            Some(y) => Some((y as i64) - (actual_y as i64)),
            None => None,
        };
        Some((dx, dy))
    } else {
        None
    }
}

} // verus!
