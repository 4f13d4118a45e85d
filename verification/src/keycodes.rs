//! The keycode table: symbolic key names and their well-formed stored form.
//!
//! A name is looked up case-insensitively; the stored identifier a compiled
//! action carries is `KEY_` followed by the upper-cased name. The table
//! answers only "does this name exist" — resolving the identifier to the
//! platform's key number is the device layer's business.

use vstd::prelude::*;
use crate::chars::{is_ascii_digit, spec_upper, upper_chars};

verus! {

pub open spec fn is_upper_alpha(c: char) -> bool {
    'A' <= c && c <= 'Z'
}

/// The multi-character key names the table knows, upper case.
pub open spec fn is_named_key(s: Seq<char>) -> bool {
    ||| s == "ESC"@ ||| s == "ENTER"@ ||| s == "SPACE"@ ||| s == "TAB"@
    ||| s == "BACKSPACE"@ ||| s == "DELETE"@ ||| s == "INSERT"@ ||| s == "HOME"@
    ||| s == "END"@ ||| s == "PAGEUP"@ ||| s == "PAGEDOWN"@ ||| s == "UP"@
    ||| s == "DOWN"@ ||| s == "LEFT"@ ||| s == "RIGHT"@ ||| s == "LEFTSHIFT"@
    ||| s == "RIGHTSHIFT"@ ||| s == "LEFTCTRL"@ ||| s == "RIGHTCTRL"@
    ||| s == "LEFTALT"@ ||| s == "RIGHTALT"@ ||| s == "LEFTMETA"@
    ||| s == "RIGHTMETA"@ ||| s == "MENU"@ ||| s == "COMPOSE"@
    ||| s == "CAPSLOCK"@ ||| s == "NUMLOCK"@ ||| s == "SCROLLLOCK"@
    ||| s == "SYSRQ"@ ||| s == "PAUSE"@ ||| s == "MINUS"@ ||| s == "EQUAL"@
    ||| s == "LEFTBRACE"@ ||| s == "RIGHTBRACE"@ ||| s == "SEMICOLON"@
    ||| s == "APOSTROPHE"@ ||| s == "GRAVE"@ ||| s == "BACKSLASH"@
    ||| s == "COMMA"@ ||| s == "DOT"@ ||| s == "SLASH"@
    ||| s == "F1"@ ||| s == "F2"@ ||| s == "F3"@ ||| s == "F4"@ ||| s == "F5"@
    ||| s == "F6"@ ||| s == "F7"@ ||| s == "F8"@ ||| s == "F9"@ ||| s == "F10"@
    ||| s == "F11"@ ||| s == "F12"@
    ||| s == "MOVE"@ ||| s == "MUTE"@ ||| s == "VOLUMEUP"@ ||| s == "VOLUMEDOWN"@
    ||| s == "PLAYPAUSE"@ ||| s == "NEXTSONG"@ ||| s == "PREVIOUSSONG"@
    ||| s == "STOP"@ ||| s == "POWER"@ ||| s == "SLEEP"@ ||| s == "WAKEUP"@
}

/// An upper-cased name the table answers "yes" for: a single letter or
/// digit, or one of the named keys.
pub open spec fn is_key_name(s: Seq<char>) -> bool {
    (s.len() == 1 && (is_upper_alpha(s[0]) || is_ascii_digit(s[0]))) || is_named_key(s)
}

fn named_key(up: &[char]) -> (r: bool)
    ensures
        r == is_named_key(up@),
{
    crate::chars::chars_eq_str(up, "ESC") || crate::chars::chars_eq_str(up, "ENTER")
        || crate::chars::chars_eq_str(up, "SPACE") || crate::chars::chars_eq_str(up, "TAB")
        || crate::chars::chars_eq_str(up, "BACKSPACE") || crate::chars::chars_eq_str(up, "DELETE")
        || crate::chars::chars_eq_str(up, "INSERT") || crate::chars::chars_eq_str(up, "HOME")
        || crate::chars::chars_eq_str(up, "END") || crate::chars::chars_eq_str(up, "PAGEUP")
        || crate::chars::chars_eq_str(up, "PAGEDOWN") || crate::chars::chars_eq_str(up, "UP")
        || crate::chars::chars_eq_str(up, "DOWN") || crate::chars::chars_eq_str(up, "LEFT")
        || crate::chars::chars_eq_str(up, "RIGHT") || crate::chars::chars_eq_str(up, "LEFTSHIFT")
        || crate::chars::chars_eq_str(up, "RIGHTSHIFT") || crate::chars::chars_eq_str(up, "LEFTCTRL")
        || crate::chars::chars_eq_str(up, "RIGHTCTRL") || crate::chars::chars_eq_str(up, "LEFTALT")
        || crate::chars::chars_eq_str(up, "RIGHTALT") || crate::chars::chars_eq_str(up, "LEFTMETA")
        || crate::chars::chars_eq_str(up, "RIGHTMETA") || crate::chars::chars_eq_str(up, "MENU")
        || crate::chars::chars_eq_str(up, "COMPOSE") || crate::chars::chars_eq_str(up, "CAPSLOCK")
        || crate::chars::chars_eq_str(up, "NUMLOCK") || crate::chars::chars_eq_str(up, "SCROLLLOCK")
        || crate::chars::chars_eq_str(up, "SYSRQ") || crate::chars::chars_eq_str(up, "PAUSE")
        || crate::chars::chars_eq_str(up, "MINUS") || crate::chars::chars_eq_str(up, "EQUAL")
        || crate::chars::chars_eq_str(up, "LEFTBRACE") || crate::chars::chars_eq_str(up, "RIGHTBRACE")
        || crate::chars::chars_eq_str(up, "SEMICOLON") || crate::chars::chars_eq_str(up, "APOSTROPHE")
        || crate::chars::chars_eq_str(up, "GRAVE") || crate::chars::chars_eq_str(up, "BACKSLASH")
        || crate::chars::chars_eq_str(up, "COMMA") || crate::chars::chars_eq_str(up, "DOT")
        || crate::chars::chars_eq_str(up, "SLASH") || crate::chars::chars_eq_str(up, "F1")
        || crate::chars::chars_eq_str(up, "F2") || crate::chars::chars_eq_str(up, "F3")
        || crate::chars::chars_eq_str(up, "F4") || crate::chars::chars_eq_str(up, "F5")
        || crate::chars::chars_eq_str(up, "F6") || crate::chars::chars_eq_str(up, "F7")
        || crate::chars::chars_eq_str(up, "F8") || crate::chars::chars_eq_str(up, "F9")
        || crate::chars::chars_eq_str(up, "F10") || crate::chars::chars_eq_str(up, "F11")
        || crate::chars::chars_eq_str(up, "F12") || crate::chars::chars_eq_str(up, "MOVE")
        || crate::chars::chars_eq_str(up, "MUTE") || crate::chars::chars_eq_str(up, "VOLUMEUP")
        || crate::chars::chars_eq_str(up, "VOLUMEDOWN") || crate::chars::chars_eq_str(up, "PLAYPAUSE")
        || crate::chars::chars_eq_str(up, "NEXTSONG") || crate::chars::chars_eq_str(up, "PREVIOUSSONG")
        || crate::chars::chars_eq_str(up, "STOP") || crate::chars::chars_eq_str(up, "POWER")
        || crate::chars::chars_eq_str(up, "SLEEP") || crate::chars::chars_eq_str(up, "WAKEUP")
}

/// Case-insensitive lookup over the characters of a name.
pub fn key_exists_chars(name: &[char]) -> (r: bool)
    ensures
        r == is_key_name(spec_upper(name@)),
{
    let up = upper_chars(name);
    if up.len() == 1 {
        let c = up[0];
        if ('A' <= c && c <= 'Z') || ('0' <= c && c <= '9') {
            return true;
        }
    }
    named_key(up.as_slice())
}

/// Does this symbolic name exist in the table (case-insensitively)?
pub fn key_exists(name: &str) -> (r: bool)
    ensures
        r == is_key_name(spec_upper(name@)),
{
    let v = crate::chars::str_to_chars(name);
    key_exists_chars(v.as_slice())
}

/// The stored identifier for a table name: `KEY_` then the name upper-cased.
pub open spec fn stored_key_of(name: Seq<char>) -> Seq<char> {
    "KEY_"@ + spec_upper(name)
}

/// A stored identifier the engine accepts: `KEY_` followed by an existing
/// key name that is already in its canonical upper-case form.
pub open spec fn is_stored_key(s: Seq<char>) -> bool {
    &&& s.len() >= 5
    &&& s.take(4) == "KEY_"@
    &&& is_key_name(s.skip(4))
    &&& spec_upper(s.skip(4)) == s.skip(4)
}

/// Builds the stored identifier for a name, executable.
pub fn stored_key_chars(name: &[char]) -> (r: Vec<char>)
    ensures
        r@ == stored_key_of(name@),
{
    let mut r: Vec<char> = Vec::new();
    r.push('K');
    r.push('E');
    r.push('Y');
    r.push('_');
    proof {
        reveal_strlit("KEY_");
        assert(r@ =~= "KEY_"@);
    }
    let up = upper_chars(name);
    let mut i: usize = 0;
    while i < up.len()
        invariant
            i <= up@.len(),
            up@ == spec_upper(name@),
            r@ == "KEY_"@ + up@.take(i as int),
        decreases up@.len() - i,
    {
        r.push(up[i]);
        i += 1;
        proof {
            assert(r@ =~= "KEY_"@ + up@.take(i as int));
        }
    }
    proof {
        assert(up@.take(up@.len() as int) =~= up@);
    }
    r
}

/// Checks a stored identifier as the engine sees it in a compiled action.
pub fn is_valid_stored_key(s: &str) -> (r: bool)
    ensures
        r == is_stored_key(s@),
{
    let v = crate::chars::str_to_chars(s);
    if v.len() < 5 {
        return false;
    }
    proof {
        reveal_strlit("KEY_");
    }
    if !(v[0] == 'K' && v[1] == 'E' && v[2] == 'Y' && v[3] == '_') {
        proof {
            assert(s@.take(4) != "KEY_"@) by {
                if s@.take(4) == "KEY_"@ {
                    assert(s@.take(4)[0] == 'K' && s@.take(4)[1] == 'E' && s@.take(4)[2] == 'Y'
                        && s@.take(4)[3] == '_');
                }
            };
        }
        return false;
    }
    proof {
        assert(s@.take(4) =~= "KEY_"@);
    }
    let mut rest: Vec<char> = Vec::new();
    let mut i: usize = 4;
    while i < v.len()
        invariant
            4 <= i <= v@.len(),
            v@ == s@,
            rest@ == s@.skip(4).take(i - 4),
        decreases v@.len() - i,
    {
        rest.push(v[i]);
        i += 1;
        proof {
            assert(rest@ =~= s@.skip(4).take(i - 4));
        }
    }
    proof {
        assert(s@.skip(4).take(s@.len() - 4) =~= s@.skip(4));
    }
    let up = upper_chars(rest.as_slice());
    let mut canonical = up.len() == rest.len();
    let mut j: usize = 0;
    proof {
        assert(up@.take(0) =~= rest@.take(0));
    }
    while j < up.len() && canonical
        invariant
            j <= up@.len(),
            up@ == spec_upper(rest@),
            up@.len() == rest@.len(),
            canonical == (up@.take(j as int) == rest@.take(j as int)),
        decreases up@.len() - j,
    {
        if up[j] != rest[j] {
            proof {
                assert(up@[j as int] != rest@[j as int]);
                assert(up@.take(j + 1)[j as int] == up@[j as int]);
                assert(rest@.take(j + 1)[j as int] == rest@[j as int]);
            }
            canonical = false;
        } else {
            proof {
                assert(up@.take(j + 1) =~= up@.take(j as int).push(up@[j as int]));
                assert(rest@.take(j + 1) =~= rest@.take(j as int).push(rest@[j as int]));
            }
        }
        j += 1;
    }
    proof {
        assert(up@.take(up@.len() as int) =~= up@);
        assert(rest@.take(rest@.len() as int) =~= rest@);
    }
    if !canonical {
        return false;
    }
    key_exists_chars(rest.as_slice())
}

} // verus!
