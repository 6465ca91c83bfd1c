//! Classification of literal expressions by their text.

use vstd::prelude::*;
use vstd::string::*;

use crate::body::LiteralKind;

verus! {

/// The literal category of a literal's text: `true`/`false`; strings, including raw and raw
/// byte strings; characters; numbers with a dot; numbers starting with a digit; anything else.
pub open spec fn literal_kind_of(t: Seq<char>) -> LiteralKind {
    if t == seq!['t', 'r', 'u', 'e'] || t == seq!['f', 'a', 'l', 's', 'e'] {
        LiteralKind::Bool
    } else if (t.len() >= 1 && t[0] == '"') || (t.len() >= 2 && t[0] == 'r' && t[1] == '#') || (t.len() >= 3
        && t[0] == 'b' && t[1] == 'r' && t[2] == '#') {
        LiteralKind::String
    } else if t.len() >= 1 && t[0] == '\'' {
        LiteralKind::Char
    } else if t.contains('.') {
        LiteralKind::Float
    } else if t.len() >= 1 && '0' <= t[0] && t[0] <= '9' {
        LiteralKind::Int
    } else {
        LiteralKind::Unknown
    }
}

fn char_at_is(text: &str, len: usize, i: usize, c: char) -> (r: bool)
    requires
        len == text@.len(),
    ensures
        r == (i < text@.len() && text@[i as int] == c),
{
    i < len && text.get_char(i) == c
}

fn contains_char(text: &str, len: usize, c: char) -> (r: bool)
    requires
        len == text@.len(),
    ensures
        r == text@.contains(c),
{
    let mut i: usize = 0;
    while i < len
        invariant
            len == text@.len(),
            i <= len,
            forall|j: int| 0 <= j < i ==> text@[j] != c,
        decreases len - i,
    {
        if text.get_char(i) == c {
            return true;
        }
        i = i + 1;
    }
    false
}

impl LiteralKind {
    /// Classifies a literal by its text.
    pub fn from_text(text: &str) -> (r: Self)
        ensures
            r == literal_kind_of(text@),
    {
        let len = text.unicode_len();
        let ghost t = text@;
        let is_true = len == 4 && char_at_is(text, len, 0, 't') && char_at_is(text, len, 1, 'r') && char_at_is(
            text,
            len,
            2,
            'u',
        ) && char_at_is(text, len, 3, 'e');
        let is_false = len == 5 && char_at_is(text, len, 0, 'f') && char_at_is(text, len, 1, 'a') && char_at_is(
            text,
            len,
            2,
            'l',
        ) && char_at_is(text, len, 3, 's') && char_at_is(text, len, 4, 'e');
        proof {
            assert(is_true == (t == seq!['t', 'r', 'u', 'e'])) by {
                if is_true {
                    assert(t =~= seq!['t', 'r', 'u', 'e']);
                }
            }
            assert(is_false == (t == seq!['f', 'a', 'l', 's', 'e'])) by {
                if is_false {
                    assert(t =~= seq!['f', 'a', 'l', 's', 'e']);
                }
            }
        }
        if is_true || is_false {
            return LiteralKind::Bool;
        }
        if char_at_is(text, len, 0, '"') || (char_at_is(text, len, 0, 'r') && char_at_is(text, len, 1, '#')) || (
        char_at_is(text, len, 0, 'b') && char_at_is(text, len, 1, 'r') && char_at_is(text, len, 2, '#')) {
            return LiteralKind::String;
        }
        if char_at_is(text, len, 0, '\'') {
            return LiteralKind::Char;
        }
        if contains_char(text, len, '.') {
            return LiteralKind::Float;
        }
        if len >= 1 {
            let first = text.get_char(0);
            if '0' <= first && first <= '9' {
                return LiteralKind::Int;
            }
        }
        LiteralKind::Unknown
    }
}

} // verus!
