//! Source positions used by every phase.

use vstd::prelude::*;
use vstd::string::*;

verus! {

/// Identifier of one parsed source file inside a package.
#[derive(Debug, Clone, Copy, PartialEq, Eq, Hash, Structural)]
pub struct FileId(pub usize);

/// Identifier of one Cargo target inside a package.
#[derive(Debug, Clone, Copy, PartialEq, Eq, Hash, Structural)]
pub struct TargetId(pub usize);

/// Half-open byte range `start..end` inside one file.
#[derive(Debug, Clone, Copy, PartialEq, Eq, Hash, Structural)]
pub struct TextSpan {
    pub start: u32,
    pub end: u32,
}

/// Source span of one syntax node.
#[derive(Debug, Clone, Copy, PartialEq, Eq, Hash, Structural)]
pub struct Span {
    pub text: TextSpan,
}

impl Span {
    /// Whether `offset` lies inside the span, counting both ends as touching.
    pub open spec fn spec_touches(&self, offset: u32) -> bool {
        self.text.start <= offset && offset <= self.text.end
    }

    /// Whether `offset` lies inside the span's half-open range.
    pub open spec fn spec_contains(&self, offset: u32) -> bool {
        self.text.start <= offset && offset < self.text.end
    }

    /// Length in bytes; an inverted span counts as empty.
    pub open spec fn spec_len(&self) -> u32 {
        if self.text.start <= self.text.end {
            (self.text.end - self.text.start) as u32
        } else {
            0
        }
    }

    #[verifier::when_used_as_spec(spec_touches)]
    pub fn touches(&self, offset: u32) -> (r: bool)
        ensures
            r == self.spec_touches(offset),
    {
        self.text.start <= offset && offset <= self.text.end
    }

    #[verifier::when_used_as_spec(spec_contains)]
    pub fn contains(&self, offset: u32) -> (r: bool)
        ensures
            r == self.spec_contains(offset),
    {
        self.text.start <= offset && offset < self.text.end
    }

    #[verifier::when_used_as_spec(spec_len)]
    pub fn len(&self) -> (r: u32)
        ensures
            r == self.spec_len(),
    {
        if self.text.start <= self.text.end {
            self.text.end - self.text.start
        } else {
            0
        }
    }
}


/// The character of one decimal digit.
pub open spec fn digit_char(d: nat) -> char {
    if d == 0 { '0' } else if d == 1 { '1' } else if d == 2 { '2' } else if d == 3 { '3' } else if d
        == 4 { '4' } else if d == 5 { '5' } else if d == 6 { '6' } else if d == 7 { '7' } else if d
        == 8 { '8' } else { '9' }
}

/// The decimal digits of `n`, most significant first, without leading zeros.
pub open spec fn decimal(n: nat) -> Seq<char>
    decreases n,
{
    if n < 10 {
        seq![digit_char(n)]
    } else {
        decimal(n / 10).push(digit_char(n % 10))
    }
}

fn digit_str(d: usize) -> (r: &'static str)
    requires
        d < 10,
    ensures
        r@ == seq![digit_char(d as nat)],
{
    proof {
        reveal_strlit("0");
        reveal_strlit("1");
        reveal_strlit("2");
        reveal_strlit("3");
        reveal_strlit("4");
        reveal_strlit("5");
        reveal_strlit("6");
        reveal_strlit("7");
        reveal_strlit("8");
        reveal_strlit("9");
    }
    let r = if d == 0 { "0" } else if d == 1 { "1" } else if d == 2 { "2" } else if d == 3 { "3" } else if d
        == 4 { "4" } else if d == 5 { "5" } else if d == 6 { "6" } else if d == 7 { "7" } else if d
        == 8 { "8" } else { "9" };
    assert(r@ =~= seq![digit_char(d as nat)]);
    r
}

/// Appends the decimal digits of `n` to `out`.
pub fn push_decimal(out: &mut String, n: usize)
    ensures
        final(out)@ == old(out)@ + decimal(n as nat),
    decreases n,
{
    if n >= 10 {
        push_decimal(out, n / 10);
    }
    out.append(digit_str(n % 10));
    proof {
        if n >= 10 {
            assert(old(out)@ + decimal(n as nat) =~= old(out)@ + decimal((n / 10) as nat) + seq![digit_char((n % 10) as nat)]);
        } else {
            assert(decimal(n as nat) =~= seq![digit_char((n % 10) as nat)]);
        }
    }
}

} // verus!
