//! Sort keys of completion items.

use vstd::prelude::*;

use crate::text::{decimal, digit_char, push_decimal};

verus! {

/// `n` in decimal, padded with zeros to at least two digits.
pub open spec fn two_digits(n: nat) -> Seq<char> {
    if n < 10 {
        seq!['0'] + decimal(n)
    } else {
        decimal(n)
    }
}

/// The sort key of a completion item: its label, the rank of its kind and the rank of its
/// applicability, each padded to two digits, and the debug text of its target, separated by
/// `|`.
pub open spec fn sort_text(label: Seq<char>, kind_rank: nat, applicability_rank: nat, target: Seq<char>) -> Seq<char> {
    label + seq!['|'] + two_digits(kind_rank) + seq!['|'] + two_digits(applicability_rank) + seq!['|'] + target
}

/// Appends `n` in decimal, padded with zeros to at least two digits.
fn push_two_digits(out: &mut String, n: u8)
    ensures
        final(out)@ == old(out)@ + two_digits(n as nat),
{
    if n < 10 {
        out.append("0");
        proof {
            reveal_strlit("0");
        }
    }
    let ghost mid = out@;
    push_decimal(out, n as usize);
    proof {
        if n < 10 {
            assert(mid == old(out)@ + seq!['0']);
            assert(final(out)@ =~= old(out)@ + two_digits(n as nat));
        }
    }
}

/// Builds the text by which completion items sort: label first, then kind rank, then
/// applicability rank, then target.
pub fn completion_sort_text(label: &str, kind_rank: u8, applicability_rank: u8, target: &str) -> (r: String)
    ensures
        r@ == sort_text(label@, kind_rank as nat, applicability_rank as nat, target@),
{
    let mut out = String::new();
    out.append(label);
    out.append("|");
    push_two_digits(&mut out, kind_rank);
    out.append("|");
    push_two_digits(&mut out, applicability_rank);
    out.append("|");
    out.append(target);
    proof {
        reveal_strlit("|");
        assert(out@ =~= sort_text(label@, kind_rank as nat, applicability_rank as nat, target@));
    }
    out
}

/// `a` sorts before `b` character by character: at the first place where they differ `a` has
/// the smaller character, or `a` is a proper prefix of `b`.
pub open spec fn text_before(a: Seq<char>, b: Seq<char>) -> bool {
    exists|i: int|
        #![trigger a.take(i), b.take(i)]
        0 <= i <= a.len() && i <= b.len() && a.take(i) == b.take(i) && ((i < a.len() && i < b.len() && (a[i] as int) < (
        b[i] as int)) || (i == a.len() && i < b.len()))
}

proof fn lemma_two_digits(n: nat)
    requires
        n < 100,
    ensures
        two_digits(n) == seq![digit_char(n / 10), digit_char(n % 10)],
{
    if n < 10 {
        assert(two_digits(n) =~= seq![digit_char(n / 10), digit_char(n % 10)]);
    } else {
        assert(decimal(n / 10) == seq![digit_char(n / 10)]);
        assert(two_digits(n) =~= seq![digit_char(n / 10), digit_char(n % 10)]);
    }
}

proof fn lemma_digit_order(a: nat, b: nat)
    requires
        a < b < 10,
    ensures
        (digit_char(a) as int) < (digit_char(b) as int),
{
}

/// With the same label and applicability rank, an item whose kind ranks lower sorts first,
/// whatever the targets: kind ranks below 100 are compared digit by digit.
pub proof fn lemma_sort_text_orders_by_kind(
    label: Seq<char>,
    kind_a: nat,
    kind_b: nat,
    applicability: nat,
    target_a: Seq<char>,
    target_b: Seq<char>,
)
    requires
        kind_a < kind_b < 100,
        applicability < 100,
    ensures
        text_before(sort_text(label, kind_a, applicability, target_a), sort_text(label, kind_b, applicability, target_b)),
{
    lemma_two_digits(kind_a);
    lemma_two_digits(kind_b);
    lemma_two_digits(applicability);
    let a = sort_text(label, kind_a, applicability, target_a);
    let b = sort_text(label, kind_b, applicability, target_b);
    let n = label.len() as int;
    assert(a[n + 1] == digit_char(kind_a / 10) && a[n + 2] == digit_char(kind_a % 10));
    assert(b[n + 1] == digit_char(kind_b / 10) && b[n + 2] == digit_char(kind_b % 10));
    if kind_a / 10 < kind_b / 10 {
        lemma_digit_order(kind_a / 10, kind_b / 10);
        assert(a.take(n + 1) =~= b.take(n + 1));
        assert(a.take(n + 1) == b.take(n + 1));
    } else {
        assert(kind_a / 10 == kind_b / 10);
        lemma_digit_order(kind_a % 10, kind_b % 10);
        assert(a.take(n + 2) =~= b.take(n + 2));
        assert(a.take(n + 2) == b.take(n + 2));
    }
}

} // verus!
