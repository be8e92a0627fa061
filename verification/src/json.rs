//! What a JSON value is, as far as a result needs it.

use crate::text;
use vstd::prelude::*;

verus! {

/// Whether `w` stands for itself between quotes: no quote, no backslash and no
/// control character.
pub open spec fn plain(w: Seq<char>) -> bool {
    forall|i: int| 0 <= i < w.len() ==> ' ' <= #[trigger] w[i] && w[i] != '"' && w[i] != '\\'
}

/// `w` in quotes.
pub open spec fn quoted(w: Seq<char>) -> Seq<char> {
    seq!['"'] + w + seq!['"']
}

/// Whether `v` is a string.
pub open spec fn is_string(v: Seq<char>) -> bool {
    exists|w: Seq<char>| plain(w) && v == #[trigger] quoted(w)
}

/// Whether `s` is a whole number without a sign: digits, with no needless zero
/// in front.
pub open spec fn is_natural(s: Seq<char>) -> bool {
    text::all_digits(s) && (s.len() == 1 || s[0] != '0')
}

/// Whether `s` is a number with six decimals: digits, a point and six digits.
pub open spec fn is_six_decimals(s: Seq<char>) -> bool {
    let k = s.len() - 7;
    &&& k > 0
    &&& is_natural(s.take(k))
    &&& s[k] == '.'
    &&& text::all_digits(s.skip(k + 1))
}

/// Whether `v` is a number.
pub open spec fn is_number(v: Seq<char>) -> bool {
    ||| is_natural(v)
    ||| v.len() > 0 && v[0] == '-' && is_natural(v.drop_first())
    ||| is_six_decimals(v)
}

/// Whether `v` is a value that holds no others.
pub open spec fn is_scalar(v: Seq<char>) -> bool {
    ||| v == "null"@
    ||| v == "true"@
    ||| v == "false"@
    ||| is_number(v)
    ||| is_string(v)
}

/// A name and its value.
pub open spec fn member(m: (Seq<char>, Seq<char>)) -> Seq<char> {
    quoted(m.0) + seq![':'] + m.1
}

/// Names and values, with commas between them.
pub open spec fn members_text(ms: Seq<(Seq<char>, Seq<char>)>) -> Seq<char>
    decreases ms.len(),
{
    if ms.len() == 0 {
        Seq::empty()
    } else if ms.len() == 1 {
        member(ms[0])
    } else {
        members_text(ms.drop_last()) + seq![','] + member(ms.last())
    }
}

/// The object with these members.
pub open spec fn object(ms: Seq<(Seq<char>, Seq<char>)>) -> Seq<char> {
    seq!['{'] + members_text(ms) + seq!['}']
}

/// Whether `v` is a value in which objects stand at most `depth` deep.
pub open spec fn is_value(v: Seq<char>, depth: nat) -> bool
    decreases depth,
{
    is_scalar(v) || (depth > 0 && exists|ms: Seq<(Seq<char>, Seq<char>)>| #[trigger]
        object(ms) == v && forall|i: int|
            0 <= i < ms.len() ==> plain((#[trigger] ms[i]).0) && is_value(
                ms[i].1,
                (depth - 1) as nat,
            ))
}

/// One more member.
pub proof fn lemma_next_member(ms: Seq<(Seq<char>, Seq<char>)>, m: (Seq<char>, Seq<char>))
    requires
        ms.len() > 0,
    ensures
        members_text(ms.push(m)) == members_text(ms) + seq![','] + quoted(m.0) + seq![':'] + m.1,
{
    assert(ms.push(m).drop_last() =~= ms);
    assert(members_text(ms.push(m)) =~= members_text(ms) + seq![','] + quoted(m.0) + seq![':']
        + m.1);
}

/// Decimals are numbers.
pub proof fn lemma_number(n: int)
    ensures
        is_number(text::int_text(n)),
        n >= 0 ==> is_number(text::digits(n as nat)),
{
    let m = (if n < 0 {
        -n
    } else {
        n
    }) as nat;
    lemma_natural(m);
    if n < 0 {
        assert(text::int_text(n).drop_first() =~= text::digits(m));
    }
}

proof fn lemma_natural(n: nat)
    ensures
        is_natural(text::digits(n)),
        n > 0 ==> text::digits(n)[0] != '0',
    decreases n,
{
    text::law_decimal_reads_back(n);
    if n >= 10 {
        lemma_natural(n / 10);
        assert(text::digits(n)[0] == text::digits(n / 10)[0]);
    }
}

/// A plain word in quotes is a value.
pub proof fn lemma_string(w: Seq<char>)
    requires
        plain(w),
    ensures
        is_scalar(quoted(w)),
{
}

} // verus!
