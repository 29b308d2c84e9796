//! Decimal notation for integers and joining of text pieces.

use vstd::prelude::*;

verus! {

/// The character that stands for the decimal digit `d`.
pub open spec fn digit_char(d: int) -> char
    recommends
        0 <= d < 10,
{
    seq!['0', '1', '2', '3', '4', '5', '6', '7', '8', '9'][d]
}

/// The decimal notation of a natural number, most significant digit first,
/// without leading zeros.
pub open spec fn nat_text(n: nat) -> Seq<char>
    decreases n,
{
    if n < 10 {
        seq![digit_char(n as int)]
    } else {
        nat_text(n / 10).push(digit_char((n % 10) as int))
    }
}

/// The decimal notation of an integer: a minus sign in front of the
/// notation of its magnitude when it is negative.
pub open spec fn int_text(n: int) -> Seq<char> {
    if n < 0 {
        seq!['-'] + nat_text((-n) as nat)
    } else {
        nat_text(n as nat)
    }
}

/// The pieces of `parts` in order, with `separator` between neighbours.
pub open spec fn joined(parts: Seq<Seq<char>>, separator: Seq<char>) -> Seq<char>
    decreases parts.len(),
{
    if parts.len() == 0 {
        Seq::empty()
    } else if parts.len() == 1 {
        parts[0]
    } else {
        joined(parts.drop_last(), separator) + separator + parts.last()
    }
}

/// Joining one more piece puts the separator in front of it, unless it is
/// the first.
pub proof fn lemma_joined_push(parts: Seq<Seq<char>>, separator: Seq<char>, part: Seq<char>)
    ensures
        joined(parts.push(part), separator) == if parts.len() == 0 {
            part
        } else {
            joined(parts, separator) + separator + part
        },
{
    assert(parts.push(part).drop_last() =~= parts);
}

/// The one-character string of a decimal digit.
fn digit_str(d: u128) -> (s: &'static str)
    requires
        d < 10,
    ensures
        s@ == seq![digit_char(d as int)],
{
    proof {
        reveal_strlit("0");
        reveal_strlit("1");
        reveal_strlit("2");
        reveal_strlit("3");
        reveal_strlit("4");
        reveal_strlit("5");
        reveal_strlit("6");
        reveal_strlit("7");
        reveal_strlit("8");
        reveal_strlit("9");
    }
    let s = if d == 0 {
        "0"
    } else if d == 1 {
        "1"
    } else if d == 2 {
        "2"
    } else if d == 3 {
        "3"
    } else if d == 4 {
        "4"
    } else if d == 5 {
        "5"
    } else if d == 6 {
        "6"
    } else if d == 7 {
        "7"
    } else if d == 8 {
        "8"
    } else {
        "9"
    };
    assert(s@ =~= seq![digit_char(d as int)]);
    s
}

/// Appends the decimal notation of `n` to `out`.
pub fn push_nat(out: &mut String, n: u128)
    ensures
        final(out)@ == old(out)@ + nat_text(n as nat),
    decreases n,
{
    if n >= 10 {
        push_nat(out, n / 10);
    }
    out.append(digit_str(n % 10));
}

/// Appends the decimal notation of `n` to `out`.
pub fn push_int(out: &mut String, n: i64)
    ensures
        final(out)@ == old(out)@ + int_text(n as int),
{
    if n < 0 {
        out.append("-");
        proof {
            reveal_strlit("-");
        }
        if n == i64::MIN {
            push_nat(out, 9223372036854775808u128);
        } else {
            push_nat(out, (-n) as u128);
        }
    } else {
        push_nat(out, n as u128);
    }
}

} // verus!
