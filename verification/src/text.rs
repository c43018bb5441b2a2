//! Building message text from literals and decimal numbers.

use vstd::prelude::*;

verus! {

/// The decimal digit character for `d` (0 through 9).
pub open spec fn digit_char(d: int) -> char {
    if d == 0 { '0' }
    else if d == 1 { '1' }
    else if d == 2 { '2' }
    else if d == 3 { '3' }
    else if d == 4 { '4' }
    else if d == 5 { '5' }
    else if d == 6 { '6' }
    else if d == 7 { '7' }
    else if d == 8 { '8' }
    else { '9' }
}

/// Decimal digits of a non-negative integer, most significant first.
pub open spec fn digits(n: nat) -> Seq<char>
    decreases n,
{
    if n < 10 {
        seq![digit_char(n as int)]
    } else {
        digits(n / 10) + seq![digit_char((n % 10) as int)]
    }
}

/// Decimal text of an integer, with a leading `-` when negative.
pub open spec fn decimal(n: int) -> Seq<char> {
    if n < 0 {
        seq!['-'] + digits((-n) as nat)
    } else {
        digits(n as nat)
    }
}

fn digit_text(d: u64) -> (s: &'static str)
    requires
        d < 10,
    ensures
        s@ == seq![digit_char(d as int)],
{
    if d == 0 {
        proof { reveal_strlit("0"); }
        "0"
    } else if d == 1 {
        proof { reveal_strlit("1"); }
        "1"
    } else if d == 2 {
        proof { reveal_strlit("2"); }
        "2"
    } else if d == 3 {
        proof { reveal_strlit("3"); }
        "3"
    } else if d == 4 {
        proof { reveal_strlit("4"); }
        "4"
    } else if d == 5 {
        proof { reveal_strlit("5"); }
        "5"
    } else if d == 6 {
        proof { reveal_strlit("6"); }
        "6"
    } else if d == 7 {
        proof { reveal_strlit("7"); }
        "7"
    } else if d == 8 {
        proof { reveal_strlit("8"); }
        "8"
    } else {
        proof { reveal_strlit("9"); }
        "9"
    }
}

/// Append the decimal digits of `n`.
pub fn push_digits(s: &mut String, n: u64)
    ensures
        final(s)@ == old(s)@ + digits(n as nat),
    decreases n,
{
    if n < 10 {
        s.append(digit_text(n));
    } else {
        push_digits(s, n / 10);
        s.append(digit_text(n % 10));
        assert(digits(n as nat) == digits((n / 10) as nat) + seq![digit_char((n % 10) as int)]);
    }
}

/// Append the decimal text of `n`.
pub fn push_decimal(s: &mut String, n: i64)
    requires
        n > i64::MIN,
    ensures
        final(s)@ == old(s)@ + decimal(n as int),
{
    if n < 0 {
        proof { reveal_strlit("-"); }
        s.append("-");
        let ghost mid = s@;
        push_digits(s, (-n) as u64);
        assert(s@ =~= old(s)@ + decimal(n as int));
    } else {
        push_digits(s, n as u64);
    }
}

/// A new string holding `prefix`.
pub fn text(prefix: &str) -> (s: String)
    ensures
        s@ == prefix@,
{
    String::from_str(prefix)
}

} // verus!
