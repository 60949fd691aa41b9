//! Natural numbers written in decimal, without leading zeros.

use vstd::prelude::*;

verus! {

/// Whether `c` is one of the ten decimal digits.
pub open spec fn is_digit(c: char) -> bool {
    48 <= c as int <= 57
}

/// The digit that stands for `d`, a number below ten.
pub open spec fn digit(d: nat) -> char {
    (48 + d) as char
}

/// The number that the digit `c` stands for.
pub open spec fn digit_value(c: char) -> nat {
    (c as int - 48) as nat
}

/// The decimal form of `n`: no sign, no leading zero.
pub open spec fn digits(n: nat) -> Seq<char>
    decreases n,
{
    if n < 10 {
        seq![digit(n)]
    } else {
        digits(n / 10).push(digit(n % 10))
    }
}

/// The number that a run of digits stands for.
pub open spec fn number_of(s: Seq<char>) -> nat
    decreases s.len(),
{
    if s.len() == 0 {
        0
    } else {
        number_of(s.drop_last()) * 10 + digit_value(s.last())
    }
}

/// Whether `s` is the decimal form of a number: digits only, at least one,
/// and no leading zero but in "0" itself.
pub open spec fn is_number(s: Seq<char>) -> bool {
    &&& s.len() >= 1
    &&& forall|i: int| 0 <= i < s.len() ==> is_digit(#[trigger] s[i])
    &&& s.len() > 1 ==> s[0] != '0'
}

/// Reading the decimal form of a number gives the number back.
pub proof fn lemma_digits_number(n: nat)
    ensures
        is_number(digits(n)),
        number_of(digits(n)) == n,
        n >= 10 ==> digits(n).len() > 1,
    decreases n,
{
    if n < 10 {
        assert(number_of(digits(n).drop_last()) == 0);
    } else {
        lemma_digits_number(n / 10);
        let init = digits(n / 10);
        assert(digits(n).drop_last() =~= init);
    }
}

/// Writing the number that a decimal form stands for gives the form back.
pub proof fn lemma_number_digits(s: Seq<char>)
    requires
        is_number(s),
    ensures
        digits(number_of(s)) == s,
    decreases s.len(),
{
    if s.len() == 1 {
        assert(number_of(s.drop_last()) == 0);
    } else {
        lemma_number_digits(s.drop_last());
    }
}

/// The digit for `d`.
pub fn digit_of(d: u8) -> (c: char)
    requires
        d < 10,
    ensures
        c == digit(d as nat),
{
    (48u8 + d) as char
}

/// Appends the decimal form of `n` to `out`.
pub fn push_number(out: &mut String, n: u64)
    ensures
        final(out)@ == old(out)@ + digits(n as nat),
    decreases n,
{
    if n >= 10 {
        push_number(out, n / 10);
    }
    out.push(digit_of((n % 10) as u8));
}

} // verus!
