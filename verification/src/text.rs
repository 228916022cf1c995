//! Decimal numbers as text.

use vstd::prelude::*;
use vstd::string::*;

verus! {

/// The decimal digit of a number below ten.
pub open spec fn digit(n: nat) -> char {
    (n + '0' as nat) as char
}

/// The decimal digits of `n`, without leading zeros.
pub open spec fn decimal(n: nat) -> Seq<char>
    decreases n,
{
    if n < 10 {
        seq![digit(n)]
    } else {
        decimal(n / 10).push(digit(n % 10))
    }
}

/// The decimal digits of `n`, after a minus sign where `n` is negative.
pub open spec fn signed_decimal(n: int) -> Seq<char> {
    if n < 0 {
        "-"@ + decimal((-n) as nat)
    } else {
        decimal(n as nat)
    }
}

/// Different numbers have different digits.
pub proof fn law_decimal_is_distinct(a: nat, b: nat)
    requires
        decimal(a) == decimal(b),
    ensures
        a == b,
    decreases a,
{
    assert(decimal(a).last() == digit(a % 10));
    assert(decimal(b).last() == digit(b % 10));
    if a >= 10 {
        lemma_decimal_is_not_empty(a / 10);
        lemma_decimal_is_not_empty(b / 10);
        assert(decimal(a).drop_last() =~= decimal(a / 10));
        assert(decimal(b).drop_last() =~= decimal(b / 10));
        law_decimal_is_distinct(a / 10, b / 10);
    } else if b >= 10 {
        lemma_decimal_is_not_empty(b / 10);
    }
}

/// A number has at least one digit.
proof fn lemma_decimal_is_not_empty(n: nat)
    ensures
        decimal(n).len() > 0,
{
}

/// The decimal digits denote the number that they are written for: each is a digit, the first is
/// not zero unless it is the only one, and read from left to right they make up the number.
pub proof fn law_decimal_denotes(n: nat)
    ensures
        decimal(n).len() > 0,
        forall|i: int|
            0 <= i < decimal(n).len() ==> '0' as int <= #[trigger] decimal(n)[i] as int
                <= '9' as int,
        decimal(n).len() > 1 ==> decimal(n)[0] != '0',
        decimal(n).fold_left(
            0int,
            |value: int, c: char| 10 * value + (c as int - '0' as int),
        ) == n,
{
    let f = |value: int, c: char| 10 * value + (c as int - '0' as int);
    lemma_decimal_value(n, f);
    lemma_decimal_digits(n);
}

/// What the decimal digits make up.
proof fn lemma_decimal_value(n: nat, f: spec_fn(int, char) -> int)
    requires
        forall|value: int, c: char| #[trigger]
            f(value, c) == 10 * value + (c as int - '0' as int),
    ensures
        decimal(n).fold_left(0int, f) == n,
    decreases n,
{
    reveal_with_fuel(Seq::fold_left, 2);
    if n < 10 {
        assert(decimal(n).drop_last() =~= Seq::empty());
    } else {
        lemma_decimal_value(n / 10, f);
        assert(decimal(n).drop_last() =~= decimal(n / 10));
    }
}

/// Which characters the decimal digits are.
proof fn lemma_decimal_digits(n: nat)
    ensures
        decimal(n).len() > 0,
        forall|i: int|
            0 <= i < decimal(n).len() ==> '0' as int <= #[trigger] decimal(n)[i] as int
                <= '9' as int,
        n > 0 ==> decimal(n)[0] != '0',
        n == 0 ==> decimal(n).len() == 1,
    decreases n,
{
    if n >= 10 {
        lemma_decimal_digits(n / 10);
        assert forall|i: int| 0 <= i < decimal(n).len() implies '0' as int <= #[trigger] decimal(
            n,
        )[i] as int <= '9' as int by {
            if i < decimal(n).len() - 1 {
                assert(decimal(n)[i] == decimal(n / 10)[i]);
            }
        }
    }
}

/// A negative number is written as a minus sign and the digits of the number without it, any
/// other as its digits alone.
pub proof fn law_signed_decimal_denotes(n: int)
    ensures
        n < 0 ==> {
            &&& signed_decimal(n).len() > 0
            &&& signed_decimal(n)[0] == '-'
            &&& signed_decimal(n).skip(1) == decimal((0 - n) as nat)
        },
        n >= 0 ==> signed_decimal(n) == decimal(n as nat),
{
    reveal_strlit("-");
    if n < 0 {
        assert(signed_decimal(n).skip(1) =~= decimal((0 - n) as nat));
    }
}

/// Different numbers are written differently, also where they may be negative.
pub proof fn law_signed_decimal_is_distinct(a: int, b: int)
    requires
        signed_decimal(a) == signed_decimal(b),
    ensures
        a == b,
{
    law_signed_decimal_denotes(a);
    law_signed_decimal_denotes(b);
    if a >= 0 {
        lemma_decimal_digits(a as nat);
        assert('0' as int <= decimal(a as nat)[0] as int);
    }
    if b >= 0 {
        lemma_decimal_digits(b as nat);
        assert('0' as int <= decimal(b as nat)[0] as int);
    }
    if a < 0 && b < 0 {
        law_decimal_is_distinct((0 - a) as nat, (0 - b) as nat);
    } else if a >= 0 && b >= 0 {
        law_decimal_is_distinct(a as nat, b as nat);
    }
}

/// Append the decimal digit of `n`.
fn push_digit(s: &mut String, n: u32)
    requires
        n < 10,
    ensures
        final(s)@ == old(s)@.push(digit(n as nat)),
{
    proof {
        reveal_strlit("0");
        reveal_strlit("1");
        reveal_strlit("2");
        reveal_strlit("3");
        reveal_strlit("4");
        reveal_strlit("5");
        reveal_strlit("6");
        reveal_strlit("7");
        reveal_strlit("8");
        reveal_strlit("9");
    }
    let text: &str = match n {
        0 => "0",
        1 => "1",
        2 => "2",
        3 => "3",
        4 => "4",
        5 => "5",
        6 => "6",
        7 => "7",
        8 => "8",
        _ => "9",
    };
    assert(text@ =~= seq![digit(n as nat)]);
    s.append(text);
}

/// Append `n` in decimal.
pub(crate) fn push_decimal(s: &mut String, n: u32)
    ensures
        final(s)@ == old(s)@ + decimal(n as nat),
    decreases n,
{
    if n >= 10 {
        push_decimal(s, n / 10);
    }
    push_digit(s, n % 10);
}

/// Append `n` in decimal, with a minus sign if it is negative.
pub(crate) fn push_signed_decimal(s: &mut String, n: i32)
    ensures
        final(s)@ == old(s)@ + signed_decimal(n as int),
{
    let wide: i64 = n as i64;
    if wide < 0 {
        s.append("-");
        push_decimal(s, (0 - wide) as u32);
    } else {
        push_decimal(s, wide as u32);
    }
}

} // verus!
