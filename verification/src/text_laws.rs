//! Laws of numerals.

use vstd::prelude::*;

use crate::text;

verus! {

/// The number that a row of decimal digits stands for.
pub open spec fn numeral_value(digits: Seq<char>) -> int
    decreases digits.len(),
{
    if digits.len() == 0 {
        0
    } else {
        numeral_value(digits.drop_last()) * 10 + (digits.last() as int - '0' as int)
    }
}

/// The numeral of a number consists of decimal digits, stands for that number, and
/// starts with a zero only if it is the numeral of zero.
pub proof fn law_decimal(n: nat)
    ensures
        text::decimal(n).len() > 0,
        forall|i: int|
            0 <= i < text::decimal(n).len() ==> '0' <= #[trigger] text::decimal(n)[i] <= '9',
        numeral_value(text::decimal(n)) == n,
        text::decimal(n)[0] == '0' ==> n == 0,
        n == 0 ==> text::decimal(n) == seq!['0'],
    decreases n,
{
    reveal_with_fuel(numeral_value, 2);
    if n >= 10 {
        law_decimal(n / 10);
        assert(text::decimal(n).drop_last() =~= text::decimal(n / 10));
    }
}

} // verus!
