use vstd::prelude::*;

verus! {

use vstd::string::StringExecFns;

/// The decimal digits of `n`, most significant first.
pub open spec fn decimal_digits(n: nat) -> Seq<char>
    decreases n,
{
    if n < 10 {
        seq![digit_char(n)]
    } else {
        decimal_digits(n / 10).push(digit_char(n % 10))
    }
}

pub open spec fn digit_char(d: nat) -> char {
    if d == 0 {
        '0'
    } else if d == 1 {
        '1'
    } else if d == 2 {
        '2'
    } else if d == 3 {
        '3'
    } else if d == 4 {
        '4'
    } else if d == 5 {
        '5'
    } else if d == 6 {
        '6'
    } else if d == 7 {
        '7'
    } else if d == 8 {
        '8'
    } else {
        '9'
    }
}

/// Relies on `u32::to_string`: the decimal digits of the number.
#[verifier::external_body]
pub(crate) fn decimal_string(n: u32) -> (r: String)
    ensures
        r@ == decimal_digits(n as nat),
{
    n.to_string()
}

/// The seed of walker `index`: the base seed followed by the walker's number
/// in decimal.
pub fn walker_seed(seed: &String, index: u32) -> (r: String)
    ensures
        r@ == seed@ + decimal_digits(index as nat),
{
    let digits = decimal_string(index);
    seed.clone().concat(digits.as_str())
}

} // verus!
