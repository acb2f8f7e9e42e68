//! Text that a node composes.

use vstd::prelude::*;

verus! {

/// The character of a decimal digit.
pub open spec fn digit(d: nat) -> char {
    if d == 0 {
        '0'
    } else if d == 1 {
        '1'
    } else if d == 2 {
        '2'
    } else if d == 3 {
        '3'
    } else if d == 4 {
        '4'
    } else if d == 5 {
        '5'
    } else if d == 6 {
        '6'
    } else if d == 7 {
        '7'
    } else if d == 8 {
        '8'
    } else {
        '9'
    }
}

/// A number in decimal, without leading zeros.
pub open spec fn decimal(n: nat) -> Seq<char>
    decreases n,
{
    if n < 10 {
        seq![digit(n)]
    } else {
        decimal(n / 10).push(digit(n % 10))
    }
}

/// The id that a node gives out under `counter`: the counter in decimal, a
/// hyphen, and the node's name.
pub open spec fn unique_id(counter: nat, node: Seq<char>) -> Seq<char> {
    decimal(counter) + seq!['-'] + node
}

/// `format!` with the pattern `"{}-{}"`, an integer and a string: std prints
/// the integer in decimal without padding and the string as it is.
#[verifier::external_body]
pub(crate) fn compose_id(counter: usize, node: &String) -> (id: String)
    ensures
        id@ == unique_id(counter as nat, node@),
{
    format!("{}-{}", counter, node)
}

} // verus!
