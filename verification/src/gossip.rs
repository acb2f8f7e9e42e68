//! What a tick sends to one neighbour.
//!
//! A neighbour gets every value it is not believed to hold. Of the values it
//! is believed to hold, each goes out again with a small probability, so that
//! a value lost on the way is repaired sooner or later while the expected
//! number of repeats per tick stays bounded.

use crate::chance::flip;
use std::collections::HashSet;
use vstd::prelude::*;

verus! {

/// The expected number of values that a tick sends again to a neighbour that
/// holds them all, once the node knows more values than this.
pub const RESEND_TARGET: u32 = 10;

/// The numerator of the resend probability for a node that has seen `count`
/// values: `min(10, count)`.
pub open spec fn resend_numerator(count: nat) -> nat {
    if count <= RESEND_TARGET {
        count
    } else {
        RESEND_TARGET as nat
    }
}

/// The denominator of the resend probability for a node that has seen `count`
/// values: `count`, as far as 32 bits hold it.
pub open spec fn resend_denominator(count: nat) -> nat {
    if count <= u32::MAX {
        count
    } else {
        u32::MAX as nat
    }
}

/// The resend probability for a node that has seen `count` values, as a
/// fraction `(numerator, denominator)`. No fraction is defined for a node that
/// has seen nothing: the pair is then `(0, 0)` and nothing is sampled.
pub fn resend_odds(count: usize) -> (odds: (u32, u32))
    ensures
        odds.0 == resend_numerator(count as nat),
        odds.1 == resend_denominator(count as nat),
        odds.0 <= odds.1,
        count > 0 ==> odds.1 > 0,
{
    let denominator: u32 = if count <= u32::MAX as usize {
        count as u32
    } else {
        u32::MAX
    };
    let numerator: u32 = if denominator <= RESEND_TARGET {
        denominator
    } else {
        RESEND_TARGET
    };
    (numerator, denominator)
}

/// Whether the value at position `i` of `seen` goes out to a neighbour that is
/// believed to hold `known`, when `resend` holds the coin of each position: it
/// does if the neighbour is not believed to hold it, or if its coin came up.
pub open spec fn goes_out(seen: Seq<usize>, known: Set<usize>, resend: Seq<bool>, i: int) -> bool {
    !known.contains(seen[i]) || (i < resend.len() && resend[i])
}

/// The values that go out, in the order in which they were seen.
pub open spec fn outgoing(seen: Seq<usize>, known: Set<usize>, resend: Seq<bool>) -> Seq<usize>
    decreases seen.len(),
{
    if seen.len() == 0 {
        Seq::empty()
    } else {
        let rest = outgoing(seen.drop_last(), known, resend);
        if goes_out(seen, known, resend, seen.len() - 1) {
            rest.push(seen.last())
        } else {
            rest
        }
    }
}

/// What holds of the coins of one tick for one neighbour, however they fell:
/// there is one per position of `seen`; a position whose value the neighbour is
/// not believed to hold was not tossed and counts as tails; and while the node
/// has seen no more than [`RESEND_TARGET`] values the probability is one, so
/// every toss came up.
pub open spec fn fair_tosses(seen: Seq<usize>, known: Set<usize>, resend: Seq<bool>) -> bool {
    &&& resend.len() == seen.len()
    &&& forall|i: int| 0 <= i < seen.len() && !known.contains(seen[i]) ==> !resend[i]
    &&& seen.len() <= RESEND_TARGET ==> forall|i: int|
        0 <= i < seen.len() && known.contains(seen[i]) ==> resend[i]
}

/// Picks the values that go out to one neighbour, given the coins.
pub fn select_outgoing(seen: &Vec<usize>, known: &HashSet<usize>, resend: &Vec<bool>) -> (out: Vec<
    usize,
>)
    ensures
        out@ == outgoing(seen@, known@, resend@),
{
    let mut out: Vec<usize> = Vec::new();
    let mut i: usize = 0;
    while i < seen.len()
        invariant
            i <= seen.len(),
            out@ == outgoing(seen@.take(i as int), known@, resend@),
        decreases seen.len() - i,
    {
        let value = seen[i];
        let again = i < resend.len() && resend[i];
        proof {
            assert(seen@.take(i + 1).drop_last() =~= seen@.take(i as int));
        }
        if !known.contains(&value) || again {
            out.push(value);
        }
        i += 1;
    }
    proof {
        assert(seen@.take(seen.len() as int) =~= seen@);
    }
    out
}

/// Tosses the coin of each position of `seen` for a neighbour that is believed
/// to hold `known`, with the odds that [`resend_odds`] gives. A position whose
/// value the neighbour is not believed to hold gets no toss.
pub fn toss_resend(rng: &mut rand::rngs::ThreadRng, seen: &Vec<usize>, known: &HashSet<usize>) -> (resend:
    Vec<bool>)
    ensures
        fair_tosses(seen@, known@, resend@),
{
    let odds = resend_odds(seen.len());
    let mut resend: Vec<bool> = Vec::new();
    let mut i: usize = 0;
    while i < seen.len()
        invariant
            i <= seen.len(),
            resend.len() == i,
            odds.0 == resend_numerator(seen.len() as nat),
            odds.1 == resend_denominator(seen.len() as nat),
            forall|j: int| 0 <= j < i && !known@.contains(seen[j]) ==> !resend[j],
            seen.len() <= RESEND_TARGET ==> forall|j: int|
                0 <= j < i && known@.contains(seen[j]) ==> resend[j],
        decreases seen.len() - i,
    {
        let value = seen[i];
        let heads = if known.contains(&value) {
            flip(rng, odds.0, odds.1)
        } else {
            false
        };
        resend.push(heads);
        i += 1;
    }
    resend
}

} // verus!
