//! A fact about quotients that the bounds of the crate rest on.

use vstd::prelude::*;

verus! {

/// `x / d` is at most `c` when `x` is at most `c * d`.
pub proof fn lemma_quotient_at_most(x: int, c: int, d: int)
    by (nonlinear_arith)
    requires
        d > 0,
        0 <= x <= c * d,
    ensures
        0 <= x / d <= c,
{
}

} // verus!
