//! Mixed-radix packing of small tuples into single integer keys.
//!
//! The planner's hash tables are keyed by `u64`, so every structured key (a
//! grid state, a product state, an (agent, task) pair) is packed into one
//! integer by repeatedly scaling a high part past the range of a bounded low
//! part. Injectivity of one packing step is proved here once and reused by
//! every key schema.

use vstd::prelude::*;
use vstd::arithmetic::div_mod::lemma_fundamental_div_mod_converse;

verus! {

/// One mixed-radix packing step: `hi` scaled past the range `[0, bound)` that
/// holds `lo`.
pub open spec fn spec_pair(hi: int, lo: int, bound: int) -> int {
    hi * bound + lo
}

/// Packing is injective: two packed values agree only if both parts agree,
/// provided the low parts lie inside the radix.
pub proof fn lemma_pair_injective(hi1: int, lo1: int, hi2: int, lo2: int, bound: int)
    requires
        bound > 0,
        0 <= lo1 < bound,
        0 <= lo2 < bound,
        spec_pair(hi1, lo1, bound) == spec_pair(hi2, lo2, bound),
    ensures
        hi1 == hi2,
        lo1 == lo2,
{
    let x = spec_pair(hi1, lo1, bound);
    lemma_fundamental_div_mod_converse(x, bound, hi1, lo1);
    lemma_fundamental_div_mod_converse(x, bound, hi2, lo2);
}

/// A packed value stays within `hi_bound * bound` when both parts are in
/// range.
pub proof fn lemma_pair_bound(hi: int, lo: int, bound: int, hi_bound: int)
    requires
        bound > 0,
        0 <= lo < bound,
        0 <= hi < hi_bound,
    ensures
        0 <= spec_pair(hi, lo, bound) < hi_bound * bound,
        0 <= spec_pair(hi, lo, bound) < bound * hi_bound,
{
    assert(hi * bound + lo < hi_bound * bound && hi_bound * bound == bound * hi_bound) by (nonlinear_arith)
        requires
            bound > 0,
            0 <= lo < bound,
            0 <= hi < hi_bound,
    ;
    assert(hi * bound >= 0) by (nonlinear_arith)
        requires
            bound > 0,
            0 <= hi,
    ;
}

} // verus!
