//! The 2D editor grid's line pattern: which grid lines are primary (major)
//! ones. The line positions themselves are floating point and are computed
//! by the caller from the step and offset.

use vstd::prelude::*;

verus! {

/// `x` is a multiple of `m` exactly when `-x` is.
proof fn lemma_multiple_of_negation(x: int, m: int)
    requires
        m > 0,
    ensures
        (x % m == 0) == ((-x) % m == 0),
{
    if x % m == 0 {
        vstd::arithmetic::div_mod::lemma_fundamental_div_mod(x, m);
        let q = x / m;
        assert(-x == (-q) * m) by (nonlinear_arith)
            requires
                x == m * q;
        vstd::arithmetic::div_mod::lemma_mod_multiples_basic(-q, m);
    }
    if (-x) % m == 0 {
        vstd::arithmetic::div_mod::lemma_fundamental_div_mod(-x, m);
        let q = (-x) / m;
        assert(x == (-q) * m) by (nonlinear_arith)
            requires
                -x == m * q;
        vstd::arithmetic::div_mod::lemma_mod_multiples_basic(-q, m);
    }
}

/// Whether the grid line with index `index` (counted from the origin, so
/// negative to one side) is a primary line: every `primary_interval`-th line
/// is, and none is when the interval is 0.
pub fn is_primary_line(index: i64, primary_interval: u32) -> (r: bool)
    ensures
        r == (primary_interval > 0 && (index as int) % (primary_interval as int) == 0),
{
    if primary_interval == 0 {
        return false;
    }
    let magnitude: u64 = if index < 0 {
        ((-(index + 1)) as u64) + 1
    } else {
        index as u64
    };
    proof {
        if index < 0 {
            lemma_multiple_of_negation(index as int, primary_interval as int);
        }
    }
    magnitude % (primary_interval as u64) == 0
}

} // verus!
