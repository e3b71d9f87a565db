use vstd::prelude::*;

pub mod config;
pub mod rope;
pub mod strings;
pub mod text;
pub mod unicode;
pub mod word;
pub mod tui;

verus! {

/// Rounds the quotient of `a` and `b` up.
pub fn div_ceil(a: usize, b: usize) -> (r: usize)
    requires
        b > 0,
    ensures
        r == (a + b - 1) / (b as int),
{
    let q = a / b;
    let m = a % b;
    proof {
        assert(a == b * q + m && 0 <= m < b) by (nonlinear_arith)
            requires b > 0, q == a / b, m == a % b;
    }
    if m == 0 {
        proof {
            assert((a + b - 1) / (b as int) == q) by (nonlinear_arith)
                requires b > 0, a == b * q, q >= 0;
        }
        q
    } else {
        proof {
            assert(q + 1 <= a) by (nonlinear_arith)
                requires b > 0, a == b * q + m, 0 < m < b, q >= 0;
            assert((a + b - 1) / (b as int) == q + 1) by (nonlinear_arith)
                requires b > 0, a == b * q + m, 0 < m < b, q >= 0;
        }
        q + 1
    }
}

} // verus!
