//! Facts about products and truncating division, used where money is
//! multiplied in 128 bits.

use vstd::prelude::*;
use vstd::arithmetic::div_mod::lemma_fundamental_div_mod;
use vstd::arithmetic::div_mod::lemma_mod_bound;
use vstd::arithmetic::mul::lemma_mul_upper_bound;

verus! {

/// The product of two 64-bit numbers fits in 128 bits.
pub proof fn lemma_product_fits(a: u64, b: u64)
    ensures
        0 <= a * b <= 0xffff_ffff_ffff_fffe_0000_0000_0000_0001,
        a * b <= u128::MAX,
{
    lemma_mul_upper_bound(a as int, u64::MAX as int, b as int, u64::MAX as int);
    assert(u64::MAX * u64::MAX == 0xffff_ffff_ffff_fffe_0000_0000_0000_0001);
    assert(0 <= a * b) by (nonlinear_arith)
        requires
            0 <= a,
            0 <= b,
    ;
}

/// Truncating division is the greatest quotient whose multiple stays below
/// the dividend.
pub proof fn lemma_floor(x: int, d: int, q: int)
    requires
        0 <= x,
        0 < d,
    ensures
        0 <= x / d,
        q <= x / d <==> q * d <= x,
{
    lemma_fundamental_div_mod(x, d);
    lemma_mod_bound(x, d);
    let k: int = x / d;
    let r: int = x % d;
    assert(x == d * k + r);
    assert(0 <= k) by (nonlinear_arith)
        requires
            x == d * k + r,
            0 <= x,
            0 < d,
            0 <= r < d,
    ;
    if q <= k {
        assert(q * d <= x) by (nonlinear_arith)
            requires
                q <= k,
                x == d * k + r,
                0 < d,
                0 <= r,
        ;
    } else {
        assert(q * d > x) by (nonlinear_arith)
            requires
                q >= k + 1,
                x == d * k + r,
                0 < d,
                r < d,
        ;
    }
}

/// Division rounded up is the least quotient whose multiple reaches the
/// dividend.
pub proof fn lemma_ceiling(x: int, d: int, q: int)
    requires
        0 <= x,
        0 < d,
    ensures
        (x + d - 1) / d <= q <==> x <= q * d,
{
    // (x + d - 1) / d <= q  <==>  !(q + 1 <= (x + d - 1) / d)
    //                       <==>  !((q + 1) * d <= x + d - 1)
    lemma_floor(x + d - 1, d, q + 1);
    assert((q + 1) * d == q * d + d) by (nonlinear_arith);
}

} // verus!
