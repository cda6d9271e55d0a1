//! Integer building blocks for the rational scalar type: a greatest common
//! divisor used to keep fractions small, and a floor square root used to
//! approximate Euclidean distances.

use vstd::prelude::*;
use vstd::arithmetic::div_mod::lemma_fundamental_div_mod;

verus! {

/// Euclid's greatest common divisor, the mathematical definition the
/// executable code is proved against.
pub open spec fn gcd(a: nat, b: nat) -> nat
    decreases b,
{
    if b == 0 {
        a
    } else {
        gcd(b, a % b)
    }
}

/// `g` divides `x` exactly.
pub open spec fn divides(g: nat, x: nat) -> bool {
    exists|k: nat| x == #[trigger] (g * k)
}

/// `gcd(a, b)` is a common divisor of `a` and `b`, and is positive and at
/// most `b` whenever `b` is.
pub proof fn lemma_gcd_divides(a: nat, b: nat)
    ensures
        divides(gcd(a, b), a),
        divides(gcd(a, b), b),
        b > 0 ==> 1 <= gcd(a, b) <= b,
    decreases b,
{
    if b == 0 {
        assert(a == a * 1);
        assert(b == a * 0);
    } else {
        lemma_gcd_divides(b, a % b);
        let g = gcd(b, (a % b) as nat);
        let k1 = choose|k: nat| b == #[trigger] (g * k);
        let k2 = choose|k: nat| (a % b) as nat == #[trigger] (g * k);
        lemma_fundamental_div_mod(a as int, b as int);
        assert(a == b * (a as int / b as int) + a % b);
        let q = a as int / b as int;
        assert(q >= 0) by {
            vstd::arithmetic::div_mod::lemma_div_pos_is_pos(a as int, b as int);
        }
        assert(a == g * (k1 * q + k2)) by (nonlinear_arith)
            requires
                a == b * q + (a % b),
                b == g * k1,
                (a % b) as nat == g * k2,
        {}
        assert(a == g * ((k1 * q + k2) as nat));
        assert(divides(g, a));
        if b > 0 {
            assert(g >= 1) by {
                if g == 0 {
                    assert(b == 0 * k1);
                }
            }
            assert(g <= b) by {
                if k1 == 0 {
                    assert(b == g * 0);
                } else {
                    assert(g * 1 <= g * k1) by (nonlinear_arith)
                        requires g >= 0, k1 >= 1,
                    {}
                }
            }
        }
    }
}

/// Executable greatest common divisor.
pub fn gcd_u(a: u128, b: u128) -> (g: u128)
    ensures
        g == gcd(a as nat, b as nat),
{
    let mut x: u128 = a;
    let mut y: u128 = b;
    while y != 0
        invariant
            gcd(x as nat, y as nat) == gcd(a as nat, b as nat),
        decreases y,
    {
        let r = x % y;
        x = y;
        y = r;
    }
    x
}

/// Floor square root, the mathematical definition the executable binary
/// search is proved against.
pub open spec fn isqrt(n: nat) -> nat
    decreases n,
{
    if n == 0 {
        0
    } else {
        let r = isqrt((n - 1) as nat);
        if (r + 1) * (r + 1) <= n {
            r + 1
        } else {
            r
        }
    }
}

/// `isqrt(n)` is the unique `r` with `r * r <= n < (r + 1) * (r + 1)`.
pub proof fn lemma_isqrt_bounds(n: nat)
    ensures
        isqrt(n) * isqrt(n) <= n,
        n < (isqrt(n) + 1) * (isqrt(n) + 1),
    decreases n,
{
    if n > 0 {
        lemma_isqrt_bounds((n - 1) as nat);
        let r = isqrt((n - 1) as nat);
        if (r + 1) * (r + 1) <= n {
            assert(isqrt(n) == r + 1);
            assert(n < ((r + 1) + 1) * ((r + 1) + 1)) by (nonlinear_arith)
                requires
                    n - 1 < (r + 1) * (r + 1),
                    r >= 0,
            {}
            assert(n < (isqrt(n) + 1) * (isqrt(n) + 1));
        } else {
            assert(isqrt(n) == r);
            assert(n < (isqrt(n) + 1) * (isqrt(n) + 1));
        }
    } else {
        assert(isqrt(n) == 0);
        assert(n < (isqrt(n) + 1) * (isqrt(n) + 1)) by (nonlinear_arith)
            requires
                n == 0,
                isqrt(n) == 0,
        {}
    }
}

/// Any `r` satisfying the floor-square-root bounds equals `isqrt(n)`.
pub proof fn lemma_isqrt_unique(n: nat, r: nat)
    requires
        r * r <= n,
        n < (r + 1) * (r + 1),
    ensures
        r == isqrt(n),
{
    lemma_isqrt_bounds(n);
    let s = isqrt(n);
    if r < s {
        assert((r + 1) * (r + 1) <= s * s) by (nonlinear_arith)
            requires r + 1 <= s,
        {}
    }
    if s < r {
        assert((s + 1) * (s + 1) <= r * r) by (nonlinear_arith)
            requires s + 1 <= r,
        {}
    }
}

/// Executable floor square root by binary search.
pub fn isqrt_u(n: u128) -> (r: u128)
    ensures
        r == isqrt(n as nat),
{
    if n == 0 {
        return 0;
    }
    let mut lo: u128 = 0;
    let mut hi: u128 = 0x1_0000_0000_0000_0000;
    while lo + 1 < hi
        invariant
            lo < hi <= 0x1_0000_0000_0000_0000u128,
            (lo as int) * (lo as int) <= n as int,
            (n as int) < (hi as int) * (hi as int),
        decreases hi - lo,
    {
        let mid = lo + (hi - lo) / 2;
        assert(lo < mid < hi);
        assert((mid as int) * (mid as int) <= 0xFFFF_FFFF_FFFF_FFFFi128 as int * 0xFFFF_FFFF_FFFF_FFFFi128 as int)
            by (nonlinear_arith)
            requires 0 <= (mid as int) <= 0xFFFF_FFFF_FFFF_FFFFi128 as int,
        {}
        if mid * mid <= n {
            lo = mid;
        } else {
            hi = mid;
        }
    }
    proof {
        lemma_isqrt_unique(n as nat, lo as nat);
    }
    lo
}

} // verus!
