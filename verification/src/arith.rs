//! Integer square-root arithmetic used to size the square that random
//! seeding draws its coordinates from.

use vstd::prelude::*;

verus! {

/// `s` is the integer nearest to the square root of `n`. A tie cannot occur:
/// `4 * n` is even while `(2 * s + 1)` squared is odd.
pub open spec fn is_round_sqrt(n: int, s: int) -> bool {
    &&& 0 <= s
    &&& (s >= 1 ==> (2 * s - 1) * (2 * s - 1) <= 4 * n)
    &&& 4 * n < (2 * s + 1) * (2 * s + 1)
}

/// The integer nearest to the square root of `n`.
pub open spec fn round_sqrt(n: int) -> int {
    choose|s: int| is_round_sqrt(n, s)
}

/// The side of the random seeding square: the rounded square root of the
/// cell count, kept at least 1 and within coordinate range.
pub open spec fn rand_side(n: int) -> int {
    let s = round_sqrt(n);
    if s < 1 {
        1
    } else if s > i32::MAX as int {
        i32::MAX as int
    } else {
        s
    }
}

/// From a floor square root `r` of `n`, rounding up exactly when
/// `n > r * (r + 1)` gives the nearest integer to the square root.
pub proof fn lemma_round_from_floor(n: int, r: int)
    requires
        0 <= r,
        r * r <= n,
        n < (r + 1) * (r + 1),
    ensures
        is_round_sqrt(n, if n > r * (r + 1) { r + 1 } else { r }),
{
    if n > r * (r + 1) {
        assert((2 * (r + 1) - 1) * (2 * (r + 1) - 1) <= 4 * n) by (nonlinear_arith)
            requires
                n >= r * (r + 1) + 1,
                r >= 0,
        ;
        assert(4 * n < (2 * (r + 1) + 1) * (2 * (r + 1) + 1)) by (nonlinear_arith)
            requires
                n < (r + 1) * (r + 1),
                r >= 0,
        ;
    } else {
        if r >= 1 {
            assert((2 * r - 1) * (2 * r - 1) <= 4 * n) by (nonlinear_arith)
                requires
                    r * r <= n,
                    r >= 1,
            ;
        }
        assert(4 * n < (2 * r + 1) * (2 * r + 1)) by (nonlinear_arith)
            requires
                n <= r * (r + 1),
                r >= 0,
        ;
    }
}

/// At most one integer is nearest to the square root of `n`.
pub proof fn lemma_round_sqrt_unique(n: int, s1: int, s2: int)
    requires
        is_round_sqrt(n, s1),
        is_round_sqrt(n, s2),
    ensures
        s1 == s2,
{
    if s1 < s2 {
        assert((2 * s1 + 1) * (2 * s1 + 1) <= (2 * s2 - 1) * (2 * s2 - 1)) by (nonlinear_arith)
            requires
                0 <= s1,
                s1 < s2,
        ;
    }
    if s2 < s1 {
        assert((2 * s2 + 1) * (2 * s2 + 1) <= (2 * s1 - 1) * (2 * s1 - 1)) by (nonlinear_arith)
            requires
                0 <= s2,
                s2 < s1,
        ;
    }
}

/// The floor square root of a 64-bit value, by binary search.
fn isqrt64(n: u64) -> (r: u64)
    ensures
        r * r <= n,
        n < (r + 1) * (r + 1),
{
    if n >= 18446744065119617025 {
        // 4294967295 * 4294967295; everything above it floors to 4294967295
        return 4294967295;
    }
    let mut lo: u64 = 0;
    let mut hi: u64 = 4294967295;
    while lo < hi
        invariant
            lo <= hi <= 4294967295,
            lo * lo <= n,
            n < (hi + 1) * (hi + 1),
        decreases hi - lo,
    {
        let mid = lo + (hi - lo + 1) / 2;
        proof {
            assert(mid * mid <= 18446744065119617025) by (nonlinear_arith)
                requires
                    mid <= 4294967295,
            ;
        }
        if mid * mid <= n {
            lo = mid;
        } else {
            hi = mid - 1;
        }
    }
    lo
}

/// The side of the random seeding square for a requested cell count.
pub fn side_len(n: usize) -> (s: i32)
    ensures
        1 <= s,
        s as int == rand_side(n as int),
{
    let n64 = n as u64;
    let r = isqrt64(n64);
    let s64: u64 = if r < 4294967295 {
        proof {
            assert(r * (r + 1) <= 18446744060824649730) by (nonlinear_arith)
                requires
                    r <= 4294967294,
            ;
        }
        if n64 > r * (r + 1) {
            r + 1
        } else {
            r
        }
    } else {
        r
    };
    proof {
        let ni = n64 as int;
        let ri = r as int;
        let s0 = if ni > ri * (ri + 1) {
            ri + 1
        } else {
            ri
        };
        lemma_round_from_floor(ni, ri);
        lemma_round_sqrt_unique(ni, round_sqrt(ni), s0);
        assert(round_sqrt(ni) == s0);
    }
    if s64 < 1 {
        1
    } else if s64 > 0x7fffffff {
        i32::MAX
    } else {
        s64 as i32
    }
}

} // verus!
