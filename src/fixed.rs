//! Fixed-point scalars: saturation to the coordinate range, floor division
//! and integer square roots.
use vstd::prelude::*;

verus! {

/// The fixed-point unit: a stored integer `n` stands for the real `n / ONE`.
pub const ONE: i64 = 65536;

/// Half of `ONE`, the real number one half.
pub const HALF: i64 = 32768;

/// The value stored for a coordinate after saturation to the symmetric range
/// `[-i32::MAX, i32::MAX]`, in which negation is always exact.
pub open spec fn clamp32(v: int) -> int {
    if v < -(i32::MAX as int) {
        -(i32::MAX as int)
    } else if v > i32::MAX {
        i32::MAX as int
    } else {
        v
    }
}

/// Floor division for any non-zero divisor (the quotient rounded toward minus infinity).
pub open spec fn fdiv(a: int, b: int) -> int {
    if b > 0 {
        a / b
    } else {
        (-a) / (-b)
    }
}

/// The product of two fixed-point numbers, rounded down.
pub open spec fn fmul(a: int, b: int) -> int {
    fdiv(a * b, ONE as int)
}

/// `r` is the integer square root of `n`.
pub open spec fn is_isqrt(r: int, n: int) -> bool {
    0 <= r && r * r <= n && n < (r + 1) * (r + 1)
}

/// The integer square root of a non-negative `n`.
pub open spec fn sqrt_floor(n: int) -> int {
    choose|r: int| is_isqrt(r, n)
}

/// Every non-negative integer has an integer square root.
pub proof fn lemma_sqrt_floor_exists(n: int)
    requires
        n >= 0,
    ensures
        is_isqrt(sqrt_floor(n), n),
    decreases n,
{
    if n == 0 {
        assert(is_isqrt(0, 0));
    } else {
        lemma_sqrt_floor_exists(n - 1);
        let r = sqrt_floor(n - 1);
        if n < (r + 1) * (r + 1) {
            assert(is_isqrt(r, n));
        } else {
            assert((r + 2) * (r + 2) > n) by (nonlinear_arith)
                requires
                    n - 1 < (r + 1) * (r + 1),
                    r >= 0,
            ;
            assert(is_isqrt(r + 1, n));
        }
    }
}

/// The integer square root is unique: any witness is the one that `sqrt_floor` picks.
pub proof fn lemma_sqrt_floor_unique(r: int, n: int)
    requires
        is_isqrt(r, n),
    ensures
        sqrt_floor(n) == r,
{
    let q = sqrt_floor(n);
    assert(is_isqrt(q, n));
    if q < r {
        assert((q + 1) * (q + 1) <= r * r) by (nonlinear_arith)
            requires
                0 <= q,
                q + 1 <= r,
        ;
    } else if r < q {
        assert((r + 1) * (r + 1) <= q * q) by (nonlinear_arith)
            requires
                0 <= r,
                r + 1 <= q,
        ;
    }
}

/// Saturates a wide intermediate result to the range of a coordinate.
pub fn saturate(v: i128) -> (r: i32)
    ensures
        r == clamp32(v as int),
{
    if v < -(i32::MAX as i128) {
        -i32::MAX
    } else if v > i32::MAX as i128 {
        i32::MAX
    } else {
        v as i32
    }
}

/// The exact product of two coordinates.
pub fn mul_wide(a: i32, b: i32) -> (r: i128)
    ensures
        r == a as int * b as int,
        -0x4000_0000_0000_0000 <= r <= 0x4000_0000_0000_0000,
{
    assert(-0x4000_0000_0000_0000 <= a as int * b as int <= 0x4000_0000_0000_0000)
        by (nonlinear_arith)
        requires
            -0x8000_0000 <= a < 0x8000_0000,
            -0x8000_0000 <= b < 0x8000_0000,
    ;
    a as i128 * b as i128
}

/// The exact product of a coordinate and a fixed-point scalar.
pub fn mul_scalar(a: i32, b: i64) -> (r: i128)
    ensures
        r == a as int * b as int,
        -0x4000_0000_0000_0000_0000_0000 <= r <= 0x4000_0000_0000_0000_0000_0000,
{
    assert(-0x4000_0000_0000_0000_0000_0000 <= a as int * b as int
        <= 0x4000_0000_0000_0000_0000_0000) by (nonlinear_arith)
        requires
            -0x8000_0000 <= a < 0x8000_0000,
            -0x8000_0000_0000_0000 <= b < 0x8000_0000_0000_0000,
    ;
    a as i128 * b as i128
}

/// Floor division of `a` by a non-zero `b`.
pub fn div_floor(a: i128, b: i128) -> (r: i128)
    requires
        b != 0,
        -0x4000_0000_0000_0000_0000_0000_0000_0000 < a < 0x4000_0000_0000_0000_0000_0000_0000_0000,
        -0x4000_0000_0000_0000_0000_0000_0000_0000 < b < 0x4000_0000_0000_0000_0000_0000_0000_0000,
    ensures
        r == fdiv(a as int, b as int),
{
    let (n, d): (i128, i128) = if b > 0 { (a, b) } else { (-a, -b) };
    if n >= 0 {
        n / d
    } else {
        let m: i128 = -n;
        let q: i128 = (m + d - 1) / d;
        proof {
            lemma_floor_of_negative(n as int, d as int);
        }
        -q
    }
}

/// For `n < 0 < d`, the floor of `n / d` is minus the ceiling of `-n / d`.
proof fn lemma_floor_of_negative(n: int, d: int)
    requires
        n < 0,
        d > 0,
    ensures
        n / d == -((-n + d - 1) / d),
{
    let q = (-n + d - 1) / d;
    let r = (-n + d - 1) % d;
    vstd::arithmetic::div_mod::lemma_fundamental_div_mod(-n + d - 1, d);
    assert(d * q + r == -n + d - 1);
    assert(0 <= r < d);
    // n == d * (-q) + (d - 1 - r), with 0 <= d - 1 - r < d.
    assert(n == d * (-q) + (d - 1 - r)) by (nonlinear_arith)
        requires
            d * q + r == -n + d - 1,
    ;
    vstd::arithmetic::div_mod::lemma_fundamental_div_mod_converse(n, d, -q, d - 1 - r);
}

/// The integer square root of `n`: the largest `r` with `r * r <= n`.
pub fn isqrt(n: u128) -> (r: u128)
    ensures
        is_isqrt(r as int, n as int),
        r == sqrt_floor(n as int),
        r < 0x1_0000_0000_0000_0000,
{
    let mut lo: u128 = 0;
    let mut hi: u128 = 0x1_0000_0000_0000_0000;
    assert(hi * hi > u128::MAX) by (nonlinear_arith)
        requires
            hi == 0x1_0000_0000_0000_0000u128,
    ;
    while hi - lo > 1
        invariant
            lo < hi <= 0x1_0000_0000_0000_0000,
            lo * lo <= n,
            n < hi * hi,
        decreases hi - lo,
    {
        let mid: u128 = lo + (hi - lo) / 2;
        assert(mid * mid <= u128::MAX) by (nonlinear_arith)
            requires
                mid < 0x1_0000_0000_0000_0000,
        ;
        if mid * mid <= n {
            lo = mid;
        } else {
            hi = mid;
        }
    }
    assert(hi == lo + 1);
    proof {
        lemma_sqrt_floor_unique(lo as int, n as int);
    }
    lo
}

} // verus!
