//! Integer division that rounds toward negative or positive infinity.

use vstd::prelude::*;
use vstd::arithmetic::div_mod::lemma_fundamental_div_mod_converse;

verus! {

/// The quotient of `a` by a positive `b`, rounded toward negative infinity.
pub open spec fn floor_div(a: int, b: int) -> int
    recommends
        b > 0,
{
    a / b
}

/// The quotient of `a` by a positive `b`, rounded toward positive infinity.
pub open spec fn ceil_div(a: int, b: int) -> int
    recommends
        b > 0,
{
    (a + b - 1) / b
}

/// `floor_div(a, b)` is the one integer `q` with `q * b <= a < (q + 1) * b`.
pub proof fn lemma_floor_div_bounds(a: int, b: int)
    requires
        b > 0,
    ensures
        floor_div(a, b) * b <= a < (floor_div(a, b) + 1) * b,
{
    vstd::arithmetic::div_mod::lemma_fundamental_div_mod(a, b);
    vstd::arithmetic::div_mod::lemma_mod_bound(a, b);
    assert((a / b + 1) * b == (a / b) * b + b) by (nonlinear_arith);
    assert(b * (a / b) == (a / b) * b) by (nonlinear_arith);
}

/// `ceil_div(a, b)` is the one integer `q` with `(q - 1) * b < a <= q * b`.
pub proof fn lemma_ceil_div_bounds(a: int, b: int)
    requires
        b > 0,
    ensures
        (ceil_div(a, b) - 1) * b < a <= ceil_div(a, b) * b,
{
    lemma_floor_div_bounds(a + b - 1, b);
    let q = ceil_div(a, b);
    assert((q - 1) * b == q * b - b) by (nonlinear_arith);
    assert((q + 1) * b == q * b + b) by (nonlinear_arith);
}

/// The integer `q` with `q * b <= a < (q + 1) * b` is `floor_div(a, b)`.
pub proof fn lemma_floor_div_unique(a: int, b: int, q: int)
    requires
        b > 0,
        q * b <= a < q * b + b,
    ensures
        floor_div(a, b) == q,
{
    lemma_fundamental_div_mod_converse(a, b, q, a - q * b);
}

/// The step that holds `v`, where steps of length `size` are counted from zero
/// and the count starts again after every `n` steps.
#[verifier::opaque]
pub open spec fn step_index(v: int, size: int, n: int) -> int
    recommends
        size > 0,
        n > 0,
{
    floor_div(v, size) % n
}

/// Where a stretch of `n` steps of length `size` starts at the `m`-th such
/// stretch and holds `v`, `step_index` is the step of the stretch that holds
/// `v`.
pub proof fn lemma_step_of(v: int, m: int, size: int, n: int)
    requires
        size > 0,
        n > 0,
        m * (size * n) <= v < m * (size * n) + size * n,
    ensures
        0 <= step_index(v, size, n) < n,
        (m * n + step_index(v, size, n)) * size <= v < (m * n + step_index(v, size, n)) * size
            + size,
{
    reveal(step_index);
    let q = floor_div(v, size);
    lemma_floor_div_bounds(v, size);
    assert((q + 1) * size == q * size + size) by (nonlinear_arith);
    assert(m * (size * n) == (m * n) * size) by (nonlinear_arith);
    assert(m * (size * n) + size * n == (m * n + n) * size) by (nonlinear_arith);
    assert(m * n <= q < m * n + n) by (nonlinear_arith)
        requires
            size > 0,
            q * size <= v < q * size + size,
            (m * n) * size <= v < (m * n + n) * size,
    ;
    let k = q - m * n;
    vstd::arithmetic::div_mod::lemma_mod_multiples_vanish(m, k, n);
    vstd::arithmetic::div_mod::lemma_small_mod(k as nat, n as nat);
    assert(n * m + k == q) by (nonlinear_arith)
        requires
            k == q - m * n,
    ;
    assert(q % n == k);
}

/// Where step `j` of a stretch of `n` steps of length `size`, which starts at
/// the `m`-th such stretch, holds `v`, `step_index` is `j`.
pub proof fn lemma_step_unique(v: int, m: int, size: int, n: int, j: int)
    requires
        size > 0,
        n > 0,
        0 <= j < n,
        (m * n + j) * size <= v < (m * n + j) * size + size,
    ensures
        step_index(v, size, n) == j,
{
    reveal(step_index);
    lemma_floor_div_unique(v, size, m * n + j);
    vstd::arithmetic::div_mod::lemma_mod_multiples_vanish(m, j, n);
    vstd::arithmetic::div_mod::lemma_small_mod(j as nat, n as nat);
    assert(n * m + j == m * n + j) by (nonlinear_arith);
}

/// A quotient by a positive divisor lies between zero and the dividend.
pub proof fn lemma_floor_div_range(a: int, b: int)
    requires
        b > 0,
    ensures
        a >= 0 ==> 0 <= floor_div(a, b) <= a,
        a < 0 ==> a <= floor_div(a, b) <= -1,
{
    lemma_floor_div_bounds(a, b);
    let q = floor_div(a, b);
    assert((q + 1) * b == q * b + b) by (nonlinear_arith);
    if a >= 0 {
        assert(0 <= q <= a) by (nonlinear_arith)
            requires
                b >= 1,
                a >= 0,
                q * b <= a < q * b + b,
        ;
    } else {
        assert(a <= q <= -1) by (nonlinear_arith)
            requires
                b >= 1,
                a < 0,
                q * b <= a < q * b + b,
        ;
    }
}

/// Computes `floor_div(a, b)`.
pub(crate) fn div_floor(a: i64, b: i64) -> (q: i64)
    requires
        b > 0,
    ensures
        q == floor_div(a as int, b as int),
{
    if a >= 0 {
        a / b
    } else {
        let n: i128 = -(a as i128);
        let d: i128 = b as i128;
        let qn: i128 = n / d;
        let rn: i128 = n % d;
        proof {
            lemma_floor_div_bounds(n as int, d as int);
            lemma_floor_div_range(n as int, d as int);
            lemma_floor_div_range(a as int, b as int);
            vstd::arithmetic::div_mod::lemma_fundamental_div_mod(n as int, d as int);
            assert(d * qn == qn * d) by (nonlinear_arith);
        }
        if rn == 0 {
            proof {
                assert(a == (-qn) * d + 0) by (nonlinear_arith)
                    requires
                        n == qn * d + rn,
                        rn == 0,
                        a == -n,
                ;
                lemma_fundamental_div_mod_converse(a as int, b as int, -qn as int, 0);
            }
            (-qn) as i64
        } else {
            proof {
                assert(a == (-qn - 1) * d + (d - rn)) by (nonlinear_arith)
                    requires
                        n == qn * d + rn,
                        a == -n,
                ;
                lemma_fundamental_div_mod_converse(
                    a as int,
                    b as int,
                    (-qn - 1) as int,
                    (d - rn) as int,
                );
            }
            (-qn - 1) as i64
        }
    }
}

/// Computes `ceil_div(a, b)`.
pub(crate) fn div_ceil(a: i64, b: i64) -> (q: i64)
    requires
        b > 0,
    ensures
        q == ceil_div(a as int, b as int),
{
    let f: i64 = div_floor(a, b);
    proof {
        lemma_floor_div_bounds(a as int, b as int);
        lemma_floor_div_range(a as int, b as int);
        lemma_floor_div_bounds(a + b - 1, b as int);
        let c = ceil_div(a as int, b as int);
        assert((f + 1) * b == f * b + b) by (nonlinear_arith);
        assert((c + 1) * b == c * b + b) by (nonlinear_arith);
        if a == f * b {
            assert(c == f) by (nonlinear_arith)
                requires
                    b > 0,
                    a == f * b,
                    c * b <= a + b - 1 < c * b + b,
            ;
        } else {
            assert(c == f + 1) by (nonlinear_arith)
                requires
                    b > 0,
                    f * b < a < f * b + b,
                    c * b <= a + b - 1 < c * b + b,
            ;
            assert(f < a || f < 0) by (nonlinear_arith)
                requires
                    b > 0,
                    f * b < a,
                    a >= 0 ==> 0 <= f <= a,
                    a < 0 ==> f <= -1,
            ;
        }
        assert(-0x4000_0000_0000_0000_0000_0000_0000_0000 <= f * b
            <= 0x4000_0000_0000_0000_0000_0000_0000_0000) by (nonlinear_arith)
            requires
                -0x8000_0000_0000_0000 <= f <= 0x7fff_ffff_ffff_ffff,
                0 < b <= 0x7fff_ffff_ffff_ffff,
        ;
    }
    if a as i128 == f as i128 * b as i128 {
        f
    } else {
        f + 1
    }
}

/// Computes `step_index(v, size, n)`.
pub(crate) fn step(v: i64, size: i64, n: i64) -> (r: i64)
    requires
        0 <= v,
        size > 0,
        n > 0,
    ensures
        r == step_index(v as int, size as int, n as int),
        0 <= r < n,
{
    proof {
        reveal(step_index);
        lemma_floor_div_range(v as int, size as int);
    }
    div_floor(v, size) % n
}

} // verus!
