//! Points on circles and ellipses sampled at equal angles, with the cosine and
//! sine evaluated in fixed point (scale `2^32`) by their Taylor series.
use vstd::prelude::*;

verus! {

/// Fixed-point one.
pub const FX_ONE: u128 = 4294967296;
/// `pi / 2` in fixed point.
pub const FX_HALF_PI: u128 = 6746518852;
/// Highest Taylor term used.
pub const TAYLOR_TERMS: u128 = 7;

/// Denominator that takes Taylor term `k - 1` to term `k`; `off` is 0 for the
/// sine (odd powers) and 1 for the cosine (even powers).
pub open spec fn term_den(k: int, off: int) -> int {
    FX_ONE * ((2 * k - off) * (2 * k + 1 - off))
}

/// Taylor term `k` (without its sign) for the angle whose fixed-point square is `u`.
pub open spec fn taylor_term(t0: int, u: int, k: nat, off: int) -> int
    decreases k,
{
    if k == 0 {
        t0
    } else {
        taylor_term(t0, u, (k - 1) as nat, off) * u / term_den(k as int, off)
    }
}

/// Alternating sum of the Taylor terms `0..=k`.
pub open spec fn taylor_sum(t0: int, u: int, k: nat, off: int) -> int
    decreases k,
{
    if k == 0 {
        t0
    } else if k % 2 == 1 {
        taylor_sum(t0, u, (k - 1) as nat, off) - taylor_term(t0, u, k, off)
    } else {
        taylor_sum(t0, u, (k - 1) as nat, off) + taylor_term(t0, u, k, off)
    }
}

/// Fixed-point sine of the fixed-point angle `phi` in `[0, pi/2)`.
pub open spec fn fx_sin(phi: int) -> int {
    taylor_sum(phi, phi * phi / FX_ONE as int, TAYLOR_TERMS as nat, 0)
}

/// Fixed-point cosine of the fixed-point angle `phi` in `[0, pi/2)`.
pub open spec fn fx_cos(phi: int) -> int {
    taylor_sum(FX_ONE as int, phi * phi / FX_ONE as int, TAYLOR_TERMS as nat, 1)
}

/// Fixed-point `(cos, sin)` of the angle `2 pi i / n`.
pub open spec fn turn(i: int, n: int) -> (int, int) {
    let q = (4 * i / n) % 4;
    let phi = FX_HALF_PI * ((4 * i) % n) / n;
    let c = fx_cos(phi);
    let s = fx_sin(phi);
    if q == 0 {
        (c, s)
    } else if q == 1 {
        (-s, c)
    } else if q == 2 {
        (-c, -s)
    } else {
        (s, -c)
    }
}

/// `floor((c2 + r2 * t) / 2)` for a doubled center `c2`, doubled radius `r2` and
/// fixed-point factor `t`, saturated to the range of `usize`.
pub open spec fn ring_coord(c2: int, r2: int, t: int) -> int {
    let v = c2 * FX_ONE + r2 * t;
    if v <= 0 {
        0
    } else if v / (2 * FX_ONE) > usize::MAX {
        usize::MAX as int
    } else {
        v / (2 * FX_ONE)
    }
}

/// Sample `i` of `n` on the ellipse with doubled center `(cx2, cy2)` and doubled
/// radii `(rx2, ry2)`.
pub open spec fn ring_point(cx2: int, cy2: int, rx2: int, ry2: int, i: int, n: int) -> (int, int) {
    (ring_coord(cx2, rx2, turn(i, n).0), ring_coord(cy2, ry2, turn(i, n).1))
}

proof fn lemma_term_bound(t0: int, u: int, k: nat, off: int)
    requires
        0 <= t0 <= 2 * FX_ONE,
        0 <= u <= 3 * FX_ONE,
        off == 0 || (off == 1 && t0 <= FX_ONE),
    ensures
        0 <= taylor_term(t0, u, k, off) <= 2 * FX_ONE,
    decreases k,
{
    if k > 0 {
        lemma_term_bound(t0, u, (k - 1) as nat, off);
        let p = taylor_term(t0, u, (k - 1) as nat, off);
        let d = term_den(k as int, off);
        assert(0 <= p * u) by (nonlinear_arith)
            requires
                0 <= p,
                0 <= u,
        ;
        if k == 1 && off == 1 {
            assert((2 * k - off) * (2 * k + 1 - off) == 2) by (nonlinear_arith)
                requires
                    k == 1,
                    off == 1,
            ;
            assert(d == 2 * FX_ONE);
            assert(p * u <= 3 * FX_ONE * FX_ONE) by (nonlinear_arith)
                requires
                    0 <= p <= FX_ONE,
                    0 <= u <= 3 * FX_ONE,
            ;
            assert(p * u / d <= 2 * FX_ONE) by (nonlinear_arith)
                requires
                    0 <= p * u <= 3 * FX_ONE * FX_ONE,
                    d == 2 * FX_ONE,
            ;
        } else {
            assert((2 * k - off) * (2 * k + 1 - off) >= 6) by (nonlinear_arith)
                requires
                    k >= 1,
                    off == 0 || (off == 1 && k >= 2),
            ;
            assert(d >= 6 * FX_ONE);
            assert(p * u <= 6 * FX_ONE * FX_ONE) by (nonlinear_arith)
                requires
                    0 <= p <= 2 * FX_ONE,
                    0 <= u <= 3 * FX_ONE,
            ;
            assert(p * u / d <= 2 * FX_ONE) by (nonlinear_arith)
                requires
                    0 <= p * u <= 6 * FX_ONE * FX_ONE,
                    d >= 6 * FX_ONE,
            ;
        }
        assert(p * u / d >= 0) by (nonlinear_arith)
            requires
                0 <= p * u,
                d > 0,
        ;
    }
}

proof fn lemma_sum_bound(t0: int, u: int, k: nat, off: int)
    requires
        0 <= t0 <= 2 * FX_ONE,
        0 <= u <= 3 * FX_ONE,
        off == 0 || (off == 1 && t0 <= FX_ONE),
    ensures
        -2 * FX_ONE * k <= taylor_sum(t0, u, k, off) <= 2 * FX_ONE * (k + 1),
    decreases k,
{
    if k > 0 {
        lemma_sum_bound(t0, u, (k - 1) as nat, off);
        lemma_term_bound(t0, u, k, off);
        let prev = taylor_sum(t0, u, (k - 1) as nat, off);
        let t = taylor_term(t0, u, k, off);
        assert(-2 * FX_ONE * k <= prev - t && prev + t <= 2 * FX_ONE * (k + 1)) by (nonlinear_arith)
            requires
                -2 * FX_ONE * (k - 1) <= prev <= 2 * FX_ONE * k,
                0 <= t <= 2 * FX_ONE,
        ;
        assert(taylor_sum(t0, u, k, off) == prev - t || taylor_sum(t0, u, k, off) == prev + t);
        assert(-2 * FX_ONE * k <= prev + t && prev - t <= 2 * FX_ONE * (k + 1)) by (nonlinear_arith)
            requires
                -2 * FX_ONE * (k - 1) <= prev <= 2 * FX_ONE * k,
                0 <= t <= 2 * FX_ONE,
        ;
    } else {
        assert(-2 * FX_ONE * k <= t0 <= 2 * FX_ONE * (k + 1)) by (nonlinear_arith)
            requires
                k == 0,
                0 <= t0 <= 2 * FX_ONE,
        ;
    }
}

/// Alternating Taylor sum of terms `0..=TAYLOR_TERMS`.
fn series(t0: u128, u: u128, off: u128) -> (r: i128)
    requires
        t0 <= 2 * FX_ONE,
        u <= 3 * FX_ONE,
        off == 0 || (off == 1 && t0 <= FX_ONE),
    ensures
        r == taylor_sum(t0 as int, u as int, TAYLOR_TERMS as nat, off as int),
        -16 * FX_ONE <= r <= 16 * FX_ONE,
{
    let mut term: u128 = t0;
    let mut sum: i128 = t0 as i128;
    let mut k: u128 = 1;
    while k <= TAYLOR_TERMS
        invariant
            1 <= k <= TAYLOR_TERMS + 1,
            t0 <= 2 * FX_ONE,
            u <= 3 * FX_ONE,
            off == 0 || (off == 1 && t0 <= FX_ONE),
            term == taylor_term(t0 as int, u as int, (k - 1) as nat, off as int),
            sum == taylor_sum(t0 as int, u as int, (k - 1) as nat, off as int),
        decreases TAYLOR_TERMS + 1 - k,
    {
        proof {
            assert(-2 * FX_ONE * (k - 1) >= -16 * FX_ONE && 2 * FX_ONE * k <= 16 * FX_ONE) by (nonlinear_arith)
                requires
                    1 <= k <= 7,
            ;
            lemma_term_bound(t0 as int, u as int, (k - 1) as nat, off as int);
            lemma_term_bound(t0 as int, u as int, k as nat, off as int);
            lemma_sum_bound(t0 as int, u as int, (k - 1) as nat, off as int);
            assert(term * u <= 6 * FX_ONE * FX_ONE) by (nonlinear_arith)
                requires
                    term <= 2 * FX_ONE,
                    u <= 3 * FX_ONE,
            ;
            assert(1 <= (2 * k - off) * (2 * k + 1 - off) <= 300) by (nonlinear_arith)
                requires
                    1 <= k <= 7,
                    off == 0 || off == 1,
            ;
        }
        let den: u128 = FX_ONE * ((2 * k - off) * (2 * k + 1 - off));
        term = term * u / den;
        if k % 2 == 1 {
            sum = sum - term as i128;
        } else {
            sum = sum + term as i128;
        }
        k = k + 1;
    }
    proof {
        lemma_sum_bound(t0 as int, u as int, TAYLOR_TERMS as nat, off as int);
        assert(-2 * FX_ONE * 7 >= -16 * FX_ONE && 2 * FX_ONE * 8 <= 16 * FX_ONE);
    }
    sum
}

/// Fixed-point `(cos, sin)` of the angle `2 pi i / n`.
pub fn turn_at(i: u128, n: u128) -> (r: (i128, i128))
    requires
        0 < n,
        i <= n,
        n <= usize::MAX,
    ensures
        r.0 as int == turn(i as int, n as int).0,
        r.1 as int == turn(i as int, n as int).1,
        -16 * FX_ONE <= r.0 <= 16 * FX_ONE,
        -16 * FX_ONE <= r.1 <= 16 * FX_ONE,
{
    let q = (4 * i / n) % 4;
    let rem = (4 * i) % n;
    proof {
        assert(FX_HALF_PI * rem <= FX_HALF_PI * n) by (nonlinear_arith)
            requires
                rem < n,
        ;
        assert(FX_HALF_PI * rem / (n as int) <= FX_HALF_PI) by (nonlinear_arith)
            requires
                FX_HALF_PI * rem <= FX_HALF_PI * n,
                n > 0,
        ;
    }
    let phi: u128 = FX_HALF_PI * rem / n;
    proof {
        assert(phi * phi <= 3 * FX_ONE * FX_ONE) by (nonlinear_arith)
            requires
                phi <= FX_HALF_PI,
        ;
        assert(phi * phi / (FX_ONE as int) <= 3 * FX_ONE) by (nonlinear_arith)
            requires
                phi * phi <= 3 * FX_ONE * FX_ONE,
        ;
    }
    let u: u128 = phi * phi / FX_ONE;
    let s = series(phi, u, 0);
    let c = series(FX_ONE, u, 1);
    if q == 0 {
        (c, s)
    } else if q == 1 {
        (-s, c)
    } else if q == 2 {
        (-c, -s)
    } else {
        (s, -c)
    }
}

/// `ring_coord(c2, r2, t)`.
pub fn ring_coord_at(c2: u128, r2: u128, t: i128) -> (r: usize)
    requires
        c2 <= 4 * (usize::MAX as int),
        r2 <= 4 * (usize::MAX as int),
        -16 * FX_ONE <= t <= 16 * FX_ONE,
    ensures
        r as int == ring_coord(c2 as int, r2 as int, t as int),
{
    proof {
        assert(-64 * FX_ONE * usize::MAX <= r2 * t <= 64 * FX_ONE * usize::MAX) by (nonlinear_arith)
            requires
                0 <= r2 <= 4 * (usize::MAX as int),
                -16 * FX_ONE <= t <= 16 * FX_ONE,
        ;
    }
    let v: i128 = (c2 * FX_ONE) as i128 + (r2 as i128) * t;
    if v <= 0 {
        0
    } else {
        let q = (v as u128) / (2 * FX_ONE);
        if q > usize::MAX as u128 {
            usize::MAX
        } else {
            q as usize
        }
    }
}

} // verus!
