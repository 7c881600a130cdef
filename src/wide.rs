//! Exact comparison of products of two 128-bit numbers.
use vstd::prelude::*;

verus! {

/// `2^64`.
pub const LIMB: u128 = 0x1_0000_0000_0000_0000;

/// `2^128`.
pub open spec fn two128() -> int {
    LIMB * LIMB
}

/// The full product `a * b` as a high and a low 128-bit half.
pub fn mul_wide(a: u128, b: u128) -> (r: (u128, u128))
    ensures
        r.0 * two128() + r.1 == a * b,
{
    let a0 = a % LIMB;
    let a1 = a / LIMB;
    let b0 = b % LIMB;
    let b1 = b / LIMB;
    proof {
        assert(a0 < LIMB && a1 < LIMB && b0 < LIMB && b1 < LIMB);
        assert(a0 * b0 < LIMB * LIMB && a0 * b1 < LIMB * LIMB && a1 * b0 < LIMB * LIMB && a1 * b1 < LIMB * LIMB) by (nonlinear_arith)
            requires
                a0 < LIMB,
                a1 < LIMB,
                b0 < LIMB,
                b1 < LIMB,
        ;
    }
    let p00 = a0 * b0;
    let p01 = a0 * b1;
    let p10 = a1 * b0;
    let p11 = a1 * b1;
    let mid = p00 / LIMB + p01 % LIMB + p10 % LIMB;
    let lo = p00 % LIMB + (mid % LIMB) * LIMB;
    proof {
        let ai = a as int;
        let bi = b as int;
        let l = LIMB as int;
        let x00 = p00 as int;
        let x01 = p01 as int;
        let x10 = p10 as int;
        let x11 = p11 as int;
        let m = mid as int;
        assert(ai == (a1 as int) * l + (a0 as int));
        assert(bi == (b1 as int) * l + (b0 as int));
        let l2 = l * l;
        let a0i = a0 as int;
        let a1i = a1 as int;
        let b0i = b0 as int;
        let b1i = b1 as int;
        assert(ai * bi == (a1i * l) * bi + a0i * bi) by (nonlinear_arith)
            requires
                ai == a1i * l + a0i,
        ;
        assert((a1i * l) * bi == (a1i * l) * (b1i * l) + (a1i * l) * b0i) by (nonlinear_arith)
            requires
                bi == b1i * l + b0i,
        ;
        assert((a1i * l) * (b1i * l) == x11 * l2) by (nonlinear_arith)
            requires
                x11 == a1i * b1i,
                l2 == l * l,
        ;
        assert((a1i * l) * b0i == x10 * l) by (nonlinear_arith)
            requires
                x10 == a1i * b0i,
        ;
        assert(a0i * bi == x01 * l + x00) by (nonlinear_arith)
            requires
                bi == b1i * l + b0i,
                x01 == a0i * b1i,
                x00 == a0i * b0i,
        ;
        assert(ai * bi == x11 * l2 + x01 * l + x10 * l + x00);
        let q01 = x01 / l;
        let r01 = x01 % l;
        let q10 = x10 / l;
        let r10 = x10 % l;
        let qa = x00 / l;
        let ra = x00 % l;
        let qm = m / l;
        let rm = m % l;
        assert(x01 == q01 * l + r01);
        assert(x10 == q10 * l + r10);
        assert(x00 == qa * l + ra);
        assert(m == qm * l + rm);
        assert(x01 * l == q01 * l2 + r01 * l) by (nonlinear_arith)
            requires
                x01 == q01 * l + r01,
                l2 == l * l,
        ;
        assert(x10 * l == q10 * l2 + r10 * l) by (nonlinear_arith)
            requires
                x10 == q10 * l + r10,
                l2 == l * l,
        ;
        assert(m * l == qm * l2 + rm * l) by (nonlinear_arith)
            requires
                m == qm * l + rm,
                l2 == l * l,
        ;
        assert(m == qa + r01 + r10);
        assert(m * l == qa * l + r01 * l + r10 * l) by (nonlinear_arith)
            requires
                m == qa + r01 + r10,
        ;
        let hi_int = x11 + q01 + q10 + qm;
        assert(hi_int * l2 == x11 * l2 + q01 * l2 + q10 * l2 + qm * l2) by (nonlinear_arith)
            requires
                hi_int == x11 + q01 + q10 + qm,
        ;
        assert(ai * bi == hi_int * (l * l) + rm * l + ra);
        assert(ai * bi < l * l * (l * l)) by (nonlinear_arith)
            requires
                0 <= ai < l * l,
                0 <= bi < l * l,
        ;
        assert(0 <= rm * l + ra) by (nonlinear_arith)
            requires
                l > 0,
                rm >= 0,
                ra >= 0,
        ;
        assert(hi_int < l * l) by (nonlinear_arith)
            requires
                ai * bi == hi_int * (l * l) + rm * l + ra,
                0 <= rm * l + ra,
                ai * bi < l * l * (l * l),
                l > 0,
        ;
        assert(x11 + x01 / l + x10 / l <= hi_int);
        assert(lo as int == ra + rm * l);
    }
    let hi = p11 + p01 / LIMB + p10 / LIMB + mid / LIMB;
    (hi, lo)
}

/// Whether `a * b <= c * d`.
pub fn product_le(a: u128, b: u128, c: u128, d: u128) -> (r: bool)
    ensures
        r == (a * b <= c * d),
{
    let (h1, l1) = mul_wide(a, b);
    let (h2, l2) = mul_wide(c, d);
    proof {
        let t = two128();
        assert(t == 0x1_0000_0000_0000_0000_0000_0000_0000_0000);
        if h1 < h2 {
            assert(h1 * t + l1 < h2 * t + l2) by (nonlinear_arith)
                requires
                    h1 < h2,
                    l1 < t,
                    0 <= l2,
                    t > 0,
            ;
        } else if h1 > h2 {
            assert(h1 * t + l1 > h2 * t + l2) by (nonlinear_arith)
                requires
                    h1 > h2,
                    l2 < t,
                    0 <= l1,
                    t > 0,
            ;
        }
    }
    h1 < h2 || (h1 == h2 && l1 <= l2)
}

} // verus!
