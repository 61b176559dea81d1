//! What holds of the curves as a whole: which of them never turn back, that
//! Back dips below zero, and that Bounce's arcs join up.
use vstd::prelude::*;
use crate::fixed::{HALF, SCALE, fx_mul, lemma_fx_mul_round, lemma_fx_mul_monotone, lemma_fx_mul_unit, lemma_fx_sqrt_unit};
use crate::curves::{
    Back, Bounce, Circ, Cubec, EasingFunction, Liner, Quad, Quart, Quint, bounce_break, bounce_segment,
    clamped, eased, fx_pow, lemma_fx_pow_unit,
};

verus! {

/// A clamped curve does not decrease where its formula stays in the unit
/// interval and does not decrease.
proof fn lemma_clamped_monotone(a: int, b: int, fa: int, fb: int)
    requires
        a <= b,
        0 < a < SCALE ==> 0 <= fa <= SCALE,
        0 < b < SCALE ==> 0 <= fb <= SCALE,
        0 < a && b < SCALE ==> fa <= fb,
    ensures
        clamped(a, fa) <= clamped(b, fb),
{
}

proof fn lemma_power_curve_monotone(a: int, b: int, n: nat)
    requires
        a <= b,
        n >= 1,
    ensures
        clamped(a, fx_pow(a, n)) <= clamped(b, fx_pow(b, n)),
{
    if 0 < a < SCALE {
        lemma_fx_pow_unit(a, a, n);
    }
    if 0 < b < SCALE {
        lemma_fx_pow_unit(b, b, n);
    }
    if 0 < a && b < SCALE {
        lemma_fx_pow_unit(a, b, n);
    }
    lemma_clamped_monotone(a, b, fx_pow(a, n), fx_pow(b, n));
}

/// Linear never decreases: `a <= b` gives `value(a) <= value(b)`.
pub proof fn lemma_liner_monotone(a: int, b: int)
    requires
        a <= b,
    ensures
        eased::<Liner>(a) <= eased::<Liner>(b),
{
}

/// Quadratic never decreases: `a <= b` gives `value(a) <= value(b)`.
pub proof fn lemma_quad_monotone(a: int, b: int)
    requires
        a <= b,
    ensures
        eased::<Quad>(a) <= eased::<Quad>(b),
{
    lemma_power_curve_monotone(a, b, 2);
}

/// Cubic never decreases: `a <= b` gives `value(a) <= value(b)`.
pub proof fn lemma_cubec_monotone(a: int, b: int)
    requires
        a <= b,
    ensures
        eased::<Cubec>(a) <= eased::<Cubec>(b),
{
    lemma_power_curve_monotone(a, b, 3);
}

/// Quartic never decreases: `a <= b` gives `value(a) <= value(b)`.
pub proof fn lemma_quart_monotone(a: int, b: int)
    requires
        a <= b,
    ensures
        eased::<Quart>(a) <= eased::<Quart>(b),
{
    lemma_power_curve_monotone(a, b, 4);
}

/// Quintic never decreases: `a <= b` gives `value(a) <= value(b)`.
pub proof fn lemma_quint_monotone(a: int, b: int)
    requires
        a <= b,
    ensures
        eased::<Quint>(a) <= eased::<Quint>(b),
{
    lemma_power_curve_monotone(a, b, 5);
}

/// Circular never decreases: `a <= b` gives `value(a) <= value(b)`.
pub proof fn lemma_circ_monotone(a: int, b: int)
    requires
        a <= b,
    ensures
        eased::<Circ>(a) <= eased::<Circ>(b),
{
    if 0 < a < SCALE {
        lemma_fx_mul_unit(a, a);
        lemma_fx_sqrt_unit(SCALE - fx_mul(a, a), SCALE as int);
    }
    if 0 < b < SCALE {
        lemma_fx_mul_unit(b, b);
        lemma_fx_sqrt_unit(SCALE - fx_mul(b, b), SCALE as int);
    }
    if 0 < a && b < SCALE {
        lemma_fx_mul_monotone(a, b, a, b);
        lemma_fx_mul_unit(b, b);
        lemma_fx_sqrt_unit(SCALE - fx_mul(b, b), SCALE - fx_mul(a, a));
    }
    lemma_clamped_monotone(a, b, Circ::formula(a), Circ::formula(b));
}

/// Back overshoots: strictly inside the unit interval it yields a value
/// below zero.
pub proof fn lemma_back_overshoots()
    ensures
        exists|x: int| 0 < x < SCALE && #[trigger] eased::<Back>(x) < 0,
{
    assert(eased::<Back>(500_000_000_000) < 0);
}

/// Near one, Bounce keeps to its last arc to within one raw unit: where
/// `x > 1 - 1/2.75`, `value(x)` lies within 10^-12 of `1 - 7.5625 * (1 - x)^2`
/// (the statement is scaled by `16 * SCALE` to stay in integers).
pub proof fn lemma_bounce_near_one(x: int)
    requires
        0 < x < SCALE,
        11 * (SCALE - x) < 4 * SCALE,
    ensures
        -16 * SCALE <= 16 * SCALE * eased::<Bounce>(x) - (16 * SCALE * SCALE - 121 * (SCALE - x) * (SCALE
            - x)) <= 16 * SCALE,
{
    let s = SCALE as int;
    let n1 = crate::curves::BOUNCE_N1 as int;
    let xp = s - x;
    assert(xp * (crate::curves::BOUNCE_D1 as int) < s * s);
    let a = fx_mul(n1, xp);
    let b = fx_mul(a, xp);
    lemma_fx_mul_round(n1, xp);
    lemma_fx_mul_round(a, xp);
    let e1 = a * s - n1 * xp;
    let e2 = b * s - a * xp;
    assert(s * (16 * s * b - 121 * xp * xp) == 16 * e1 * xp + 16 * e2 * s) by (nonlinear_arith)
        requires
            e1 == a * s - n1 * xp,
            e2 == b * s - a * xp,
            16 * n1 == 121 * s,
    ;
    assert(-16 * s * s < 16 * e1 * xp + 16 * e2 * s < 16 * s * s) by (nonlinear_arith)
        requires
            -HALF < e1 <= HALF,
            -HALF < e2 <= HALF,
            0 < xp,
            11 * xp < 4 * s,
            2 * HALF == s,
    ;
    let d = 16 * s * b - 121 * xp * xp;
    assert(-16 * s < d < 16 * s) by (nonlinear_arith)
        requires
            s * d == 16 * e1 * xp + 16 * e2 * s,
            -16 * s * s < 16 * e1 * xp + 16 * e2 * s < 16 * s * s,
            s > 0,
    ;
    assert(eased::<Bounce>(x) == s - b);
    assert(16 * s * (s - b) - (16 * s * s - 121 * (s - x) * (s - x)) == -d) by (nonlinear_arith)
        requires
            d == 16 * s * b - 121 * xp * xp,
            xp == s - x,
    ;
}

/// Near zero, Bounce keeps to its first arc to within one raw unit: where
/// `x < 1 - 2.5/2.75`, `value(x)` lies within 10^-12 of
/// `7.5625 * x * (0.25/2.75 - x)` (the statement is scaled by `16 * SCALE` to
/// stay in integers).
pub proof fn lemma_bounce_near_zero(x: int)
    requires
        0 < x,
        11 * x < SCALE,
    ensures
        -16 * SCALE <= 16 * SCALE * eased::<Bounce>(x) - (11 * x * SCALE - 121 * x * x) <= 16
            * SCALE,
{
    let s = SCALE as int;
    let n1 = crate::curves::BOUNCE_N1 as int;
    let xp = s - x;
    let c = 954_545_454_545int;
    let t = 984_375_000_000int;
    crate::curves::lemma_bounce_constants();
    assert(xp * (crate::curves::BOUNCE_D1 as int) >= 2_500_000_000_000 * s);
    let u = xp - c;
    let a = fx_mul(n1, u);
    let b = fx_mul(a, u);
    lemma_fx_mul_round(n1, u);
    lemma_fx_mul_round(a, u);
    let e1 = a * s - n1 * u;
    let e2 = b * s - a * u;
    assert(eased::<Bounce>(x) == s - b - t);
    assert(16 * s * s * b == 121 * s * u * u + 16 * e1 * u + 16 * e2 * s) by (nonlinear_arith)
        requires
            e1 == a * s - n1 * u,
            e2 == b * s - a * u,
            16 * n1 == 121 * s,
    ;
    assert(16 * s * (s - t) - 121 * u * u - 11 * x * s + 121 * x * x == 25 - 110 * u) by (nonlinear_arith)
        requires
            x == s - c - u,
            s == 1_000_000_000_000,
            c == 954_545_454_545,
            t == 984_375_000_000,
    ;
    assert(-16 * s * s < s * (25 - 110 * u) - 16 * e1 * u - 16 * e2 * s < 16 * s * s) by (nonlinear_arith)
        requires
            -HALF < e1 <= HALF,
            -HALF < e2 <= HALF,
            -45_454_545_454 <= u <= 45_454_545_454,
            s == 1_000_000_000_000,
            2 * HALF == s,
    ;
    assert(s * (16 * s * (s - b - t) - (11 * x * s - 121 * x * x)) == s * (25 - 110 * u) - 16 * e1
        * u - 16 * e2 * s) by (nonlinear_arith)
        requires
            16 * s * s * b == 121 * s * u * u + 16 * e1 * u + 16 * e2 * s,
            16 * s * (s - t) - 121 * u * u - 11 * x * s + 121 * x * x == 25 - 110 * u,
    ;
}

/// Bounce's arcs join up: at the raw value nearest each breakpoint, the arc
/// that ends there and the arc that starts there differ by at most four raw
/// units, what their slopes make of the less than half a unit between that
/// value and the exact breakpoint.
pub proof fn lemma_bounce_arcs_meet(k: int)
    requires
        1 <= k <= 3,
    ensures
        -4 <= bounce_segment(k - 1, bounce_break(k)) - bounce_segment(k, bounce_break(k)) <= 4,
{
    crate::curves::lemma_bounce_constants();
    let n1 = crate::curves::BOUNCE_N1 as int;
    if k == 1 {
        crate::fixed::lemma_div_exact(n1 * 363_636_363_636 + HALF, SCALE as int, 2_749_999_999_997);
        crate::fixed::lemma_div_exact(2_749_999_999_997 * 363_636_363_636 + HALF, SCALE as int, 999_999_999_998);
        assert(bounce_segment(0, 363_636_363_636) == 999_999_999_998);
        crate::fixed::lemma_div_exact(n1 * (-181_818_181_819) + HALF, SCALE as int, -1_375_000_000_006);
        crate::fixed::lemma_div_exact((-1_375_000_000_006) * (-181_818_181_819) + HALF, SCALE as int, 250_000_000_002);
        assert(bounce_segment(1, 363_636_363_636) == 1_000_000_000_002);
    } else if k == 2 {
        crate::fixed::lemma_div_exact(n1 * 181_818_181_818 + HALF, SCALE as int, 1_374_999_999_999);
        crate::fixed::lemma_div_exact(1_374_999_999_999 * 181_818_181_818 + HALF, SCALE as int, 250_000_000_000);
        assert(bounce_segment(1, 727_272_727_273) == 1_000_000_000_000);
        crate::fixed::lemma_div_exact(n1 * (-90_909_090_909) + HALF, SCALE as int, -687_499_999_999);
        crate::fixed::lemma_div_exact((-687_499_999_999) * (-90_909_090_909) + HALF, SCALE as int, 62_500_000_000);
        assert(bounce_segment(2, 727_272_727_273) == 1_000_000_000_000);
    } else {
        crate::fixed::lemma_div_exact(n1 * 90_909_090_909 + HALF, SCALE as int, 687_499_999_999);
        crate::fixed::lemma_div_exact(687_499_999_999 * 90_909_090_909 + HALF, SCALE as int, 62_500_000_000);
        assert(bounce_segment(2, 909_090_909_091) == 1_000_000_000_000);
        crate::fixed::lemma_div_exact(n1 * (-45_454_545_454) + HALF, SCALE as int, -343_749_999_996);
        crate::fixed::lemma_div_exact((-343_749_999_996) * (-45_454_545_454) + HALF, SCALE as int, 15_625_000_000);
        assert(bounce_segment(3, 909_090_909_091) == 1_000_000_000_000);
    }
}

} // verus!
