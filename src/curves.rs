//! The easing curves: a trait that clamps its input to the unit interval and
//! then applies one formula, and one unit struct per formula.
use vstd::prelude::*;
use crate::fixed::{Fixed, SCALE, fx_mul, fx_div, fx_sqrt, pow10};

verus! {

/// What an easing curve yields for progress `x`, where `inside` is its
/// formula at `x`: zero at or below zero, one at or above one, and `inside`
/// in between.
pub open spec fn clamped(x: int, inside: int) -> int {
    if x <= 0 {
        0
    } else if x >= SCALE {
        SCALE as int
    } else {
        inside
    }
}

/// What the easing curve `E` yields for progress `x`.
pub open spec fn eased<E: EasingFunction>(x: int) -> int {
    clamped(x, E::formula(x))
}

/// The value of every curve at a progress outside the open unit interval:
/// `Some(0)` at or below zero, `Some(1)` at or above one, `None` in between.
pub fn boundary_value(x: Fixed) -> (r: Option<Fixed>)
    ensures
        x@ <= 0 ==> r == Some(Fixed { raw: 0 }),
        x@ >= SCALE ==> r == Some(Fixed { raw: SCALE }),
        0 < x@ < SCALE ==> r is None,
{
    if x.raw <= 0 {
        Some(Fixed::zero())
    } else if x.raw >= SCALE {
        Some(Fixed::one())
    } else {
        None
    }
}

/// An easing curve, given by its formula on the open unit interval.
pub trait EasingFunction: Sized {
    /// The formula, on raw fixed-point values strictly between zero and one.
    spec fn formula(x: int) -> int;

    /// The curve at `x`, called on a value of the curve's type.
    fn s_value(&self, x: Fixed) -> (r: Fixed)
        ensures
            r@ == clamped(x@, Self::formula(x@)),
    {
        Self::value(x)
    }

    /// The curve at `x`: clamped outside the open unit interval, the formula
    /// inside it.
    fn value(x: Fixed) -> (r: Fixed)
        ensures
            r@ == clamped(x@, Self::formula(x@)),
    {
        match boundary_value(x) {
            Some(v) => v,
            None => Self::inner_value(x),
        }
    }

    /// The formula at a progress strictly between zero and one.
    fn inner_value(x: Fixed) -> (r: Fixed)
        requires
            0 < x@ < SCALE,
        ensures
            r@ == Self::formula(x@),
    ;
}

/// `x` multiplied by itself `n` times in fixed point, left to right, each
/// product rounded to nearest.
pub open spec fn fx_pow(x: int, n: nat) -> int
    decreases n,
{
    if n <= 1 {
        x
    } else {
        fx_mul(fx_pow(x, (n - 1) as nat), x)
    }
}

pub proof fn lemma_fx_pow_unit(a: int, b: int, n: nat)
    requires
        0 <= a <= b <= SCALE,
        n >= 1,
    ensures
        0 <= fx_pow(a, n) <= fx_pow(b, n) <= SCALE,
    decreases n,
{
    if n > 1 {
        lemma_fx_pow_unit(a, b, (n - 1) as nat);
        crate::fixed::lemma_fx_mul_monotone(fx_pow(a, (n - 1) as nat), fx_pow(b, (n - 1) as nat), a, b);
        crate::fixed::lemma_fx_mul_unit(fx_pow(b, (n - 1) as nat), b);
    }
}

/// Progress as it is.
pub struct Liner {}

impl EasingFunction for Liner {
    open spec fn formula(x: int) -> int {
        x
    }

    fn inner_value(x: Fixed) -> (r: Fixed) {
        x
    }
}

/// Progress squared.
pub struct Quad {}

impl EasingFunction for Quad {
    open spec fn formula(x: int) -> int {
        fx_pow(x, 2)
    }

    fn inner_value(x: Fixed) -> (r: Fixed) {
        proof {
            reveal_with_fuel(fx_pow, 2);
            crate::fixed::lemma_fx_mul_unit(x@, x@);
        }
        x.mul(x)
    }
}

/// Progress cubed.
pub struct Cubec {}

impl EasingFunction for Cubec {
    open spec fn formula(x: int) -> int {
        fx_pow(x, 3)
    }

    fn inner_value(x: Fixed) -> (r: Fixed) {
        proof {
            reveal_with_fuel(fx_pow, 3);
            lemma_fx_pow_unit(x@, x@, 2);
            lemma_fx_pow_unit(x@, x@, 3);
        }
        x.mul(x).mul(x)
    }
}

/// Progress to the fourth power.
pub struct Quart {}

impl EasingFunction for Quart {
    open spec fn formula(x: int) -> int {
        fx_pow(x, 4)
    }

    fn inner_value(x: Fixed) -> (r: Fixed) {
        proof {
            reveal_with_fuel(fx_pow, 4);
            lemma_fx_pow_unit(x@, x@, 2);
            lemma_fx_pow_unit(x@, x@, 3);
            lemma_fx_pow_unit(x@, x@, 4);
        }
        x.mul(x).mul(x).mul(x)
    }
}

/// Progress to the fifth power.
pub struct Quint {}

impl EasingFunction for Quint {
    open spec fn formula(x: int) -> int {
        fx_pow(x, 5)
    }

    fn inner_value(x: Fixed) -> (r: Fixed) {
        proof {
            reveal_with_fuel(fx_pow, 5);
            lemma_fx_pow_unit(x@, x@, 2);
            lemma_fx_pow_unit(x@, x@, 3);
            lemma_fx_pow_unit(x@, x@, 4);
            lemma_fx_pow_unit(x@, x@, 5);
        }
        x.mul(x).mul(x).mul(x).mul(x)
    }
}

/// A quarter circle: `1 - sqrt(1 - x^2)`.
pub struct Circ {}

impl EasingFunction for Circ {
    open spec fn formula(x: int) -> int {
        SCALE - fx_sqrt(SCALE - fx_mul(x, x))
    }

    fn inner_value(x: Fixed) -> (r: Fixed) {
        proof {
            reveal_with_fuel(pow10, 13);
            crate::fixed::lemma_fx_mul_unit(x@, x@);
            crate::fixed::lemma_fx_sqrt_unit(SCALE - fx_mul(x@, x@), SCALE as int);
        }
        let one = Fixed::decimal(1, 0);
        one.sub(one.sub(x.mul(x)).sqrt())
    }
}

pub const BACK_C1: i64 = 1_701_580_000_000;

pub const BACK_C3: i64 = 2_701_580_000_000;

/// Pulls back below zero before it sets off: `c3 * x^3 - c1 * x^2`.
pub struct Back {}

impl EasingFunction for Back {
    open spec fn formula(x: int) -> int {
        fx_mul(fx_mul(fx_mul(BACK_C3 as int, x), x), x) - fx_mul(fx_mul(BACK_C1 as int, x), x)
    }

    fn inner_value(x: Fixed) -> (r: Fixed) {
        proof {
            reveal_with_fuel(pow10, 13);
        }
        let c1 = Fixed::decimal(170158, 5);
        let c3 = c1.add(Fixed::decimal(1, 0));
        proof {
            let c = c3@;
            crate::fixed::lemma_fx_mul_unit(c, x@);
            crate::fixed::lemma_fx_mul_unit(fx_mul(c, x@), x@);
            crate::fixed::lemma_fx_mul_unit(fx_mul(fx_mul(c, x@), x@), x@);
            crate::fixed::lemma_fx_mul_unit(c1@, x@);
            crate::fixed::lemma_fx_mul_unit(fx_mul(c1@, x@), x@);
        }
        c3.mul(x).mul(x).mul(x).sub(c1.mul(x).mul(x))
    }
}

pub const BOUNCE_N1: i64 = 7_562_500_000_000;

pub const BOUNCE_D1: i64 = 2_750_000_000_000;

/// One of Bounce's arcs: `n1 * u^2 + top`, where `u` is how far `xp` lies
/// past the arc's centre.
pub open spec fn bounce_arc(xp: int, centre: int, top: int) -> int {
    fx_mul(fx_mul(BOUNCE_N1 as int, xp - centre), xp - centre) + top
}

/// The raw value nearest to where Bounce's arc `k - 1` ends and arc `k`
/// starts, for `k` from 1 to 3: `1/d1`, `2/d1` and `2.5/d1`.
pub open spec fn bounce_break(k: int) -> int {
    let d1 = BOUNCE_D1 as int;
    if k == 1 {
        fx_div(SCALE as int, d1)
    } else if k == 2 {
        fx_div(2 * SCALE, d1)
    } else {
        fx_div(2_500_000_000_000, d1)
    }
}

/// Bounce's arc `k`, for `k` from 0 to 3, at `xp`.
pub open spec fn bounce_segment(k: int, xp: int) -> int {
    let d1 = BOUNCE_D1 as int;
    if k == 0 {
        bounce_arc(xp, 0, 0)
    } else if k == 1 {
        bounce_arc(xp, fx_div(1_500_000_000_000, d1), 750_000_000_000)
    } else if k == 2 {
        bounce_arc(xp, fx_div(2_250_000_000_000, d1), 937_500_000_000)
    } else {
        bounce_arc(xp, fx_div(2_625_000_000_000, d1), 984_375_000_000)
    }
}

/// How far below one Bounce stands at `xp`, the progress still to go. The
/// arcs change where `xp` passes `1/d1`, `2/d1` and `2.5/d1`, compared
/// exactly.
pub open spec fn bounce_drop(xp: int) -> int {
    let d1 = BOUNCE_D1 as int;
    if xp * d1 < SCALE * SCALE {
        bounce_segment(0, xp)
    } else if xp * d1 < 2 * SCALE * SCALE {
        bounce_segment(1, xp)
    } else if xp * d1 < 2_500_000_000_000 * SCALE {
        bounce_segment(2, xp)
    } else {
        bounce_segment(3, xp)
    }
}

/// The breakpoints and arc centres of Bounce, as raw values.
pub proof fn lemma_bounce_constants()
    ensures
        bounce_break(1) == 363_636_363_636,
        bounce_break(2) == 727_272_727_273,
        bounce_break(3) == 909_090_909_091,
        fx_div(1_500_000_000_000, BOUNCE_D1 as int) == 545_454_545_455,
        fx_div(2_250_000_000_000, BOUNCE_D1 as int) == 818_181_818_182,
        fx_div(2_625_000_000_000, BOUNCE_D1 as int) == 954_545_454_545,
{
    let d = 2 * BOUNCE_D1;
    let s = SCALE as int;
    crate::fixed::lemma_div_exact(2 * s * s + BOUNCE_D1, d, 363_636_363_636);
    crate::fixed::lemma_div_exact(2 * (2 * s) * s + BOUNCE_D1, d, 727_272_727_273);
    crate::fixed::lemma_div_exact(2 * 2_500_000_000_000 * s + BOUNCE_D1, d, 909_090_909_091);
    crate::fixed::lemma_div_exact(2 * 1_500_000_000_000 * s + BOUNCE_D1, d, 545_454_545_455);
    crate::fixed::lemma_div_exact(2 * 2_250_000_000_000 * s + BOUNCE_D1, d, 818_181_818_182);
    crate::fixed::lemma_div_exact(2 * 2_625_000_000_000 * s + BOUNCE_D1, d, 954_545_454_545);
}

/// Decaying bounces that settle at one.
pub struct Bounce {}

impl Bounce {
    fn arc(xp: Fixed, centre: Fixed, top: Fixed) -> (r: Fixed)
        requires
            0 <= xp@ <= SCALE,
            0 <= centre@ <= SCALE,
            0 <= top@ <= SCALE,
        ensures
            r@ == bounce_arc(xp@, centre@, top@),
            top@ - BOUNCE_N1 <= r@ <= top@ + BOUNCE_N1,
    {
        proof {
            reveal_with_fuel(pow10, 13);
        }
        let n1 = Fixed::decimal(75625, 4);
        let u = xp.sub(centre);
        proof {
            crate::fixed::lemma_fx_mul_bound(n1@, u@, n1@);
            crate::fixed::lemma_fx_mul_bound(fx_mul(n1@, u@), u@, n1@);
        }
        n1.mul(u).mul(u).add(top)
    }
}

impl EasingFunction for Bounce {
    open spec fn formula(x: int) -> int {
        SCALE - bounce_drop(SCALE - x)
    }

    fn inner_value(x: Fixed) -> (r: Fixed) {
        proof {
            reveal_with_fuel(pow10, 13);
        }
        let xp = Fixed::decimal(1, 0).sub(x);
        let v1 = Fixed::decimal(1, 0);
        let v2 = Fixed::decimal(2, 0);
        let v2_5 = Fixed::decimal(25, 1);
        let d1 = Fixed::decimal(275, 2);
        assert(d1@ == BOUNCE_D1);
        proof {
            lemma_bounce_constants();
        }
        let drop = if xp.is_below_quotient(v1, d1) {
            Bounce::arc(xp, Fixed::zero(), Fixed::zero())
        } else if xp.is_below_quotient(v2, d1) {
            Bounce::arc(xp, Fixed::decimal(15, 1).div(d1), Fixed::decimal(75, 2))
        } else if xp.is_below_quotient(v2_5, d1) {
            Bounce::arc(xp, Fixed::decimal(225, 2).div(d1), Fixed::decimal(9375, 4))
        } else {
            Bounce::arc(xp, Fixed::decimal(2625, 3).div(d1), Fixed::decimal(984375, 6))
        };
        v1.sub(drop)
    }
}

} // verus!
