//! The decimal fixed-point number that progress values and curve outputs are
//! written in, with the few rounding operations that the formulas need.
use vstd::prelude::*;

verus! {

/// Number of raw units in one: a `Fixed` holds a multiple of 10^-12.
pub const SCALE: i64 = 1_000_000_000_000;

/// A real number written as `raw / SCALE`.
#[derive(Clone, Copy, Debug, PartialEq, Eq, Structural)]
pub struct Fixed {
    pub raw: i64,
}

impl View for Fixed {
    type V = int;

    open spec fn view(&self) -> int {
        self.raw as int
    }
}

/// A constant that `Fixed` cannot hold: it is out of the `i64` range once
/// scaled, or it has more decimal places than the scale keeps.
#[derive(Clone, Copy, Debug, PartialEq, Eq, Structural)]
pub enum ConversionError {
    OutOfRange,
    TooPrecise,
}

/// Half a raw unit's worth of `SCALE`: what rounding to nearest adds before
/// it rounds down.
pub const HALF: i64 = 500_000_000_000;

/// Fixed-point product, rounded to nearest, halves upward.
pub open spec fn fx_mul(a: int, b: int) -> int {
    (a * b + HALF) / SCALE as int
}

/// Fixed-point quotient, rounded to nearest, halves upward.
pub open spec fn fx_div(a: int, b: int) -> int {
    if b > 0 {
        (2 * a * SCALE + b) / (2 * b)
    } else {
        (-2 * a * SCALE - b) / (-2 * b)
    }
}

/// Whether `r` is the square root of `n` rounded down.
pub open spec fn is_floor_sqrt(r: int, n: int) -> bool {
    0 <= r && r * r <= n && n < (r + 1) * (r + 1)
}

/// The square root of `n`, rounded down.
pub open spec fn floor_sqrt(n: nat) -> nat
    decreases n,
{
    if n == 0 {
        0
    } else {
        let r = floor_sqrt((n - 1) as nat);
        if (r + 1) * (r + 1) <= n {
            r + 1
        } else {
            r
        }
    }
}

/// Fixed-point square root, rounded down.
pub open spec fn fx_sqrt(a: int) -> int {
    floor_sqrt((a * SCALE as int) as nat) as int
}

/// Ten to the power `n`.
pub open spec fn pow10(n: nat) -> int
    decreases n,
{
    if n == 0 {
        1
    } else {
        10 * pow10((n - 1) as nat)
    }
}

/// The raw value of the decimal `digits / 10^places`, where `places` is at
/// most the twelve that the scale keeps.
pub open spec fn decimal_raw(digits: int, places: nat) -> int {
    digits * pow10((12 - places) as nat)
}

pub open spec fn fits_i64(v: int) -> bool {
    i64::MIN <= v <= i64::MAX
}

pub proof fn lemma_pow10_monotone(m: nat, n: nat)
    requires
        m <= n,
    ensures
        1 <= pow10(m) <= pow10(n),
    decreases n,
{
    if n > 0 && m < n {
        lemma_pow10_monotone(m, (n - 1) as nat);
    } else if n > 0 {
        lemma_pow10_monotone((n - 1) as nat, (n - 1) as nat);
    }
}

pub proof fn lemma_floor_sqrt(n: nat)
    ensures
        is_floor_sqrt(floor_sqrt(n) as int, n as int),
    decreases n,
{
    if n > 0 {
        lemma_floor_sqrt((n - 1) as nat);
        let r = floor_sqrt((n - 1) as nat) as int;
        assert((r + 1) * (r + 1) <= n ==> n < (r + 2) * (r + 2)) by (nonlinear_arith)
            requires
                r >= 0,
                n >= 1,
                n - 1 < (r + 1) * (r + 1),
        ;
    }
}

pub proof fn lemma_floor_sqrt_unique(r: int, s: int, n: int)
    requires
        is_floor_sqrt(r, n),
        is_floor_sqrt(s, n),
    ensures
        r == s,
{
    assert(r < s + 1) by (nonlinear_arith)
        requires
            r >= 0,
            s >= 0,
            r * r < (s + 1) * (s + 1),
    ;
    assert(s < r + 1) by (nonlinear_arith)
        requires
            r >= 0,
            s >= 0,
            s * s < (r + 1) * (r + 1),
    ;
}

/// The rounded-down square root does not decrease as its argument grows.
pub proof fn lemma_floor_sqrt_monotone(m: nat, n: nat)
    requires
        m <= n,
    ensures
        floor_sqrt(m) <= floor_sqrt(n),
{
    lemma_floor_sqrt(m);
    lemma_floor_sqrt(n);
    let a = floor_sqrt(m) as int;
    let b = floor_sqrt(n) as int;
    assert(a < b + 1) by (nonlinear_arith)
        requires
            a >= 0,
            b >= 0,
            a * a < (b + 1) * (b + 1),
    ;
}

/// The quotient of `n` by `d`, rounded down, is the `q` that it lies
/// between.
pub proof fn lemma_div_exact(n: int, d: int, q: int)
    requires
        0 < d,
        q * d <= n < q * d + d,
    ensures
        n / d == q,
{
    vstd::arithmetic::div_mod::lemma_fundamental_div_mod_converse(n, d, q, n - q * d);
}

/// The fixed-point product is the exact product to within half a raw unit.
pub proof fn lemma_fx_mul_round(a: int, b: int)
    ensures
        a * b - HALF < fx_mul(a, b) * SCALE <= a * b + HALF,
{
    vstd::arithmetic::div_mod::lemma_fundamental_div_mod(a * b + HALF, SCALE as int);
    vstd::arithmetic::div_mod::lemma_mod_bound(a * b + HALF, SCALE as int);
}

/// A product with a factor of the unit interval is no larger in size than
/// the other factor.
pub proof fn lemma_fx_mul_bound(a: int, b: int, m: int)
    requires
        -m <= a <= m,
        -SCALE <= b <= SCALE,
    ensures
        -m <= fx_mul(a, b) <= m,
{
    assert(-m * SCALE <= a * b <= m * SCALE) by (nonlinear_arith)
        requires
            -m <= a <= m,
            -SCALE <= b <= SCALE,
    ;
    lemma_fx_mul_round(a, b);
}

/// The fixed-point product grows with each non-negative factor.
pub proof fn lemma_fx_mul_monotone(a: int, b: int, c: int, d: int)
    requires
        0 <= a <= b,
        0 <= c <= d,
    ensures
        0 <= fx_mul(a, c) <= fx_mul(b, d),
{
    assert(0 <= a * c <= b * d) by (nonlinear_arith)
        requires
            0 <= a <= b,
            0 <= c <= d,
    ;
    vstd::arithmetic::div_mod::lemma_div_is_ordered(a * c + HALF, b * d + HALF, SCALE as int);
    vstd::arithmetic::div_mod::lemma_div_is_ordered(HALF as int, a * c + HALF, SCALE as int);
}

/// Multiplying a non-negative value by one of the unit interval does not
/// make it larger.
pub proof fn lemma_fx_mul_unit(a: int, b: int)
    requires
        0 <= a,
        0 <= b <= SCALE,
    ensures
        0 <= fx_mul(a, b) <= a,
{
    lemma_fx_mul_bound(a, b, a);
    lemma_fx_mul_monotone(0, a, 0, b);
}

/// The fixed-point square root of a value of the unit interval stays in it,
/// and grows with its argument.
pub proof fn lemma_fx_sqrt_unit(a: int, b: int)
    requires
        0 <= a <= b <= SCALE,
    ensures
        0 <= fx_sqrt(a) <= fx_sqrt(b) <= SCALE,
{
    assert(0 <= a * SCALE <= b * SCALE <= SCALE * SCALE) by (nonlinear_arith)
        requires
            0 <= a <= b <= SCALE,
    ;
    lemma_floor_sqrt_monotone((a * SCALE) as nat, (b * SCALE) as nat);
    lemma_floor_sqrt_monotone((b * SCALE) as nat, (SCALE * SCALE) as nat);
    lemma_floor_sqrt((SCALE * SCALE) as nat);
    assert(is_floor_sqrt(SCALE as int, SCALE * SCALE)) by (nonlinear_arith);
    lemma_floor_sqrt_unique(floor_sqrt((SCALE * SCALE) as nat) as int, SCALE as int, SCALE * SCALE);
}

impl Fixed {
    pub fn zero() -> (r: Fixed)
        ensures
            r@ == 0,
    {
        Fixed { raw: 0 }
    }

    pub fn one() -> (r: Fixed)
        ensures
            r@ == SCALE,
    {
        Fixed { raw: SCALE }
    }

    pub fn from_raw(raw: i64) -> (r: Fixed)
        ensures
            r@ == raw,
    {
        Fixed { raw }
    }

    /// Ten to the power `12 - places`: the raw units in one unit of the last
    /// of `places` decimal places.
    fn place_factor(places: u32) -> (r: i64)
        requires
            places <= 12,
        ensures
            r == pow10((12 - places) as nat),
    {
        let mut factor: i64 = 1;
        let mut k: u32 = places;
        while k < 12
            invariant
                places <= k <= 12,
                factor == pow10((k - places) as nat),
            decreases 12 - k,
        {
            proof {
                lemma_pow10_monotone((k + 1 - places) as nat, 12);
                reveal_with_fuel(pow10, 13);
            }
            factor = factor * 10;
            k = k + 1;
        }
        factor
    }

    /// The decimal `digits / 10^places`, for a constant known to fit.
    pub fn decimal(digits: i64, places: u32) -> (r: Fixed)
        requires
            places <= 12,
            fits_i64(decimal_raw(digits as int, places as nat)),
        ensures
            r@ == decimal_raw(digits as int, places as nat),
    {
        let factor = Fixed::place_factor(places);
        Fixed { raw: digits * factor }
    }

    /// The decimal `digits / 10^places`, or why it cannot be held.
    pub fn from_decimal(digits: i64, places: u32) -> (r: Result<Fixed, ConversionError>)
        ensures
            places > 12 ==> r == Err::<Fixed, ConversionError>(ConversionError::TooPrecise),
            places <= 12 && !fits_i64(decimal_raw(digits as int, places as nat)) ==> r == Err::<
                Fixed,
                ConversionError,
            >(ConversionError::OutOfRange),
            places <= 12 && fits_i64(decimal_raw(digits as int, places as nat)) ==> (r matches Ok(
                v,
            ) && v@ == decimal_raw(digits as int, places as nat)),
    {
        if places > 12 {
            return Err(ConversionError::TooPrecise);
        }
        let factor = Fixed::place_factor(places);
        match digits.checked_mul(factor) {
            Some(raw) => Ok(Fixed { raw }),
            None => Err(ConversionError::OutOfRange),
        }
    }

    /// The integer `i`, or `OutOfRange` where `i * SCALE` leaves `i64`.
    pub fn from_int(i: i64) -> (r: Result<Fixed, ConversionError>)
        ensures
            fits_i64(i * SCALE) ==> (r matches Ok(v) && v@ == i * SCALE),
            !fits_i64(i * SCALE) ==> r == Err::<Fixed, ConversionError>(
                ConversionError::OutOfRange,
            ),
    {
        proof {
            reveal_with_fuel(pow10, 13);
        }
        Fixed::from_decimal(i, 0)
    }

    pub fn add(self, other: Fixed) -> (r: Fixed)
        requires
            fits_i64(self@ + other@),
        ensures
            r@ == self@ + other@,
    {
        Fixed { raw: self.raw + other.raw }
    }

    pub fn sub(self, other: Fixed) -> (r: Fixed)
        requires
            fits_i64(self@ - other@),
        ensures
            r@ == self@ - other@,
    {
        Fixed { raw: self.raw - other.raw }
    }

    /// Whether this value lies below the exact quotient `num / den`.
    pub fn is_below_quotient(self, num: Fixed, den: Fixed) -> (r: bool)
        requires
            den@ > 0,
        ensures
            r == (self@ * den@ < num@ * SCALE),
    {
        let (a, b, c) = (self.raw as i128, den.raw as i128, num.raw as i128);
        assert(-0x4000_0000_0000_0000_0000_0000_0000_0000 <= a * b <= 0x4000_0000_0000_0000_0000_0000_0000_0000) by (nonlinear_arith)
            requires
                -0x8000_0000_0000_0000 <= a <= 0x8000_0000_0000_0000,
                -0x8000_0000_0000_0000 <= b <= 0x8000_0000_0000_0000,
        ;
        let scale = SCALE as i128;
        assert(-0x80_0000_0000_0000_0000_0000_0000 <= c * scale <= 0x80_0000_0000_0000_0000_0000_0000) by (nonlinear_arith)
            requires
                -0x8000_0000_0000_0000 <= c <= 0x8000_0000_0000_0000,
                scale == 1_000_000_000_000,
        ;
        a * b < c * scale
    }

    /// The product, rounded to nearest, halves upward.
    pub fn mul(self, other: Fixed) -> (r: Fixed)
        requires
            fits_i64(fx_mul(self@, other@)),
        ensures
            r@ == fx_mul(self@, other@),
    {
        let a = self.raw as i128;
        let b = other.raw as i128;
        assert(-0x4000_0000_0000_0000_0000_0000_0000_0000 <= a * b <= 0x4000_0000_0000_0000_0000_0000_0000_0000) by (nonlinear_arith)
            requires
                -0x8000_0000_0000_0000 <= a <= 0x8000_0000_0000_0000,
                -0x8000_0000_0000_0000 <= b <= 0x8000_0000_0000_0000,
        ;
        match (a * b + HALF as i128).checked_div_euclid(SCALE as i128) {
            Some(q) => Fixed { raw: q as i64 },
            None => Fixed { raw: 0 },
        }
    }

    /// The quotient by a non-zero value, rounded to nearest, halves upward.
    pub fn div(self, other: Fixed) -> (r: Fixed)
        requires
            other@ != 0,
            fits_i64(fx_div(self@, other@)),
        ensures
            r@ == fx_div(self@, other@),
    {
        let a = self.raw as i128;
        let b = other.raw as i128;
        let scale = SCALE as i128;
        assert(-0x100_0000_0000_0000_0000_0000_0000 <= 2 * a * scale <= 0x100_0000_0000_0000_0000_0000_0000) by (nonlinear_arith)
            requires
                -0x8000_0000_0000_0000 <= a <= 0x8000_0000_0000_0000,
                scale == 1_000_000_000_000,
        ;
        let mut n = 2 * a * scale + b;
        let mut d = 2 * b;
        if b < 0 {
            n = -n;
            d = -d;
        }
        match n.checked_div_euclid(d) {
            Some(q) => Fixed { raw: q as i64 },
            None => Fixed { raw: 0 },
        }
    }

    /// The square root of a non-negative value, rounded down.
    pub fn sqrt(self) -> (r: Fixed)
        requires
            0 <= self@,
        ensures
            r@ == fx_sqrt(self@),
    {
        let n = self.raw as u128 * (SCALE as u128);
        let mut lo: u128 = 0;
        let mut hi: u128 = 0x10_0000_0000_0000;
        assert(n < hi * hi) by (nonlinear_arith)
            requires
                n == self.raw * SCALE,
                self.raw <= i64::MAX,
                hi == 0x10_0000_0000_0000,
        ;
        while hi - lo > 1
            invariant
                lo < hi <= 0x10_0000_0000_0000,
                lo * lo <= n < hi * hi,
            decreases hi - lo,
        {
            let mid = lo + (hi - lo) / 2;
            assert(mid * mid <= 0x100_0000_0000_0000_0000_0000_0000) by (nonlinear_arith)
                requires
                    mid <= 0x10_0000_0000_0000,
            ;
            if mid * mid <= n {
                lo = mid;
            } else {
                hi = mid;
            }
        }
        proof {
            lemma_floor_sqrt(n as nat);
            lemma_floor_sqrt_unique(lo as int, floor_sqrt(n as nat) as int, n as int);
        }
        assert(lo < 0x10_0000_0000_0000);
        Fixed { raw: lo as i64 }
    }
}

} // verus!
