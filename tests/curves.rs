use easing::{
    boundary_value, Back, Bounce, Circ, ConversionError, Cubec, EasingFunction, Fixed, Liner, Quad,
    Quart, Quint, SCALE,
};

fn fx(raw: i64) -> Fixed {
    Fixed::from_raw(raw)
}

fn as_f64(v: Fixed) -> f64 {
    v.raw as f64 / SCALE as f64
}

fn all_values(x: Fixed) -> Vec<Fixed> {
    vec![
        Liner::value(x),
        Quad::value(x),
        Cubec::value(x),
        Quart::value(x),
        Quint::value(x),
        Circ::value(x),
        Back::value(x),
        Bounce::value(x),
    ]
}

#[test]
fn every_curve_is_zero_at_or_below_zero() {
    for raw in [0, -1, -SCALE, i64::MIN] {
        for v in all_values(fx(raw)) {
            assert_eq!(v, Fixed::zero());
        }
    }
}

#[test]
fn every_curve_is_one_at_or_above_one() {
    for raw in [SCALE, SCALE + 1, 2 * SCALE, i64::MAX] {
        for v in all_values(fx(raw)) {
            assert_eq!(v, Fixed::one());
        }
    }
}

#[test]
fn boundary_value_clamps_only_outside_the_open_interval() {
    assert_eq!(boundary_value(fx(-5)), Some(Fixed::zero()));
    assert_eq!(boundary_value(fx(0)), Some(Fixed::zero()));
    assert_eq!(boundary_value(fx(SCALE)), Some(Fixed::one()));
    assert_eq!(boundary_value(fx(SCALE + 7)), Some(Fixed::one()));
    assert_eq!(boundary_value(fx(1)), None);
    assert_eq!(boundary_value(fx(SCALE - 1)), None);
}

#[test]
fn linear_keeps_its_input() {
    assert_eq!(Liner::value(fx(300_000_000_000)), fx(300_000_000_000));
    assert_eq!(Liner::value(fx(1)), fx(1));
}

#[test]
fn quadratic_at_one_half() {
    assert_eq!(Quad::value(fx(500_000_000_000)), fx(250_000_000_000));
    assert_eq!(Quad::value(fx(200_000_000_000)), fx(40_000_000_000));
}

#[test]
fn higher_powers_at_one_half() {
    assert_eq!(Cubec::value(fx(500_000_000_000)), fx(125_000_000_000));
    assert_eq!(Quart::value(fx(500_000_000_000)), fx(62_500_000_000));
    assert_eq!(Quint::value(fx(500_000_000_000)), fx(31_250_000_000));
    assert_eq!(Quint::value(fx(700_000_000_000)), fx(168_070_000_000));
}

#[test]
fn powers_round_to_nearest() {
    assert_eq!(Cubec::value(fx(999_999_000_000)), fx(999_997_000_003));
    assert_eq!(Quart::value(fx(999_999_000_000)), fx(999_996_000_006));
    assert_eq!(Quint::value(fx(999_999_000_000)), fx(999_995_000_010));
    assert_eq!(Quad::value(fx(1)), fx(0));
}

#[test]
fn circular_at_one_half() {
    let v = Circ::value(fx(500_000_000_000));
    assert_eq!(v, fx(133_974_596_216));
    assert!((as_f64(v) - (1.0 - 0.75f64.sqrt())).abs() < 1e-9);
    assert!((as_f64(v) - 0.1339746).abs() < 1e-7);
}

#[test]
fn circular_elsewhere() {
    assert_eq!(Circ::value(fx(200_000_000_000)), fx(20_204_102_887));
    assert_eq!(Circ::value(fx(SCALE - 1)), fx(999_998_585_787));
}

#[test]
fn back_is_one_at_one_and_nearly_one_just_inside() {
    assert_eq!(Back::value(fx(SCALE)), Fixed::one());
    let v = Back::value(fx(999_999_000_000));
    assert_eq!(v, fx(999_995_298_426));
    assert!((as_f64(v) - 1.0).abs() < 1e-5);
    let w = Back::value(fx(SCALE - 1));
    assert!((as_f64(w) - 1.0).abs() < 1e-11);
}

#[test]
fn back_overshoots_below_zero() {
    assert_eq!(Back::value(fx(500_000_000_000)), fx(-87_697_500_000));
    assert!(Back::value(fx(200_000_000_000)).raw < 0);
    assert_eq!(Back::value(fx(700_000_000_000)), fx(92_867_740_000));
}

#[test]
fn bounce_at_the_ends() {
    assert_eq!(Bounce::value(fx(0)), Fixed::zero());
    assert_eq!(Bounce::value(fx(SCALE)), Fixed::one());
    assert_eq!(Bounce::value(fx(SCALE - 1)), Fixed::one());
}

#[test]
fn bounce_inside() {
    assert_eq!(Bounce::value(fx(500_000_000_000)), fx(234_375_000_000));
    assert_eq!(Bounce::value(fx(200_000_000_000)), fx(60_000_000_000));
    assert_eq!(Bounce::value(fx(700_000_000_000)), fx(319_375_000_000));
}

#[test]
fn bounce_arcs_join_at_the_breakpoints() {
    for b in [363_636_363_636i64, 727_272_727_272, 909_090_909_090] {
        let x = SCALE - b;
        let before = Bounce::value(fx(x - 1));
        let at = Bounce::value(fx(x));
        let after = Bounce::value(fx(x + 1));
        assert!((at.raw - before.raw).abs() <= 12);
        assert!((after.raw - at.raw).abs() <= 12);
    }
}

#[test]
fn monotone_curves_never_decrease() {
    let mut xs: Vec<i64> = vec![-3, 0, 1, 2];
    let mut x: i64 = 0;
    while x <= SCALE {
        xs.push(x);
        x += 7_777_777_777;
    }
    xs.push(SCALE - 1);
    xs.push(SCALE);
    xs.push(SCALE + 9);
    xs.sort();
    for w in xs.windows(2) {
        let (a, b) = (fx(w[0]), fx(w[1]));
        assert!(Liner::value(a).raw <= Liner::value(b).raw);
        assert!(Quad::value(a).raw <= Quad::value(b).raw);
        assert!(Cubec::value(a).raw <= Cubec::value(b).raw);
        assert!(Quart::value(a).raw <= Quart::value(b).raw);
        assert!(Quint::value(a).raw <= Quint::value(b).raw);
        assert!(Circ::value(a).raw <= Circ::value(b).raw);
    }
}

#[test]
fn s_value_agrees_with_value() {
    for raw in [-1, 0, 123_456_789_012, 500_000_000_000, SCALE, SCALE + 1] {
        let x = fx(raw);
        assert_eq!(Liner {}.s_value(x), Liner::value(x));
        assert_eq!(Quad {}.s_value(x), Quad::value(x));
        assert_eq!(Circ {}.s_value(x), Circ::value(x));
        assert_eq!(Back {}.s_value(x), Back::value(x));
        assert_eq!(Bounce {}.s_value(x), Bounce::value(x));
    }
}

#[test]
fn inner_value_gives_the_formula_without_clamping() {
    assert_eq!(Quad::inner_value(fx(500_000_000_000)), fx(250_000_000_000));
    assert_eq!(Back::inner_value(fx(500_000_000_000)), fx(-87_697_500_000));
}

#[test]
fn decimal_constants() {
    assert_eq!(Fixed::from_decimal(170158, 5), Ok(fx(1_701_580_000_000)));
    assert_eq!(Fixed::from_decimal(-1075, 2), Ok(fx(-10_750_000_000_000)));
    assert_eq!(Fixed::from_decimal(1, 12), Ok(fx(1)));
    assert_eq!(Fixed::decimal(75625, 4), fx(7_562_500_000_000));
}

#[test]
fn decimal_with_too_many_places_is_refused() {
    assert_eq!(Fixed::from_decimal(1, 13), Err(ConversionError::TooPrecise));
    assert_eq!(Fixed::from_decimal(0, 40), Err(ConversionError::TooPrecise));
}

#[test]
fn decimal_out_of_range_is_refused() {
    assert_eq!(Fixed::from_decimal(i64::MAX, 0), Err(ConversionError::OutOfRange));
    assert_eq!(Fixed::from_decimal(i64::MIN, 11), Err(ConversionError::OutOfRange));
    assert_eq!(Fixed::from_decimal(i64::MAX, 12), Ok(fx(i64::MAX)));
}

#[test]
fn integers() {
    assert_eq!(Fixed::from_int(3), Ok(fx(3 * SCALE)));
    assert_eq!(Fixed::from_int(-2), Ok(fx(-2 * SCALE)));
    assert_eq!(Fixed::from_int(9_223_372), Ok(fx(9_223_372 * SCALE)));
    assert_eq!(Fixed::from_int(9_223_373), Err(ConversionError::OutOfRange));
    assert_eq!(Fixed::from_int(-10_000_000), Err(ConversionError::OutOfRange));
}

#[test]
fn fixed_arithmetic_rounds() {
    assert_eq!(fx(SCALE / 3).mul(fx(3 * SCALE)), fx(999_999_999_999));
    assert_eq!(Fixed::one().div(fx(3 * SCALE)), fx(333_333_333_333));
    assert_eq!(fx(2 * SCALE).sqrt(), fx(1_414_213_562_373));
    assert_eq!(fx(250_000_000_000).sqrt(), fx(500_000_000_000));
    assert_eq!(fx(0).sqrt(), fx(0));
    assert_eq!(fx(-1).mul(fx(500_000_000_000)), fx(0));
    assert_eq!(fx(-1_500_000_000_000).mul(fx(2 * SCALE)), fx(-3 * SCALE));
    assert_eq!(fx(SCALE).div(fx(-3 * SCALE)), fx(-333_333_333_333));
    assert_eq!(fx(-SCALE).div(fx(3 * SCALE)), fx(-333_333_333_333));
    assert_eq!(fx(2 * SCALE).div(fx(3 * SCALE)), fx(666_666_666_667));
    assert!(fx(363_636_363_636).is_below_quotient(Fixed::one(), fx(2_750_000_000_000)));
    assert!(!fx(363_636_363_637).is_below_quotient(Fixed::one(), fx(2_750_000_000_000)));
    assert_eq!(fx(10).add(fx(-3)).sub(fx(2)), fx(5));
}

fn bounce_error_scaled(x: i64, exact_scaled: i128) -> i128 {
    16 * (SCALE as i128) * (Bounce::value(fx(x)).raw as i128) - exact_scaled
}

#[test]
fn bounce_keeps_to_its_last_arc_near_one() {
    let s = SCALE as i128;
    let mut x: i64 = 636_363_636_364;
    while x < SCALE {
        let xp = s - x as i128;
        let err = bounce_error_scaled(x, 16 * s * s - 121 * xp * xp);
        assert!(err.abs() <= 16 * s, "x = {}", x);
        x += 3_141_592_653;
    }
    let v = Bounce::value(fx(679_999_999_945));
    assert!((as_f64(v) - 0.2255999997338).abs() <= 1.05e-12);
}

#[test]
fn bounce_keeps_to_its_first_arc_near_zero() {
    let s = SCALE as i128;
    let mut x: i64 = 1;
    while 11 * x < SCALE {
        let xi = x as i128;
        let err = bounce_error_scaled(x, 11 * xi * s - 121 * xi * xi);
        assert!(err.abs() <= 16 * s, "x = {}", x);
        x += 271_828_183;
    }
}
