//! Random order sizing. Each random function draws with `rand` and hands the
//! draw to a function that takes it as an argument and computes the rest.
use crate::decimal::{
    abs, in_range, lemma_rounded_on_within, lemma_rounded_within, quotient_scaled, rounded, rounded_on, decimal_add, decimal_checked_add, decimal_checked_div, decimal_checked_mul,
    decimal_checked_sub, decimal_div, decimal_mul, decimal_sub, limit_units, mantissa_max,
    one_units, half_units, opt_view, pow10, representable, units_of, Dec,
};
use rand::RngExt;
use vstd::prelude::*;

verus! {

/// The number of steps a random fraction is drawn in: a fraction is
/// `draw / FRACTION_STEPS` with `draw` in `0..=FRACTION_STEPS`.
pub const FRACTION_STEPS: usize = 1_000_000;

/// rand's `random_range` over `min..=max` on the thread generator: a draw
/// between the bounds, both included. Which one depends on chance; it panics on
/// an empty range, which `requires` leaves out.
#[verifier::external_body]
fn sample_inclusive(min: usize, max: usize) -> (r: usize)
    requires
        min <= max,
    ensures
        min <= r <= max,
{
    rand::rng().random_range(min..=max)
}

/// A random whole number between `min` and `max`, both included.
pub fn random_number(min: usize, max: usize) -> (r: usize)
    requires
        min <= max,
    ensures
        min <= r <= max,
{
    sample_inclusive(min, max)
}

/// The cap on what one order may be worth in the quote asset.
pub open spec fn notional_cap() -> (int, nat) {
    (1000, 0)
}

pub open spec fn zero_view() -> (int, nat) {
    (0, 0)
}

/// The smaller of two decimals by value, `a` when they are equal.
pub open spec fn min_view(a: (int, nat), b: (int, nat)) -> (int, nat) {
    if units_of(a) > units_of(b) {
        b
    } else {
        a
    }
}

/// `min + (max - min) * (draw / FRACTION_STEPS)`, each step as rust_decimal
/// computes it; `None` where a step overflows.
pub open spec fn between_spec(min: (int, nat), max: (int, nat), draw: nat) -> Option<(int, nat)> {
    match decimal_checked_div((draw as int, 0nat), (1000000int, 0nat)) {
        None => None,
        Some(f) => match decimal_checked_sub(max, min) {
            None => None,
            Some(d) => match decimal_checked_mul(d, f) {
                None => None,
                Some(p) => decimal_checked_add(min, p),
            },
        },
    }
}

/// The quote worth to spend: a random share (between `min` and `max`, from
/// `draw`) of the balance capped at 1000; zero when that cap is not positive.
pub open spec fn quote_to_spend_spec(
    quote_balance: (int, nat),
    min: (int, nat),
    max: (int, nat),
    draw: nat,
) -> Option<(int, nat)> {
    let max_notional = min_view(quote_balance, notional_cap());
    if units_of(max_notional) <= 0 {
        Some(zero_view())
    } else {
        match between_spec(min, max, draw) {
            None => None,
            Some(r) => decimal_checked_mul(r, max_notional),
        }
    }
}

/// The base quantity to buy at `price`: zero for a price that is not positive,
/// else the quote worth to spend divided by the price.
pub open spec fn quantity_to_buy_spec(
    quote_balance: (int, nat),
    price: (int, nat),
    min: (int, nat),
    max: (int, nat),
    draw: nat,
) -> Option<(int, nat)> {
    if units_of(price) <= 0 {
        Some(zero_view())
    } else {
        let max_notional = min_view(quote_balance, notional_cap());
        if units_of(max_notional) <= 0 {
            Some(zero_view())
        } else {
            match between_spec(min, max, draw) {
                None => None,
                Some(r) => match decimal_checked_mul(r, max_notional) {
                    None => None,
                    Some(notional) => decimal_checked_div(notional, price),
                },
            }
        }
    }
}

/// The base quantity to sell at `price`: zero for a price that is not positive,
/// else a random share of the balance's worth (capped at 1000) divided by the
/// price; zero when that capped worth is not positive.
pub open spec fn quantity_to_sell_spec(
    base_balance: (int, nat),
    price: (int, nat),
    min: (int, nat),
    max: (int, nat),
    draw: nat,
) -> Option<(int, nat)> {
    if units_of(price) <= 0 {
        Some(zero_view())
    } else {
        match decimal_checked_mul(base_balance, price) {
            None => None,
            Some(base_notional) => {
                let max_notional = min_view(base_notional, notional_cap());
                if units_of(max_notional) <= 0 {
                    Some(zero_view())
                } else {
                    match between_spec(min, max, draw) {
                        None => None,
                        Some(r) => match decimal_checked_mul(r, max_notional) {
                            None => None,
                            Some(notional) => decimal_checked_div(notional, price),
                        },
                    }
                }
            }
        }
    }
}

/// The bounds under which a random fraction between `min` and `max` never
/// overflows: the distance between the ends can be written as a decimal (then
/// no step can overflow), or both ends, and their distance, stay clear of the
/// largest decimal.
pub open spec fn fraction_bounds(min: Dec, max: Dec) -> bool {
    representable(max.val() - min.val()) || loose_bounds(min, max)
}

/// Both ends of a random fraction, and their distance, stay clear of the
/// largest decimal.
pub open spec fn loose_bounds(min: Dec, max: Dec) -> bool {
    &&& abs(max.val() - min.val()) + half_units() <= limit_units()
    &&& abs(min.val()) + one_units() <= limit_units()
    &&& abs(max.val()) + one_units() <= limit_units()
}

/// A bound on the magnitude of any fraction drawn between `min` and `max`: the
/// larger end where the distance between the ends can be written as a decimal,
/// else two more than that.
pub open spec fn draw_bound(min: Dec, max: Dec) -> int {
    if representable(max.val() - min.val()) {
        end_bound(min, max)
    } else {
        end_bound(min, max) + 2 * one_units()
    }
}

/// The larger magnitude of the two ends.
pub open spec fn end_bound(min: Dec, max: Dec) -> int {
    if abs(min.val()) > abs(max.val()) {
        abs(min.val())
    } else {
        abs(max.val())
    }
}

/// A random share (between `min` and `max`) of a worth of at most 1000 can be
/// taken, and divided by `price`, without overflow.
pub open spec fn share_bounds(min: Dec, max: Dec, price_units: int) -> bool {
    &&& fraction_bounds(min, max)
    &&& 1000 * draw_bound(min, max) <= limit_units()
    &&& price_units > 0 ==> (1000 * draw_bound(min, max) + half_units()) * one_units()
        <= limit_units() * price_units
}

/// The decimal `1000`.
pub fn notional_cap_dec() -> (d: Dec)
    ensures
        d@ == notional_cap(),
        d.val() == 1000 * one_units(),
{
    proof {
        reveal_with_fuel(pow10, 29);
    }
    Dec::new(1000, 0)
}

/// Where `p` is `d * f` rounded (in units, `f` a fraction of one), `p` lies
/// between zero and `d`, widened by half a unit.
proof fn lemma_scaled_between(d: int, f: int, p: int)
    requires
        0 <= f <= one_units(),
        abs(p * one_units() - d * f) <= half_units() * one_units(),
    ensures
        d >= 0 ==> -half_units() <= p <= d + half_units(),
        d < 0 ==> d - half_units() <= p <= half_units(),
{
    let o = one_units();
    let h = half_units();
    if d >= 0 {
        assert(0 <= d * f <= d * o) by (nonlinear_arith)
            requires
                d >= 0,
                0 <= f <= o,
        ;
        assert(-h * o <= p * o) by (nonlinear_arith)
            requires
                abs(p * o - d * f) <= h * o,
                d * f >= 0,
        ;
        assert(p * o <= (d + h) * o) by (nonlinear_arith)
            requires
                abs(p * o - d * f) <= h * o,
                d * f <= d * o,
        ;
        assert(-h <= p) by (nonlinear_arith)
            requires
                -h * o <= p * o,
                o > 0,
        ;
        assert(p <= d + h) by (nonlinear_arith)
            requires
                p * o <= (d + h) * o,
                o > 0,
        ;
    } else {
        assert(d * o <= d * f <= 0) by (nonlinear_arith)
            requires
                d < 0,
                0 <= f <= o,
        ;
        assert((d - h) * o <= p * o) by (nonlinear_arith)
            requires
                abs(p * o - d * f) <= h * o,
                d * o <= d * f,
        ;
        assert(p * o <= h * o) by (nonlinear_arith)
            requires
                abs(p * o - d * f) <= h * o,
                d * f <= 0,
        ;
        assert(d - h <= p) by (nonlinear_arith)
            requires
                (d - h) * o <= p * o,
                o > 0,
        ;
        assert(p <= h) by (nonlinear_arith)
            requires
                p * o <= h * o,
                o > 0,
        ;
    }
}

/// The fraction `draw / FRACTION_STEPS`: always computed, and exact.
fn fraction(draw: usize) -> (f: Dec)
    requires
        draw <= FRACTION_STEPS,
    ensures
        decimal_checked_div((draw as int, 0nat), (1000000int, 0nat)) == Some(f@),
        f.val() == draw * 10000000000000000000000,
{
    let a = Dec::from_usize(draw);
    let b = Dec::from_usize(FRACTION_STEPS);
    proof {
        let q = draw * 10000000000000000000000;
        assert(a.val() * one_units() == q * b.val()) by (nonlinear_arith)
            requires
                a.val() == draw * one_units(),
                b.val() == 1000000 * one_units(),
                q == draw * 10000000000000000000000,
                one_units() == 10000000000000000000000000000,
        ;
        assert((a.val() * one_units()) % b.val() == 0) by {
            vstd::arithmetic::div_mod::lemma_mod_multiples_basic(q, b.val());
        }
        assert((a.val() * one_units()) / b.val() == q) by {
            vstd::arithmetic::div_mod::lemma_div_multiples_vanish(q, b.val());
        }
        reveal_with_fuel(pow10, 23);
        assert(q % pow10(22) == 0 && abs(q / pow10(22)) <= mantissa_max()) by {
            vstd::arithmetic::div_mod::lemma_mod_multiples_basic(draw as int, pow10(22));
            vstd::arithmetic::div_mod::lemma_div_multiples_vanish(draw as int, pow10(22));
        }
        assert(representable(q));
    }
    let f = decimal_div(a, b);
    match f {
        Some(f) => {
            proof {
                assert(f.val() * b.val() == a.val() * one_units());
                assert(f.val() == draw * 10000000000000000000000) by (nonlinear_arith)
                    requires
                        f.val() * b.val() == a.val() * one_units(),
                        b.val() == 1000000 * one_units(),
                        a.val() == draw * one_units(),
                        one_units() > 0,
                ;
            }
            f
        },
        None => {
            proof {
                assert(false);
            }
            Dec::zero()
        },
    }
}

/// The distance `max - min`, as rust_decimal computes it, does not round up
/// (it is exact, or rounds down).
pub open spec fn distance_kept(min: Dec, max: Dec) -> bool {
    match decimal_checked_sub(max@, min@) {
        Some(d) => units_of(d) <= max.val() - min.val(),
        None => false,
    }
}

/// No step of `min + (max - min) * (draw / FRACTION_STEPS)` rounds: the
/// difference, the share of it and the sum can each be written as a decimal.
pub open spec fn exact_fraction(min: Dec, max: Dec, draw: nat) -> bool {
    let dx = max.val() - min.val();
    &&& representable(dx)
    &&& (dx * draw) % 1000000 == 0
    &&& representable((dx * draw) / 1000000)
    &&& representable(min.val() + (dx * draw) / 1000000)
}

/// `min + (max - min) * (draw / FRACTION_STEPS)` as rust_decimal computes it;
/// `None` where a step overflows. Where no step rounds, the result is that
/// value exactly; with `min == max` it is `min`. Wherever `max - min` can be
/// written as a decimal, or rounds down, it lies between the ends, on every
/// draw, since the later steps round without crossing a decimal. (Where
/// `max - min` itself rounds up, the result can pass `max`.)
pub fn decimal_between(min: Dec, max: Dec, draw: usize) -> (r: Option<Dec>)
    requires
        draw <= FRACTION_STEPS,
    ensures
        opt_view(r) == between_spec(min@, max@, draw as nat),
        fraction_bounds(min, max) ==> (r matches Some(v) && abs(v.val()) <= draw_bound(min, max)),
        exact_fraction(min, max, draw as nat) ==> (r matches Some(v) && v.val() == min.val() + ((
        max.val() - min.val()) * draw) / 1000000),
        exact_fraction(min, max, draw as nat) && min.val() <= max.val() ==> (r matches Some(v)
            && min.val() <= v.val() <= max.val()),
        min.val() == max.val() ==> (r matches Some(v) && v.val() == min.val()),
        representable(max.val() - min.val()) ==> (r matches Some(v) && (min.val() <= max.val()
            ==> min.val() <= v.val() <= max.val()) && (max.val() < min.val() ==> max.val() <= v.val()
            <= min.val())),
        min.val() <= max.val() && distance_kept(min, max) ==> (r matches Some(v) && min.val()
            <= v.val() <= max.val()),
{
    min.bounds();
    max.bounds();
    let zero = Dec::zero();
    zero.bounds();
    proof {
        if min.val() == max.val() {
            lemma_representable_zero();
            assert((0 * draw) % 1000000 == 0);
            assert((0int * draw) / 1000000 == 0);
            assert(exact_fraction(min, max, draw as nat));
        }
    }
    let f = fraction(draw);
    let d = decimal_sub(max, min);
    match d {
        None => None,
        Some(d) => {
            d.bounds();
            proof {
                if loose_bounds(min, max) {
                    lemma_product_fits(d.val(), f.val());
                }
                if min.val() <= max.val() && distance_kept(min, max) {
                    lemma_representable_zero();
                    lemma_rounded_within(max.val() - min.val(), 1, d, 0, 0);
                    lemma_representable_bound(d.val());
                    assert(abs(d.val() * f.val()) <= mantissa_max() * one_units() * one_units())
                        by (nonlinear_arith)
                        requires
                            abs(d.val()) <= mantissa_max() * one_units(),
                            0 <= f.val() <= one_units(),
                    ;
                }
                if representable(max.val() - min.val()) {
                    lemma_representable_bound(d.val());
                    assert(abs(d.val() * f.val()) <= mantissa_max() * one_units() * one_units())
                        by (nonlinear_arith)
                        requires
                            abs(d.val()) <= mantissa_max() * one_units(),
                            0 <= f.val() <= one_units(),
                    ;
                }
                if exact_fraction(min, max, draw as nat) {
                    lemma_share_exact(d.val(), draw as int, f.val());
                }
            }
            let p = decimal_mul(d, f);
            match p {
                None => None,
                Some(p) => {
                    p.bounds();
                    proof {
                        if representable(max.val() - min.val()) {
                            let x = d.val() * f.val();
                            lemma_representable_zero();
                            if d.val() >= 0 {
                                assert(0 <= x <= d.val() * one_units()) by (nonlinear_arith)
                                    requires
                                        x == d.val() * f.val(),
                                        d.val() >= 0,
                                        0 <= f.val() <= one_units(),
                                ;
                                lemma_rounded_within(x, one_units(), p, zero.val(), d.val());
                            } else {
                                assert(d.val() * one_units() <= x <= 0) by (nonlinear_arith)
                                    requires
                                        x == d.val() * f.val(),
                                        d.val() < 0,
                                        0 <= f.val() <= one_units(),
                                ;
                                lemma_rounded_within(x, one_units(), p, d.val(), zero.val());
                            }
                            lemma_representable_bound(min.val());
                            lemma_representable_bound(max.val());
                        }
                        if min.val() <= max.val() && distance_kept(min, max) {
                            let x = d.val() * f.val();
                            lemma_representable_zero();
                            assert(0 <= x <= d.val() * one_units()) by (nonlinear_arith)
                                requires
                                    x == d.val() * f.val(),
                                    d.val() >= 0,
                                    0 <= f.val() <= one_units(),
                            ;
                            lemma_rounded_within(x, one_units(), p, zero.val(), d.val());
                            lemma_representable_bound(min.val());
                            lemma_representable_bound(max.val());
                        }
                        if loose_bounds(min, max) && !representable(max.val() - min.val()) {
                            lemma_between_bounded(min, max, d, f, p);
                        }
                        if exact_fraction(min, max, draw as nat) {
                            let t = ((max.val() - min.val()) * draw) / 1000000;
                            assert(p.val() == t) by (nonlinear_arith)
                                requires
                                    p.val() * one_units() == d.val() * f.val(),
                                    d.val() * f.val() == t * one_units(),
                                    one_units() > 0,
                            ;
                            if min.val() <= max.val() {
                                lemma_share_within(max.val() - min.val(), draw as int);
                            }
                        }
                    }
                    let r = decimal_add(min, p);
                    if let Some(v) = &r {
                        v.bounds();
                        proof {
                            if min.val() <= max.val() && distance_kept(min, max) {
                                lemma_rounded_within(min.val() + p.val(), 1, *v, min.val(), max.val());
                            }
                            if representable(max.val() - min.val()) {
                                if min.val() <= max.val() {
                                    lemma_rounded_within(min.val() + p.val(), 1, *v, min.val(), max.val());
                                } else {
                                    lemma_rounded_within(min.val() + p.val(), 1, *v, max.val(), min.val());
                                }
                            }
                        }
                    }
                    r
                },
            }
        },
    }
}

proof fn lemma_representable_zero()
    ensures
        representable(0),
{
    assert(pow10(0) == 1);
    assert(0int % pow10(0) == 0 && abs(0int / pow10(0)) <= mantissa_max());
}

/// With `dx * draw` a whole number of millions, `dx` times the fraction
/// `draw * 10^22` units is a whole number of units: `dx * draw / 10^6`.
proof fn lemma_share_exact(dx: int, draw: int, f: int)
    requires
        f == draw * 10000000000000000000000,
        (dx * draw) % 1000000 == 0,
    ensures
        (dx * f) % one_units() == 0,
        (dx * f) / one_units() == (dx * draw) / 1000000,
        dx * f == ((dx * draw) / 1000000) * one_units(),
{
    let t = (dx * draw) / 1000000;
    vstd::arithmetic::div_mod::lemma_fundamental_div_mod(dx * draw, 1000000);
    assert(dx * draw == 1000000 * t);
    assert(dx * f == t * one_units()) by (nonlinear_arith)
        requires
            dx * draw == 1000000 * t,
            f == draw * 10000000000000000000000,
            one_units() == 10000000000000000000000000000,
    ;
    vstd::arithmetic::div_mod::lemma_mod_multiples_basic(t, one_units());
    vstd::arithmetic::div_mod::lemma_div_multiples_vanish(t, one_units());
    assert(t * one_units() == one_units() * t) by (nonlinear_arith);
}

/// A share `dx * draw / 10^6` with `draw <= 10^6` of a non-negative `dx` lies
/// between zero and `dx`.
proof fn lemma_share_within(dx: int, draw: int)
    requires
        dx >= 0,
        0 <= draw <= 1000000,
    ensures
        0 <= (dx * draw) / 1000000 <= dx,
{
    assert(0 <= dx * draw <= dx * 1000000) by (nonlinear_arith)
        requires
            dx >= 0,
            0 <= draw <= 1000000,
    ;
    vstd::arithmetic::div_mod::lemma_div_is_ordered(dx * draw, dx * 1000000, 1000000);
    vstd::arithmetic::div_mod::lemma_div_by_multiple(dx, 1000000);
    vstd::arithmetic::div_mod::lemma_div_is_ordered(0, dx * draw, 1000000);
}

proof fn lemma_between_bounded(min: Dec, max: Dec, d: Dec, f: Dec, p: Dec)
    requires
        loose_bounds(min, max),
        0 <= f.val() <= one_units(),
        abs(d.val() - (max.val() - min.val())) <= half_units(),
        abs(p.val() * one_units() - d.val() * f.val()) <= half_units() * one_units(),
    ensures
        abs(min.val() + p.val()) <= end_bound(min, max) + one_units(),
        abs(min.val() + p.val()) <= limit_units(),
{
    lemma_scaled_between(d.val(), f.val(), p.val());
}

/// A value that fits, times a fraction of one, stays clear of the product limit.
proof fn lemma_product_fits(d: int, f: int)
    requires
        abs(d) <= limit_units(),
        0 <= f <= one_units(),
    ensures
        abs(d * f) <= limit_units() * one_units(),
{
    let l = limit_units();
    let o = one_units();
    assert(abs(d * f) <= l * o) by (nonlinear_arith)
        requires
            abs(d) <= l,
            0 <= f <= o,
    ;
}

/// A random decimal between `min` and `max`: `min + (max - min) * fraction`
/// with the fraction drawn in a million steps.
pub fn random_decimal(min: Dec, max: Dec) -> (r: Dec)
    requires
        fraction_bounds(min, max),
    ensures
        exists|draw: nat|
            draw <= 1000000 && between_spec(min@, max@, draw) == Some(r@) && (exact_fraction(
                min,
                max,
                draw,
            ) ==> r.val() == min.val() + ((max.val() - min.val()) * draw) / 1000000) && (
            exact_fraction(min, max, draw) && min.val() <= max.val() ==> min.val() <= r.val()
                <= max.val()),
        abs(r.val()) <= draw_bound(min, max),
        min.val() == max.val() ==> r.val() == min.val(),
        min.val() <= max.val() && (representable(max.val() - min.val()) || distance_kept(min, max))
            ==> min.val() <= r.val() <= max.val(),
{
    let draw = sample_inclusive(0, FRACTION_STEPS);
    match decimal_between(min, max, draw) {
        Some(r) => r,
        None => {
            proof {
                assert(false);
            }
            Dec::zero()
        },
    }
}

/// A share `r` (at most `b` in magnitude) of a positive worth `mn` of at most
/// 1000 stays clear of the product limit, and its rounding stays within
/// `1000 * b` and half a unit.
proof fn lemma_share_bounded(r: int, mn: int, b: int)
    requires
        abs(r) <= b,
        0 < mn <= 1000 * one_units(),
        1000 * b <= limit_units(),
    ensures
        abs(r * mn) <= limit_units() * one_units(),
        abs(r * mn) <= 1000 * b * one_units(),
{
    let o = one_units();
    let l = limit_units();
    assert(abs(r * mn) <= 1000 * b * o) by (nonlinear_arith)
        requires
            abs(r) <= b,
            0 < mn <= 1000 * o,
    ;
    assert(1000 * b * o <= l * o) by (nonlinear_arith)
        requires
            1000 * b <= l,
            o > 0,
    ;
}

proof fn lemma_rounded_share(n: int, exact: int, bound: int)
    requires
        abs(exact) <= bound * one_units(),
        abs(n * one_units() - exact) <= half_units() * one_units(),
    ensures
        abs(n) <= bound + half_units(),
{
    let o = one_units();
    let h = half_units();
    assert(abs(n * o) <= (bound + h) * o) by (nonlinear_arith)
        requires
            abs(exact) <= bound * o,
            abs(n * o - exact) <= h * o,
    ;
    assert(abs(n) <= bound + h) by (nonlinear_arith)
        requires
            abs(n * o) <= (bound + h) * o,
            o > 0,
    ;
}

/// The lesser of a value and 1000 is at most 1000.
proof fn lemma_capped(mn: Dec, q: Dec, cap: Dec)
    requires
        cap.val() == 1000 * one_units(),
        mn == (if q.val() > cap.val() { cap } else { q }),
    ensures
        mn@ == min_view(q@, cap@),
        mn.val() <= 1000 * one_units(),
{
}

/// The worth a share is taken of: the balance capped at 1000, in units.
pub open spec fn capped_units(balance: Dec) -> int {
    units_of(min_view(balance@, notional_cap()))
}

/// No step of a share of the capped balance rounds: the fraction is exact, the
/// capped balance is positive, and the share of it can be written as a decimal.
pub open spec fn exact_share(quote_balance: Dec, min: Dec, max: Dec, draw: nat) -> bool {
    exact_share_of(capped_units(quote_balance), min, max, draw)
}

/// The share (between `min` and `max`, from `draw`) exactly as drawn, in units.
pub open spec fn share_units(min: Dec, max: Dec, draw: nat) -> int {
    min.val() + ((max.val() - min.val()) * draw) / 1000000
}

/// No step of a share of the positive worth `mn` (in units) rounds.
pub open spec fn exact_share_of(mn: int, min: Dec, max: Dec, draw: nat) -> bool {
    let share = share_units(min, max, draw);
    &&& exact_fraction(min, max, draw)
    &&& min.val() <= max.val()
    &&& mn > 0
    &&& (share * mn) % one_units() == 0
    &&& representable((share * mn) / one_units())
}

/// No step of a share of the worth `mn`, divided by `price` (both in units),
/// rounds.
pub open spec fn exact_quantity_of(mn: int, price: int, min: Dec, max: Dec, draw: nat) -> bool {
    let n = (share_units(min, max, draw) * mn) / one_units();
    &&& exact_share_of(mn, min, max, draw)
    &&& price > 0
    &&& (n * one_units()) % price == 0
    &&& representable((n * one_units()) / price)
}

/// The worth of `v` at `price` lies between `min` and `max` times the worth
/// `mn` (all in units).
pub open spec fn within_worth(mn: int, price: int, min: Dec, max: Dec, v: Dec) -> bool {
    min.val() * mn <= v.val() * price <= max.val() * mn
}

/// The base balance's worth at `price`, capped at 1000, in units, where the
/// worth can be written as a decimal.
pub open spec fn capped_worth_units(base_balance: Dec, price: Dec) -> int {
    let w = (base_balance.val() * price.val()) / one_units();
    if w > 1000 * one_units() {
        1000 * one_units()
    } else {
        w
    }
}

/// No step of a buy at `price` rounds.
pub open spec fn exact_buy(quote_balance: Dec, price: Dec, min: Dec, max: Dec, draw: nat) -> bool {
    exact_quantity_of(capped_units(quote_balance), price.val(), min, max, draw)
}

/// No step of a sell at `price` rounds: the balance's worth, the share of it
/// and the quotient by the price.
pub open spec fn exact_sell(base_balance: Dec, price: Dec, min: Dec, max: Dec, draw: nat) -> bool {
    &&& (base_balance.val() * price.val()) % one_units() == 0
    &&& representable((base_balance.val() * price.val()) / one_units())
    &&& exact_quantity_of(capped_worth_units(base_balance, price), price.val(), min, max, draw)
}

/// `v` lies between `min` and `max` times the capped balance.
pub open spec fn within_share(quote_balance: Dec, min: Dec, max: Dec, v: Dec) -> bool {
    let mn = capped_units(quote_balance);
    min.val() * mn <= v.val() * one_units() <= max.val() * mn
}

/// The ends of a share of the worth `mn` (in units), `min * mn` and
/// `max * mn`, can each be written as a decimal, and `max - min` does not round
/// up: no rounding moves a share past its ends.
pub open spec fn representable_ends(mn: int, min: Dec, max: Dec) -> bool {
    &&& (distance_kept(min, max) || representable(max.val() - min.val()))
    &&& (min.val() * mn) % one_units() == 0
    &&& representable((min.val() * mn) / one_units())
    &&& (max.val() * mn) % one_units() == 0
    &&& representable((max.val() * mn) / one_units())
}

/// The quote worth to spend for a given draw: a share (between `min` and `max`)
/// of the balance capped at 1000, or zero when that cap is not positive;
/// `None` where a step overflows.
pub fn quote_to_spend(quote_balance: Dec, min: Dec, max: Dec, draw: usize) -> (r: Option<Dec>)
    requires
        draw <= FRACTION_STEPS,
    ensures
        opt_view(r) == quote_to_spend_spec(quote_balance@, min@, max@, draw as nat),
        share_bounds(min, max, 0) ==> r is Some,
        quote_balance.val() <= 0 ==> (r matches Some(v) && v@ == zero_view()),
        exact_share(quote_balance, min, max, draw as nat) ==> (r matches Some(v) && within_share(
            quote_balance,
            min,
            max,
            v,
        )),
        min.val() <= max.val() && capped_units(quote_balance) > 0
            && representable_ends(capped_units(quote_balance), min, max) ==> (r matches Some(v)
            && within_share(quote_balance, min, max, v)),
{
    let cap = notional_cap_dec();
    let max_notional = quote_balance.min(cap);
    proof {
        lemma_capped(max_notional, quote_balance, cap);
    }
    if max_notional.is_le(&Dec::zero()) {
        return Some(Dec::zero());
    }
    proof {
        assert(max_notional.val() <= quote_balance.val());
    }
    match decimal_between(min, max, draw) {
        None => None,
        Some(share) => {
            proof {
                if share_bounds(min, max, 0) {
                    lemma_share_bounded(share.val(), max_notional.val(), draw_bound(min, max));
                }
            }
            proof {
                let mn = max_notional.val();
                if min.val() <= max.val() && representable_ends(mn, min, max) {
                    lemma_ends_bound(share.val(), mn, min.val(), max.val());
                }
            }
            let r = decimal_mul(share, max_notional);
            if let Some(v) = &r {
                v.bounds();
                proof {
                    let mn = max_notional.val();
                    if min.val() <= max.val() && representable_ends(mn, min, max) {
                        let lo = (min.val() * mn) / one_units();
                        let hi = (max.val() * mn) / one_units();
                        lemma_ends_bound(share.val(), mn, min.val(), max.val());
                        lemma_rounded_within(share.val() * mn, one_units(), *v, lo, hi);
                        assert(min.val() * mn <= v.val() * one_units() <= max.val() * mn) by (nonlinear_arith)
                            requires
                                lo <= v.val() <= hi,
                                lo * one_units() == min.val() * mn,
                                hi * one_units() == max.val() * mn,
                                one_units() > 0,
                        ;
                    }
                }
            }
            proof {
                let mn = max_notional.val();
                if exact_fraction(min, max, draw as nat) && min.val() <= max.val() && (share.val()
                    * mn) % one_units() == 0 && representable((share.val() * mn) / one_units()) {
                    let v = r->0;
                    assert(min.val() * mn <= share.val() * mn <= max.val() * mn) by (nonlinear_arith)
                        requires
                            min.val() <= share.val() <= max.val(),
                            mn > 0,
                    ;
                }
            }
            r
        },
    }
}

/// A share between `min` and `max` of a positive worth `mn`, where both ends
/// times `mn` are whole numbers of units that can be written as decimals, lies
/// between those ends and stays clear of the product limit.
proof fn lemma_ends_bound(share: int, mn: int, min: int, max: int)
    requires
        min <= share <= max,
        mn > 0,
        (min * mn) % one_units() == 0,
        representable((min * mn) / one_units()),
        (max * mn) % one_units() == 0,
        representable((max * mn) / one_units()),
    ensures
        ((min * mn) / one_units()) * one_units() == min * mn,
        ((max * mn) / one_units()) * one_units() == max * mn,
        ((min * mn) / one_units()) * one_units() <= share * mn <= ((max * mn) / one_units())
            * one_units(),
        abs(share * mn) <= mantissa_max() * one_units() * one_units(),
{
    let o = one_units();
    let lo = (min * mn) / o;
    let hi = (max * mn) / o;
    vstd::arithmetic::div_mod::lemma_fundamental_div_mod(min * mn, o);
    vstd::arithmetic::div_mod::lemma_fundamental_div_mod(max * mn, o);
    assert(lo * o == min * mn && hi * o == max * mn) by (nonlinear_arith)
        requires
            min * mn == o * lo + 0,
            max * mn == o * hi + 0,
    ;
    assert(min * mn <= share * mn <= max * mn) by (nonlinear_arith)
        requires
            min <= share <= max,
            mn > 0,
    ;
    lemma_representable_bound(lo);
    lemma_representable_bound(hi);
    assert(abs(share * mn) <= mantissa_max() * o * o) by (nonlinear_arith)
        requires
            lo * o <= share * mn <= hi * o,
            abs(lo) <= mantissa_max() * o,
            abs(hi) <= mantissa_max() * o,
            o > 0,
    ;
}

/// A value that can be written as a decimal is at most the largest mantissa
/// in whole units.
proof fn lemma_representable_bound(v: int)
    requires
        representable(v),
    ensures
        abs(v) <= mantissa_max() * one_units(),
{
    let k = choose|k: nat| #![trigger pow10(k)] k <= 28 && v % pow10(k) == 0 && abs(v / pow10(k)) <= mantissa_max();
    crate::decimal::lemma_pow10_le_28(k);
    vstd::arithmetic::div_mod::lemma_fundamental_div_mod(v, pow10(k));
    assert(abs(v) <= mantissa_max() * one_units()) by (nonlinear_arith)
        requires
            v == pow10(k) * (v / pow10(k)),
            abs(v / pow10(k)) <= mantissa_max(),
            0 < pow10(k) <= one_units(),
    ;
}

/// A random quote worth to spend: a share between `min` and `max` of the
/// balance capped at 1000; zero when that cap is not positive.
pub fn random_quote_to_spend(quote_balance: Dec, min: Dec, max: Dec) -> (r: Dec)
    requires
        share_bounds(min, max, 0),
    ensures
        exists|draw: nat|
            draw <= 1000000 && quote_to_spend_spec(quote_balance@, min@, max@, draw) == Some(r@) && (
            exact_share(quote_balance, min, max, draw) ==> within_share(quote_balance, min, max, r)),
        units_of(min_view(quote_balance@, notional_cap())) <= 0 ==> r@ == zero_view(),
        min.val() <= max.val() && capped_units(quote_balance) > 0 && representable_ends(
            capped_units(quote_balance),
            min,
            max,
        ) ==> within_share(quote_balance, min, max, r),
{
    let draw = sample_inclusive(0, FRACTION_STEPS);
    match quote_to_spend(quote_balance, min, max, draw) {
        Some(r) => r,
        None => {
            proof {
                assert(false);
            }
            Dec::zero()
        },
    }
}

/// The base quantity to buy at `price` for a given draw: zero for a price that
/// is not positive or a capped quote balance that is not positive, else a share
/// of the capped balance divided by the price; `None` where a step overflows.
pub fn base_quantity_to_buy(quote_balance: Dec, price: Dec, min: Dec, max: Dec, draw: usize) -> (r:
    Option<Dec>)
    requires
        draw <= FRACTION_STEPS,
    ensures
        opt_view(r) == quantity_to_buy_spec(quote_balance@, price@, min@, max@, draw as nat),
        share_bounds(min, max, price.val()) ==> r is Some,
        price.val() <= 0 ==> (r matches Some(v) && v@ == zero_view()),
        quote_balance.val() <= 0 ==> (r matches Some(v) && v@ == zero_view()),
        exact_buy(quote_balance, price, min, max, draw as nat) ==> (r matches Some(v) && within_worth(
            capped_units(quote_balance),
            price.val(),
            min,
            max,
            v,
        )),
        price.val() > 0 && capped_units(quote_balance) > 0 && min.val()
            <= max.val() && representable_ends(capped_units(quote_balance), min, max) ==> (r matches Some(
            v,
        ) ==> quantity_of_notional(capped_units(quote_balance), price, min, max, v)),
{
    if price.is_le(&Dec::zero()) {
        return Some(Dec::zero());
    }
    let cap = notional_cap_dec();
    let max_notional = quote_balance.min(cap);
    proof {
        lemma_capped(max_notional, quote_balance, cap);
    }
    if max_notional.is_le(&Dec::zero()) {
        return Some(Dec::zero());
    }
    sized_quantity(max_notional, price, min, max, draw)
}

/// `v` is some notional `n` between `min` and `max` times the worth `c` (in
/// units), divided by `price` as rust_decimal divides: within half a unit of
/// `n / price`, and exactly that where the quotient can be written as a decimal.
pub open spec fn quantity_of_notional(c: int, price: Dec, min: Dec, max: Dec, v: Dec) -> bool {
    exists|n: Dec|
        #![trigger decimal_checked_div(n@, price@)]
        min.val() * c <= n.val() * one_units() <= max.val() * c && decimal_checked_div(n@, price@)
            == Some(v@) && abs(v.val() * price.val() - n.val() * one_units()) <= half_units() * abs(
            price.val(),
        ) && ((n.val() * one_units()) % price.val() == 0 && representable(
            (n.val() * one_units()) / price.val(),
        ) ==> v.val() * price.val() == n.val() * one_units())
}

/// The base balance's worth at `price` as rust_decimal computes it, capped at
/// 1000, in units; zero where the worth overflows.
pub open spec fn sell_worth(base_balance: Dec, price: Dec) -> int {
    match decimal_checked_mul(base_balance@, price@) {
        Some(bn) => units_of(min_view(bn, notional_cap())),
        None => 0,
    }
}

/// A share (between `min` and `max`, from `draw`) of the positive worth
/// `max_notional`, divided by the positive `price`.
fn sized_quantity(max_notional: Dec, price: Dec, min: Dec, max: Dec, draw: usize) -> (r: Option<
    Dec,
>)
    requires
        draw <= FRACTION_STEPS,
        0 < max_notional.val() <= 1000 * one_units(),
        price.val() > 0,
    ensures
        opt_view(r) == (match between_spec(min@, max@, draw as nat) {
            None => None,
            Some(share) => match decimal_checked_mul(share, max_notional@) {
                None => None,
                Some(notional) => decimal_checked_div(notional, price@),
            },
        }),
        share_bounds(min, max, price.val()) ==> r is Some,
        exact_quantity_of(max_notional.val(), price.val(), min, max, draw as nat) ==> (r matches Some(
            v,
        ) && within_worth(max_notional.val(), price.val(), min, max, v)),
        min.val() <= max.val() && representable_ends(
            max_notional.val(),
            min,
            max,
        ) ==> (r matches Some(v) ==> quantity_of_notional(max_notional.val(), price, min, max, v)),
        min.val() <= max.val() <= one_units() && (distance_kept(min, max) || representable(
            max.val() - min.val(),
        )) ==> (r matches Some(v) ==> forall|h: int|
            representable(h) && max_notional.val() * one_units() <= h * price.val() ==> v.val() <= h),
{
    max_notional.bounds();
    match decimal_between(min, max, draw) {
        None => None,
        Some(share) => {
            proof {
                if share_bounds(min, max, price.val()) {
                    lemma_share_bounded(share.val(), max_notional.val(), draw_bound(min, max));
                }
            }
            proof {
                let mn = max_notional.val();
                if min.val() <= max.val() && representable_ends(mn, min, max) {
                    lemma_ends_bound(share.val(), mn, min.val(), max.val());
                }
            }
            match decimal_mul(share, max_notional) {
                None => None,
                Some(notional) => {
                    notional.bounds();
                    proof {
                        let mn = max_notional.val();
                        if min.val() <= max.val() && representable_ends(mn, min, max) {
                            let lo = (min.val() * mn) / one_units();
                            let hi = (max.val() * mn) / one_units();
                            lemma_ends_bound(share.val(), mn, min.val(), max.val());
                            lemma_rounded_within(share.val() * mn, one_units(), notional, lo, hi);
                            assert(min.val() * mn <= notional.val() * one_units() <= max.val() * mn) by (nonlinear_arith)
                                requires
                                    lo <= notional.val() <= hi,
                                    lo * one_units() == min.val() * mn,
                                    hi * one_units() == max.val() * mn,
                                    one_units() > 0,
                            ;
                        }
                        if exact_quantity_of(max_notional.val(), price.val(), min, max, draw as nat) {
                            lemma_exact_notional(share.val(), max_notional.val(), notional.val(), min, max);
                        }
                        if share_bounds(min, max, price.val()) {
                            lemma_rounded_share(
                                notional.val(),
                                share.val() * max_notional.val(),
                                1000 * draw_bound(min, max),
                            );
                            lemma_quotient_fits(notional.val(), 1000 * draw_bound(min, max), price.val());
                        }
                    }
                    let q = decimal_div(notional, price);
                    proof {
                        let mn = max_notional.val();
                        if min.val() <= max.val() <= one_units() && (distance_kept(min, max) || representable(
                            max.val() - min.val(),
                        )) && q is Some {
                            let v = q->0;
                            let x = notional.val() * one_units();
                            lemma_worth_share_below(share.val(), mn, max.val(), notional);
                            assert(quotient_scaled(notional.val(), price.val()) == x);
                            let jr = choose|jr: nat|
                                rounded_on(quotient_scaled(notional.val(), price.val()), abs(price.val()), v.val(), jr);
                            assert forall|h: int|
                                representable(h) && mn * one_units() <= h * price.val() implies v.val() <= h by {
                                lemma_rounded_on_within(x, price.val(), v.val(), jr, h, h);
                            }
                        }
                        let mn = max_notional.val();
                        if min.val() <= max.val() && representable_ends(mn, min, max)
                            && q is Some {
                            let v = q->0;
                            assert(decimal_checked_div(notional@, price@) == Some(v@));
                            assert(quantity_of_notional(mn, price, min, max, v));
                        }
                        if exact_quantity_of(max_notional.val(), price.val(), min, max, draw as nat) {
                            let v = q->0;
                            assert(v.val() * price.val() == notional.val() * one_units());
                        }
                    }
                    q
                },
            }
        },
    }
}

/// A share of at most one of the positive worth `mn`, rounded, is at most that
/// worth (times one, at most the worth times one).
proof fn lemma_worth_share_below(share: int, mn: int, max: int, n: Dec)
    requires
        share <= max <= one_units(),
        mn > 0,
        representable(mn),
        rounded(share * mn, one_units(), n),
        in_range(n),
    ensures
        n.val() * one_units() <= mn * one_units(),
{
    assert(share * mn <= mn * one_units()) by (nonlinear_arith)
        requires
            share <= one_units(),
            mn > 0,
    ;
    lemma_rounded_within(share * mn, one_units(), n, mn, mn);
    assert(n.val() * one_units() <= mn * one_units()) by (nonlinear_arith)
        requires
            n.val() <= mn,
    ;
}

/// Where the share lies between `min` and `max` and its product with the
/// positive worth `mn` was exact, the notional's worth (times one) lies between
/// `min` and `max` times `mn`.
proof fn lemma_exact_notional(share: int, mn: int, n: int, min: Dec, max: Dec)
    requires
        min.val() <= share <= max.val(),
        mn > 0,
        n * one_units() == share * mn,
    ensures
        min.val() * mn <= n * one_units() <= max.val() * mn,
{
    assert(min.val() * mn <= share * mn <= max.val() * mn) by (nonlinear_arith)
        requires
            min.val() <= share <= max.val(),
            mn > 0,
    ;
}

proof fn lemma_quotient_fits(n: int, bound: int, p: int)
    requires
        abs(n) <= bound + half_units(),
        p > 0,
        (bound + half_units()) * one_units() <= limit_units() * p,
    ensures
        abs(n) * one_units() <= limit_units() * abs(p),
{
    let o = one_units();
    assert(abs(n) * o <= (bound + half_units()) * o) by (nonlinear_arith)
        requires
            abs(n) <= bound + half_units(),
            o > 0,
    ;
}

/// A random base quantity to buy at `price`: a share between `min` and `max` of
/// the quote balance capped at 1000, divided by the price; zero for a price or
/// a capped balance that is not positive.
pub fn random_base_quantity_to_buy(quote_balance: Dec, price: Dec, min: Dec, max: Dec) -> (r: Dec)
    requires
        share_bounds(min, max, price.val()),
    ensures
        exists|draw: nat|
            draw <= 1000000 && quantity_to_buy_spec(quote_balance@, price@, min@, max@, draw)
                == Some(r@) && (exact_buy(quote_balance, price, min, max, draw) ==> within_worth(
                capped_units(quote_balance),
                price.val(),
                min,
                max,
                r,
            )),
        price.val() <= 0 ==> r@ == zero_view(),
        units_of(min_view(quote_balance@, notional_cap())) <= 0 ==> r@ == zero_view(),
        price.val() > 0 && capped_units(quote_balance) > 0 && min.val() <= max.val()
            && representable_ends(capped_units(quote_balance), min, max) ==> quantity_of_notional(
            capped_units(quote_balance),
            price,
            min,
            max,
            r,
        ),
{
    let draw = sample_inclusive(0, FRACTION_STEPS);
    match base_quantity_to_buy(quote_balance, price, min, max, draw) {
        Some(r) => r,
        None => {
            proof {
                assert(false);
            }
            Dec::zero()
        },
    }
}

/// The base balance's worth at `price` can be written as a decimal.
pub open spec fn exact_worth(base_balance: Dec, price: Dec) -> bool {
    &&& (base_balance.val() * price.val()) % one_units() == 0
    &&& representable((base_balance.val() * price.val()) / one_units())
}

/// The base balance's worth at `price`, as rust_decimal computes it, does not
/// round up.
pub open spec fn worth_kept(base_balance: Dec, price: Dec) -> bool {
    match decimal_checked_mul(base_balance@, price@) {
        Some(w) => units_of(w) * one_units() <= base_balance.val() * price.val(),
        None => false,
    }
}

/// The base balance's worth at `price` can be computed without overflow.
pub open spec fn sell_bounds(base_balance: Dec, price: Dec, min: Dec, max: Dec) -> bool {
    &&& share_bounds(min, max, price.val())
    &&& price.val() > 0 ==> abs(base_balance.val() * price.val()) <= limit_units() * one_units()
}

/// The base quantity to sell at `price` for a given draw: zero for a price that
/// is not positive, or when the balance's worth capped at 1000 is not positive;
/// else a share of that capped worth divided by the price; `None` where a step
/// overflows.
pub fn base_quantity_to_sell(base_balance: Dec, price: Dec, min: Dec, max: Dec, draw: usize) -> (r:
    Option<Dec>)
    requires
        draw <= FRACTION_STEPS,
    ensures
        opt_view(r) == quantity_to_sell_spec(base_balance@, price@, min@, max@, draw as nat),
        sell_bounds(base_balance, price, min, max) ==> r is Some,
        price.val() <= 0 ==> (r matches Some(v) && v@ == zero_view()),
        base_balance.val() <= 0 && abs(base_balance.val() * price.val()) <= limit_units()
            * one_units() ==> (r matches Some(v) && v@ == zero_view()),
        exact_sell(base_balance, price, min, max, draw as nat) ==> (r matches Some(v) && within_worth(
            capped_worth_units(base_balance, price),
            price.val(),
            min,
            max,
            v,
        )),
        exact_sell(base_balance, price, min, max, draw as nat) && max.val() <= one_units() ==> (
        r matches Some(v) && v.val() <= base_balance.val()),
        price.val() > 0 && sell_worth(base_balance, price) > 0
            && min.val() <= max.val() && representable_ends(sell_worth(base_balance, price), min, max)
            ==> (r matches Some(v) ==> quantity_of_notional(
            sell_worth(base_balance, price),
            price,
            min,
            max,
            v,
        )),
        price.val() > 0 && base_balance.val() >= 0 && min.val() <= max.val() <= one_units()
            && (distance_kept(min, max) || representable(max.val() - min.val())) && (worth_kept(
            base_balance,
            price,
        ) || exact_worth(base_balance, price)) ==> (r matches Some(v) ==> v.val()
            <= base_balance.val()),
        base_balance.val() <= 0 ==> (r matches Some(v) ==> v@ == zero_view()),
{
    if price.is_le(&Dec::zero()) {
        return Some(Dec::zero());
    }
    match decimal_mul(base_balance, price) {
        None => None,
        Some(base_notional) => {
            base_notional.bounds();
            proof {
                let b = base_balance.val();
                let q = price.val();
                if (b * q) % one_units() == 0 && representable((b * q) / one_units()) {
                    assert(base_notional.val() == (b * q) / one_units()) by (nonlinear_arith)
                        requires
                            base_notional.val() * one_units() == b * q,
                            one_units() > 0,
                    ;
                }
                if b <= 0 {
                    assert(b * q <= 0) by (nonlinear_arith)
                        requires
                            b <= 0,
                            q > 0,
                    ;
                    lemma_representable_zero();
                    lemma_rounded_within(b * q, one_units(), base_notional, 0, 0);
                }
            }
            let cap = notional_cap_dec();
            let max_notional = base_notional.min(cap);
            proof {
                lemma_capped(max_notional, base_notional, cap);
            }
            if max_notional.is_le(&Dec::zero()) {
                return Some(Dec::zero());
            }
            let r = sized_quantity(max_notional, price, min, max, draw);
            base_balance.bounds();
            proof {
                if price.val() > 0 && base_balance.val() >= 0 && min.val() <= max.val() <= one_units()
                    && (distance_kept(min, max) || representable(max.val() - min.val())) && (worth_kept(
                    base_balance,
                    price,
                ) || exact_worth(base_balance, price)) && r is Some {
                    assert(max_notional.val() <= base_notional.val());
                    assert(base_notional.val() * one_units() <= base_balance.val() * price.val());
                    assert(max_notional.val() * one_units() <= base_balance.val() * price.val()) by (nonlinear_arith)
                        requires
                            max_notional.val() <= base_notional.val(),
                            base_notional.val() * one_units() <= base_balance.val() * price.val(),
                    ;
                }
                if exact_sell(base_balance, price, min, max, draw as nat) && max.val()
                    <= one_units() {
                    lemma_sell_within_balance(
                        base_balance.val(),
                        price.val(),
                        base_notional.val(),
                        max_notional.val(),
                        max.val(),
                        r->0.val(),
                    );
                }
            }
            r
        },
    }
}

/// A quantity whose worth at the price is at most `max` (at most one) times a
/// worth capped below the balance's worth is at most the balance.
proof fn lemma_sell_within_balance(b: int, p: int, bn: int, mn: int, mx: int, v: int)
    requires
        p > 0,
        bn * one_units() == b * p,
        0 < mn <= bn,
        mx <= one_units(),
        v * p <= mx * mn,
    ensures
        v <= b,
{
    let o = one_units();
    assert(mx * mn <= o * mn) by (nonlinear_arith)
        requires
            mx <= o,
            mn > 0,
    ;
    assert(o * mn <= o * bn) by (nonlinear_arith)
        requires
            mn <= bn,
            o > 0,
    ;
    assert(v * p <= b * p);
    assert(v <= b) by (nonlinear_arith)
        requires
            v * p <= b * p,
            p > 0,
    ;
}

/// A random base quantity to sell at `price`: a share between `min` and `max`
/// of the balance's worth capped at 1000, divided by the price; zero for a
/// price that is not positive or a capped worth that is not positive.
pub fn random_base_quantity_to_sell(base_balance: Dec, price: Dec, min: Dec, max: Dec) -> (r: Dec)
    requires
        sell_bounds(base_balance, price, min, max),
    ensures
        exists|draw: nat|
            draw <= 1000000 && quantity_to_sell_spec(base_balance@, price@, min@, max@, draw)
                == Some(r@) && (exact_sell(base_balance, price, min, max, draw) ==> within_worth(
                capped_worth_units(base_balance, price),
                price.val(),
                min,
                max,
                r,
            )) && (exact_sell(base_balance, price, min, max, draw) && max.val() <= one_units()
                ==> r.val() <= base_balance.val()),
        price.val() <= 0 ==> r@ == zero_view(),
        base_balance.val() <= 0 ==> r@ == zero_view(),
        price.val() > 0 && base_balance.val() >= 0 && min.val() <= max.val() <= one_units()
            && distance_kept(min, max) && worth_kept(base_balance, price) ==> r.val()
            <= base_balance.val(),
        price.val() > 0 && sell_worth(base_balance, price) > 0 && min.val() <= max.val()
            && representable_ends(sell_worth(base_balance, price), min, max) ==> quantity_of_notional(
            sell_worth(base_balance, price),
            price,
            min,
            max,
            r,
        ),
{
    let draw = sample_inclusive(0, FRACTION_STEPS);
    match base_quantity_to_sell(base_balance, price, min, max, draw) {
        Some(r) => r,
        None => {
            proof {
                assert(false);
            }
            Dec::zero()
        },
    }
}

} // verus!
