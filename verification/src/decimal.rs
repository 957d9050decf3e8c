//! Fixed-point decimal numbers: a signed 96-bit mantissa and a scale of at most
//! 28 decimal places. The arithmetic itself is rust_decimal's; this module holds
//! the value model the contracts speak in.
use rust_decimal::Decimal;
use std::str::FromStr;
use vstd::prelude::*;

verus! {

/// 10^n.
pub open spec fn pow10(n: nat) -> int
    decreases n,
{
    if n == 0 {
        1
    } else {
        10 * pow10((n - 1) as nat)
    }
}

/// The largest mantissa magnitude, 2^96 - 1.
pub open spec fn mantissa_max() -> int {
    79228162514264337593543950335
}

/// The number of units (10^-28) in one.
pub open spec fn one_units() -> int {
    10000000000000000000000000000
}

/// Half a unit of value, in units.
pub open spec fn half_units() -> int {
    5000000000000000000000000000
}

/// One less than the largest decimal value, in units: arithmetic whose exact
/// result stays within this bound cannot overflow.
pub open spec fn limit_units() -> int {
    (mantissa_max() - 1) * one_units()
}

pub open spec fn abs(x: int) -> int {
    if x < 0 {
        -x
    } else {
        x
    }
}

/// The value of a (mantissa, scale) pair, counted in units of 10^-28.
pub open spec fn units_of(v: (int, nat)) -> int {
    v.0 * pow10((28 - v.1) as nat)
}

/// `u` units can be written exactly as a decimal: with some scale of at most
/// 28 places (so `k = 28 - scale` trailing unit digits are zero) and a mantissa
/// that fits in 96 bits.
pub open spec fn representable(u: int) -> bool {
    exists|k: nat| #![trigger pow10(k)] k <= 28 && u % pow10(k) == 0 && abs(u / pow10(k)) <= mantissa_max()
}

/// A decimal number: `mantissa * 10^-scale`.
#[derive(Clone, Copy, Debug)]
pub struct Dec {
    mantissa: i128,
    scale: u32,
}

impl View for Dec {
    type V = (int, nat);

    closed spec fn view(&self) -> (int, nat) {
        (self.mantissa as int, self.scale as nat)
    }
}

impl Dec {
    /// The decimal with this (mantissa, scale).
    pub closed spec fn from_view(v: (int, nat)) -> Dec {
        Dec { mantissa: v.0 as i128, scale: v.1 as u32 }
    }

    /// A decimal is the one its view names.
    pub proof fn lemma_from_view(d: Dec)
        ensures
            Dec::from_view(d@) == d,
    {
    }

    #[verifier::type_invariant]
    closed spec fn wf(self) -> bool {
        &&& -mantissa_max() <= self.mantissa <= mantissa_max()
        &&& self.scale <= 28
    }

    /// The value in units of 10^-28.
    pub open spec fn val(self) -> int {
        units_of(self@)
    }

    /// What every decimal satisfies: a mantissa within 96 bits and a scale of
    /// at most 28, so that its value is representable.
    pub(crate) fn bounds(&self)
        ensures
            -mantissa_max() <= self@.0 <= mantissa_max(),
            self@.1 <= 28,
            representable(self.val()),
    {
        proof {
            use_type_invariant(self);
            let k = (28 - self.scale) as nat;
            let p = pow10(k);
            lemma_pow10_positive(k);
            assert((self.mantissa * p) % p == 0 && (self.mantissa * p) / p == self.mantissa) by {
                vstd::arithmetic::div_mod::lemma_mod_multiples_basic(self.mantissa as int, p);
                vstd::arithmetic::div_mod::lemma_div_multiples_vanish(self.mantissa as int, p);
                assert(self.mantissa * p == p * self.mantissa) by (nonlinear_arith);
            }
        }
    }

    /// `num * 10^-scale`.
    pub fn new(num: i64, scale: u32) -> (d: Dec)
        requires
            scale <= 28,
        ensures
            d@ == (num as int, scale as nat),
    {
        Dec { mantissa: num as i128, scale }
    }

    /// `mantissa * 10^-scale`.
    pub fn from_parts(mantissa: i128, scale: u32) -> (d: Dec)
        requires
            -mantissa_max() <= mantissa <= mantissa_max(),
            scale <= 28,
        ensures
            d@ == (mantissa as int, scale as nat),
    {
        Dec { mantissa, scale }
    }

    pub fn zero() -> (d: Dec)
        ensures
            d@ == (0int, 0nat),
            d.val() == 0,
    {
        Dec { mantissa: 0, scale: 0 }
    }

    /// The whole number `n`.
    pub fn from_usize(n: usize) -> (d: Dec)
        requires
            n <= mantissa_max(),
        ensures
            d@ == (n as int, 0nat),
            d.val() == n * one_units(),
    {
        let d = Dec { mantissa: n as i128, scale: 0 };
        proof {
            reveal_with_fuel(pow10, 29);
        }
        d
    }

    pub fn mantissa(&self) -> (m: i128)
        ensures
            m == self@.0,
    {
        self.mantissa
    }

    pub fn scale(&self) -> (s: u32)
        ensures
            s == self@.1,
    {
        self.scale
    }

    /// The absolute value; the scale is kept.
    pub fn abs(&self) -> (d: Dec)
        ensures
            d@ == (abs(self@.0), self@.1),
            d.val() == abs(self.val()),
    {
        proof {
            use_type_invariant(self);
        }
        let m = if self.mantissa < 0 {
            -self.mantissa
        } else {
            self.mantissa
        };
        let d = Dec { mantissa: m, scale: self.scale };
        proof {
            let p = pow10((28 - self.scale) as nat);
            assert(p > 0) by {
                lemma_pow10_positive((28 - self.scale) as nat);
            }
            if self.mantissa < 0 {
                assert(self.mantissa * p < 0) by (nonlinear_arith)
                    requires
                        self.mantissa < 0,
                        p > 0,
                ;
                assert((-self.mantissa) * p == -(self.mantissa * p)) by (nonlinear_arith);
            } else {
                assert(self.mantissa * p >= 0) by (nonlinear_arith)
                    requires
                        self.mantissa >= 0,
                        p > 0,
                ;
            }
        }
        d
    }

    /// `self < other`, comparing values.
    pub fn is_lt(&self, other: &Dec) -> (b: bool)
        ensures
            b == (self.val() < other.val()),
    {
        decimal_less_than(*self, *other)
    }

    /// `self <= other`, comparing values.
    pub fn is_le(&self, other: &Dec) -> (b: bool)
        ensures
            b == (self.val() <= other.val()),
    {
        !decimal_less_than(*other, *self)
    }

    /// `self > other`, comparing values.
    pub fn is_gt(&self, other: &Dec) -> (b: bool)
        ensures
            b == (self.val() > other.val()),
    {
        decimal_less_than(*other, *self)
    }

    /// The smaller of the two; `self` when the values are equal.
    pub fn min(self, other: Dec) -> (d: Dec)
        ensures
            d == (if self.val() > other.val() { other } else { self }),
    {
        if self.is_gt(&other) {
            other
        } else {
            self
        }
    }
}

pub proof fn lemma_pow10_positive(n: nat)
    ensures
        pow10(n) > 0,
    decreases n,
{
    if n > 0 {
        lemma_pow10_positive((n - 1) as nat);
    }
}

/// Zero's view is worth zero units.
pub proof fn lemma_units_zero()
    ensures
        units_of((0int, 0nat)) == 0,
{
    assert(0 * pow10(28) == 0);
}

/// The powers of ten of the last three places.
pub proof fn lemma_pow10_values()
    ensures
        pow10(25) == 10000000000000000000000000,
        pow10(26) == 100000000000000000000000000,
        pow10(27) == 1000000000000000000000000000,
        pow10(28) == 10000000000000000000000000000,
{
    reveal_with_fuel(pow10, 29);
}

pub proof fn lemma_pow10_28()
    ensures
        pow10(28) == one_units(),
{
    reveal_with_fuel(pow10, 29);
}

pub proof fn lemma_pow10_add(a: nat, b: nat)
    ensures
        pow10(a + b) == pow10(a) * pow10(b),
    decreases a,
{
    if a > 0 {
        lemma_pow10_add((a - 1) as nat, b);
        assert(pow10(a + b) == 10 * pow10((a - 1 + b) as nat));
        assert(10 * (pow10((a - 1) as nat) * pow10(b)) == (10 * pow10((a - 1) as nat)) * pow10(b))
            by (nonlinear_arith);
    }
}

/// A decimal between zero and one: one plus or minus it is a decimal too.
pub proof fn lemma_one_plus_minus_representable(m: int, s: nat)
    requires
        s <= 28,
        0 <= m <= pow10(s),
    ensures
        representable(one_units() - units_of((m, s))),
        representable(one_units() + units_of((m, s))),
{
    let k = (28 - s) as nat;
    let p = pow10(k);
    assert(one_units() == pow10(s) * p) by {
        lemma_pow10_add(s, k);
        lemma_pow10_28();
    }
    lemma_pow10_positive(k);
    lemma_pow10_le_28(s);
    assert(units_of((m, s)) == m * p);
    lemma_multiple_representable(pow10(s) - m, k);
    lemma_multiple_representable(pow10(s) + m, k);
    assert(one_units() - units_of((m, s)) == (pow10(s) - m) * p) by (nonlinear_arith)
        requires
            one_units() == pow10(s) * p,
            units_of((m, s)) == m * p,
    ;
    assert(one_units() + units_of((m, s)) == (pow10(s) + m) * p) by (nonlinear_arith)
        requires
            one_units() == pow10(s) * p,
            units_of((m, s)) == m * p,
    ;
}

/// `q * 10^k` is a decimal when `q` fits in 96 bits and `k <= 28`.
pub proof fn lemma_multiple_representable(q: int, k: nat)
    requires
        k <= 28,
        abs(q) <= mantissa_max(),
    ensures
        representable(q * pow10(k)),
{
    let p = pow10(k);
    lemma_pow10_positive(k);
    vstd::arithmetic::div_mod::lemma_mod_multiples_basic(q, p);
    vstd::arithmetic::div_mod::lemma_div_multiples_vanish(q, p);
    assert(q * p == p * q) by (nonlinear_arith);
    assert((q * p) % p == 0 && abs((q * p) / p) <= mantissa_max());
}

/// A decimal between zero and one has a mantissa between zero and 10^scale;
/// one plus or minus it is a decimal too.
pub proof fn lemma_unit_interval(v: (int, nat))
    requires
        v.1 <= 28,
        0 <= units_of(v) <= one_units(),
    ensures
        representable(one_units() - units_of(v)),
        representable(one_units() + units_of(v)),
{
    let k = (28 - v.1) as nat;
    lemma_pow10_add(v.1, k);
    lemma_pow10_positive(k);
    lemma_pow10_positive(v.1);
    lemma_pow10_28();
    let p = pow10(k);
    assert(0 <= v.0 <= pow10(v.1)) by (nonlinear_arith)
        requires
            0 <= v.0 * p <= pow10(v.1) * p,
            p > 0,
    ;
    lemma_one_plus_minus_representable(v.0, v.1);
}

/// 10^s is at most 10^28 for s up to 28.
pub proof fn lemma_pow10_le_28(s: nat)
    requires
        s <= 28,
    ensures
        0 < pow10(s) <= one_units(),
{
    let k = (28 - s) as nat;
    lemma_pow10_add(s, k);
    lemma_pow10_positive(s);
    lemma_pow10_positive(k);
    lemma_pow10_28();
    assert(pow10(s) <= pow10(s) * pow10(k)) by (nonlinear_arith)
        requires
            pow10(s) > 0,
            pow10(k) >= 1,
    ;
}

/// What rust_decimal's `Decimal::checked_add` returns.
pub uninterp spec fn decimal_checked_add(a: (int, nat), b: (int, nat)) -> Option<(int, nat)>;

/// What rust_decimal's `Decimal::checked_sub` returns.
pub uninterp spec fn decimal_checked_sub(a: (int, nat), b: (int, nat)) -> Option<(int, nat)>;

/// What rust_decimal's `Decimal::checked_mul` returns.
pub uninterp spec fn decimal_checked_mul(a: (int, nat), b: (int, nat)) -> Option<(int, nat)>;

/// What rust_decimal's `Decimal::checked_div` returns.
pub uninterp spec fn decimal_checked_div(a: (int, nat), b: (int, nat)) -> Option<(int, nat)>;

/// What rust_decimal's `Decimal::from_str` returns, `None` for an error.
pub uninterp spec fn decimal_parse(s: Seq<char>) -> Option<(int, nat)>;

/// The view of an optional decimal.
pub open spec fn opt_view(r: Option<Dec>) -> Option<(int, nat)> {
    match r {
        Some(d) => Some(d@),
        None => None,
    }
}

/// How rust_decimal rounds a result `r` whose exact value, times `sf`, is `x`
/// (in units; `sf` is one for a product, whose exact value is `x / 10^28`):
/// `r` is within half of its own last place of the exact value, and wherever
/// the exact value fits in 96 bits at scale `28 - k`, `r` is exact, or keeps
/// at least that scale, or is a zero within half a unit of the exact value.
pub open spec fn rounded(x: int, sf: int, r: Dec) -> bool {
    &&& 2 * abs(r.val() * sf - x) <= pow10((28 - r@.1) as nat) * sf
    &&& forall|k: nat|
        #![trigger pow10(k)]
        k <= 28 && abs(x) <= mantissa_max() * pow10(k) * sf ==> (r.val() * sf == x || r@.1 + k >= 28
            || (r.val() == 0 && 2 * abs(x) <= sf))
}

/// The exact value `x` (times `sf`) fits in 96 bits at scale `28 - k`.
pub open spec fn fits(x: int, sf: int, k: nat) -> bool {
    abs(x) <= mantissa_max() * pow10(k) * sf
}

/// A grid value within half a step `u` of `x` (times `sf`) is at least any
/// grid point `m` whose value (times `sf`) is at most `x`.
proof fn lemma_step_above(r: int, m: int, u: int, x: int, sf: int)
    requires
        u > 0,
        sf > 0,
        r % u == 0,
        m % u == 0,
        2 * abs(r * sf - x) <= u * sf,
        m * sf <= x,
    ensures
        m <= r,
{
    assert(2 * m * sf <= (2 * r + u) * sf) by (nonlinear_arith)
        requires
            2 * abs(r * sf - x) <= u * sf,
            m * sf <= x,
    ;
    assert(2 * m <= 2 * r + u) by (nonlinear_arith)
        requires
            2 * m * sf <= (2 * r + u) * sf,
            sf > 0,
    ;
    vstd::arithmetic::div_mod::lemma_fundamental_div_mod(r, u);
    vstd::arithmetic::div_mod::lemma_fundamental_div_mod(m, u);
    let a = r / u;
    let b = m / u;
    assert(b <= a) by (nonlinear_arith)
        requires
            r == u * a,
            m == u * b,
            2 * m <= 2 * r + u,
            u > 0,
    ;
    assert(u * b <= u * a) by (nonlinear_arith)
        requires
            b <= a,
            u > 0,
    ;
}

/// The first scale step from `k` on at which `x` fits, given that it fits at 0
/// places (step `pow10(28)`).
proof fn lemma_first_fit(x: int, sf: int, k: nat) -> (k0: nat)
    requires
        k <= 28,
        fits(x, sf, 28),
    ensures
        k <= k0 <= 28,
        fits(x, sf, k0),
        k0 == k || !fits(x, sf, (k0 - 1) as nat),
    decreases 28 - k,
{
    if fits(x, sf, k) {
        k
    } else {
        lemma_first_fit(x, sf, k + 1)
    }
}

/// `pow10(a)` divides `pow10(b)` for `a <= b`.
pub proof fn lemma_pow10_divides(a: nat, b: nat)
    requires
        a <= b,
    ensures
        pow10(b) % pow10(a) == 0,
        pow10(a) <= pow10(b),
{
    lemma_pow10_add(a, (b - a) as nat);
    lemma_pow10_positive(a);
    lemma_pow10_positive((b - a) as nat);
    assert(a + (b - a) as nat == b);
    vstd::arithmetic::div_mod::lemma_mod_multiples_basic(pow10((b - a) as nat), pow10(a));
    assert(pow10(a) * pow10((b - a) as nat) == pow10((b - a) as nat) * pow10(a)) by (nonlinear_arith);
    assert(pow10(a) <= pow10(a) * pow10((b - a) as nat)) by (nonlinear_arith)
        requires
            pow10(a) > 0,
            pow10((b - a) as nat) >= 1,
    ;
}

/// A multiple of `pow10(b)` is a multiple of `pow10(a)` for `a <= b`.
proof fn lemma_multiple_of_finer(v: int, a: nat, b: nat)
    requires
        a <= b,
        v % pow10(b) == 0,
    ensures
        v % pow10(a) == 0,
{
    lemma_pow10_divides(a, b);
    lemma_pow10_positive(a);
    lemma_pow10_positive(b);
    vstd::arithmetic::div_mod::lemma_fundamental_div_mod(v, pow10(b));
    vstd::arithmetic::div_mod::lemma_fundamental_div_mod(pow10(b), pow10(a));
    let q = v / pow10(b);
    let t = pow10(b) / pow10(a);
    assert(v == (q * t) * pow10(a)) by (nonlinear_arith)
        requires
            v == pow10(b) * q,
            pow10(b) == pow10(a) * t,
    ;
    vstd::arithmetic::div_mod::lemma_mod_multiples_basic(q * t, pow10(a));
}

/// Rounding as rust_decimal rounds never falls below a decimal that is at most
/// the exact value: `rv` (on the grid of step `pow10(jr)`, mantissa within 96
/// bits) rounds `x / sf`, and `mv` is a decimal's value (step `pow10(jm)`).
proof fn lemma_round_not_below(x: int, sf: int, rv: int, jr: nat, mv: int, jm: nat)
    requires
        sf > 0,
        jr <= 28,
        jm <= 28,
        rv % pow10(jr) == 0,
        abs(rv) <= mantissa_max() * pow10(jr),
        mv % pow10(jm) == 0,
        abs(mv) <= mantissa_max() * pow10(jm),
        2 * abs(rv * sf - x) <= pow10(jr) * sf,
        forall|k: nat|
            #![trigger pow10(k)]
            k <= 28 && fits(x, sf, k) ==> (rv * sf == x || jr <= k || (rv == 0 && 2 * abs(x) <= sf)),
        mv * sf <= x,
    ensures
        mv <= rv,
{
    let m = mantissa_max();
    let ur = pow10(jr);
    lemma_pow10_positive(jr);
    lemma_pow10_positive(jm);
    if rv * sf == x {
        assert(mv <= rv) by (nonlinear_arith)
            requires
                mv * sf <= rv * sf,
                sf > 0,
        ;
        return;
    }
    if fits(x, sf, jm) {
        assert(pow10(jm) == pow10(jm));
        if jr <= jm {
            lemma_multiple_of_finer(mv, jr, jm);
            lemma_step_above(rv, mv, ur, x, sf);
        } else {
            assert(rv == 0 && 2 * abs(x) <= sf);
            assert(mv <= 0) by (nonlinear_arith)
                requires
                    mv * sf <= x,
                    2 * abs(x) <= sf,
                    sf > 0,
            ;
        }
        return;
    }
    // The exact value lies beyond every multiple of `mv`'s last place that fits.
    assert(abs(mv) * sf <= m * pow10(jm) * sf) by (nonlinear_arith)
        requires
            abs(mv) <= m * pow10(jm),
            sf > 0,
    ;
    let am = abs(mv) * sf;
    assert(-am <= mv * sf <= am) by (nonlinear_arith)
        requires
            am == abs(mv) * sf,
            sf > 0,
    ;
    assert(x > abs(mv) * sf);
    if mv <= 0 {
        assert(0int % ur == 0);
        assert(0 * sf <= x);
        lemma_step_above(rv, 0, ur, x, sf);
        return;
    }
    assert(m * pow10(jm) * sf >= sf) by (nonlinear_arith)
        requires
            m >= 1,
            pow10(jm) >= 1,
            sf > 0,
    ;
    if jm < 28 && fits(x, sf, (jm + 1) as nat) {
        let j1 = (jm + 1) as nat;
        assert(pow10(j1) == pow10(j1));
        assert(jr <= j1);
        if jr <= jm {
            lemma_multiple_of_finer(mv, jr, jm);
            lemma_step_above(rv, mv, ur, x, sf);
            return;
        }
        assert(jr == j1);
        assert(pow10(j1) == 10 * pow10(jm));
        let c: int = 7922816251426433759354395033;
        assert(c * 10 == m - 5);
        let g = c * pow10(j1);
        assert(g == (m - 5) * pow10(jm)) by (nonlinear_arith)
            requires
                g == c * pow10(j1),
                pow10(j1) == 10 * pow10(jm),
                c * 10 == m - 5,
        ;
        vstd::arithmetic::div_mod::lemma_mod_multiples_basic(c, pow10(j1));
        assert(g * sf <= x) by (nonlinear_arith)
            requires
                g == (m - 5) * pow10(jm),
                x > m * pow10(jm) * sf,
                pow10(jm) > 0,
                sf > 0,
        ;
        lemma_step_above(rv, g, ur, x, sf);
        assert(rv != g) by {
            if rv == g {
                assert(2 * (x - g * sf) > ur * sf) by (nonlinear_arith)
                    requires
                        g == (m - 5) * pow10(jm),
                        x > m * pow10(jm) * sf,
                        ur == 10 * pow10(jm),
                        sf > 0,
                ;
            }
        }
        vstd::arithmetic::div_mod::lemma_fundamental_div_mod(rv, ur);
        vstd::arithmetic::div_mod::lemma_fundamental_div_mod(g, ur);
        assert(rv >= g + ur) by (nonlinear_arith)
            requires
                rv == ur * (rv / ur),
                g == ur * (g / ur),
                rv > g,
                ur > 0,
        ;
        assert(mv <= m * pow10(jm));
        assert(g + ur == (m + 5) * pow10(jm)) by (nonlinear_arith)
            requires
                g == (m - 5) * pow10(jm),
                ur == 10 * pow10(jm),
        ;
        assert(m * pow10(jm) <= (m + 5) * pow10(jm)) by (nonlinear_arith)
            requires
                pow10(jm) > 0,
        ;
        return;
    }
    // The exact value is at least ten times `mv`'s largest value at its scale.
    if jm < 28 {
        assert(pow10((jm + 1) as nat) == 10 * pow10(jm));
        assert(m * pow10((jm + 1) as nat) * sf == 10 * (m * pow10(jm) * sf)) by (nonlinear_arith)
            requires
                pow10((jm + 1) as nat) == 10 * pow10(jm),
        ;
        assert(x > 10 * (m * pow10(jm) * sf));
    }
    lemma_pow10_positive(28);
    lemma_pow10_divides(jr, 28);
    if fits(x, sf, 28) {
        let k0 = lemma_first_fit(x, sf, (jm + 1) as nat);
        assert(pow10(k0) == pow10(k0));
        assert(k0 > jm + 1 || !fits(x, sf, (jm + 1) as nat));
        assert(k0 >= jm + 2);
        assert(!fits(x, sf, (k0 - 1) as nat));
        let kp = (k0 - 1) as nat;
        assert(pow10(k0) == 10 * pow10(kp));
        lemma_pow10_positive(kp);
        assert(jr <= k0 || (rv == 0 && 2 * abs(x) <= sf));
        if rv == 0 && 2 * abs(x) <= sf {
            assert(false);
        }
        lemma_pow10_divides(jr, k0);
        lemma_pow10_divides(jm, kp);
        // 2 rv sf >= 2x - ur sf >= 2x - 10 pow10(kp) sf > 2x - 10x / m >= x.
        assert(m * pow10(kp) * sf < x);
        assert(10 * (pow10(kp) * sf) <= x) by (nonlinear_arith)
            requires
                m * pow10(kp) * sf < x,
                m >= 10,
                pow10(kp) > 0,
                sf > 0,
        ;
        assert(ur * sf <= 10 * (pow10(kp) * sf)) by (nonlinear_arith)
            requires
                ur <= pow10(k0),
                pow10(k0) == 10 * pow10(kp),
                sf > 0,
        ;
        assert(2 * rv * sf >= x) by (nonlinear_arith)
            requires
                2 * abs(rv * sf - x) <= ur * sf,
                ur * sf <= x,
        ;
        lemma_pow10_divides((jm + 1) as nat, kp);
        assert(pow10((jm + 1) as nat) == 10 * pow10(jm));
        assert(10 * mv * sf <= m * pow10(kp) * sf) by (nonlinear_arith)
            requires
                mv <= m * pow10(jm),
                10 * pow10(jm) <= pow10(kp),
                sf > 0,
                m > 0,
        ;
        assert(2 * mv * sf <= x) by (nonlinear_arith)
            requires
                10 * mv * sf <= m * pow10(kp) * sf,
                m * pow10(kp) * sf < x,
                mv > 0,
                sf > 0,
        ;
        assert(mv <= rv) by (nonlinear_arith)
            requires
                2 * mv * sf <= x,
                2 * rv * sf >= x,
                sf > 0,
        ;
    } else {
        // Beyond every scale: only the coarsest grid can hold the result.
        assert(x > m * pow10(28) * sf);
        if jr < 28 {
            lemma_pow10_divides(jr, 27);
            assert(pow10(28) == 10 * pow10(27));
            assert(false) by (nonlinear_arith)
                requires
                    abs(rv) <= m * ur,
                    ur <= pow10(27),
                    pow10(28) == 10 * pow10(27),
                    2 * abs(rv * sf - x) <= ur * sf,
                    x > m * pow10(28) * sf,
                    sf > 0,
                    ur > 0,
                    m >= 1,
            ;
        }
        assert(jr == 28);
        vstd::arithmetic::div_mod::lemma_fundamental_div_mod(rv, ur);
        let c = rv / ur;
        assert(c >= m) by (nonlinear_arith)
            requires
                rv == ur * c,
                2 * abs(rv * sf - x) <= ur * sf,
                x > m * ur * sf,
                ur > 0,
                sf > 0,
        ;
        lemma_pow10_divides(jm, 28);
        assert(mv <= m * pow10(28)) by (nonlinear_arith)
            requires
                mv <= m * pow10(jm),
                pow10(jm) <= pow10(28),
                m > 0,
        ;
        assert(m * ur <= c * ur) by (nonlinear_arith)
            requires
                c >= m,
                ur > 0,
        ;
        assert(ur == pow10(28));
        assert(rv == c * ur) by (nonlinear_arith)
            requires
                rv == ur * c,
        ;
    }
}

/// A decimal's mantissa fits in 96 bits and its scale is at most 28 (what
/// `bounds` gives of every decimal).
pub open spec fn in_range(d: Dec) -> bool {
    -mantissa_max() <= d@.0 <= mantissa_max() && d@.1 <= 28
}

proof fn lemma_grid_facts(d: Dec)
    requires
        in_range(d),
    ensures
        d.val() % pow10((28 - d@.1) as nat) == 0,
        abs(d.val()) <= mantissa_max() * pow10((28 - d@.1) as nat),
{
    let j = (28 - d@.1) as nat;
    lemma_on_grid(d, d@.1);
    lemma_pow10_positive(j);
    assert(abs(d.val()) <= mantissa_max() * pow10(j)) by (nonlinear_arith)
        requires
            d.val() == d@.0 * pow10(j),
            -mantissa_max() <= d@.0 <= mantissa_max(),
            pow10(j) > 0,
    ;
}

/// `rv` rounds the exact value `x / sf` as rust_decimal rounds, on the grid of
/// step `pow10(jr)`: it lies on that grid with a mantissa within 96 bits and
/// within half a step of the exact value, and wherever the exact value fits in
/// 96 bits at scale `28 - k`, `rv` is exact, or its grid is at least that fine,
/// or it is a zero within half a unit of the exact value.
pub open spec fn rounded_on(x: int, sf: int, rv: int, jr: nat) -> bool {
    &&& jr <= 28
    &&& rv % pow10(jr) == 0
    &&& abs(rv) <= mantissa_max() * pow10(jr)
    &&& 2 * abs(rv * sf - x) <= pow10(jr) * sf
    &&& forall|k: nat|
        #![trigger pow10(k)]
        k <= 28 && fits(x, sf, k) ==> (rv * sf == x || jr <= k || (rv == 0 && 2 * abs(x) <= sf))
}

/// A decimal rounded as `rounded` says is rounded on the grid of its own last
/// place.
pub proof fn lemma_rounded_on_own_grid(x: int, sf: int, r: Dec)
    requires
        rounded(x, sf, r),
        in_range(r),
    ensures
        rounded_on(x, sf, r.val(), (28 - r@.1) as nat),
{
    let jr = (28 - r@.1) as nat;
    lemma_grid_facts(r);
    assert forall|k: nat|
        #![trigger pow10(k)]
        k <= 28 && fits(x, sf, k) implies (r.val() * sf == x || jr <= k || (r.val() == 0 && 2 * abs(x)
            <= sf)) by {
        assert(pow10(k) == pow10(k));
    }
}

/// A result rounded as rust_decimal rounds stays within any two values that
/// bound the exact value and can be written as decimals: rounding never crosses
/// a decimal.
pub proof fn lemma_rounded_within(x: int, sf: int, r: Dec, lo: int, hi: int)
    requires
        sf > 0,
        rounded(x, sf, r),
        in_range(r),
        representable(lo),
        representable(hi),
    ensures
        lo * sf <= x ==> lo <= r.val(),
        x <= hi * sf ==> r.val() <= hi,
{
    lemma_rounded_on_own_grid(x, sf, r);
    lemma_rounded_on_within(x, sf, r.val(), (28 - r@.1) as nat, lo, hi);
}

/// As `lemma_rounded_within`, for a value rounded on a given grid.
pub proof fn lemma_rounded_on_within(x: int, sf: int, rv: int, jr: nat, lo: int, hi: int)
    requires
        sf > 0,
        rounded_on(x, sf, rv, jr),
        representable(lo),
        representable(hi),
    ensures
        lo * sf <= x ==> lo <= rv,
        x <= hi * sf ==> rv <= hi,
{
    if lo * sf <= x {
        let jl = choose|k: nat| #![trigger pow10(k)] k <= 28 && lo % pow10(k) == 0 && abs(lo / pow10(k)) <= mantissa_max();
        lemma_value_bound(lo, jl);
        lemma_round_not_below(x, sf, rv, jr, lo, jl);
    }
    if x <= hi * sf {
        let jh = choose|k: nat| #![trigger pow10(k)] k <= 28 && hi % pow10(k) == 0 && abs(hi / pow10(k)) <= mantissa_max();
        lemma_value_bound(hi, jh);
        lemma_pow10_positive(jr);
        lemma_pow10_positive(jh);
        lemma_negate_multiple(rv, pow10(jr));
        lemma_negate_multiple(hi, pow10(jh));
        assert(abs(-hi) <= mantissa_max() * pow10(jh));
        assert((-rv) * sf == -(rv * sf)) by (nonlinear_arith);
        assert((-hi) * sf == -(hi * sf)) by (nonlinear_arith);
        assert forall|k: nat|
            #![trigger pow10(k)]
            k <= 28 && fits(-x, sf, k) implies ((-rv) * sf == -x || jr <= k || (-rv == 0 && 2 * abs(-x)
                <= sf)) by {
            assert(pow10(k) == pow10(k));
            assert(fits(x, sf, k));
        }
        lemma_round_not_below(-x, sf, -rv, jr, -hi, jh);
    }
}

proof fn lemma_value_bound(v: int, k: nat)
    requires
        k <= 28,
        v % pow10(k) == 0,
        abs(v / pow10(k)) <= mantissa_max(),
    ensures
        abs(v) <= mantissa_max() * pow10(k),
{
    lemma_pow10_positive(k);
    vstd::arithmetic::div_mod::lemma_fundamental_div_mod(v, pow10(k));
    assert(abs(v) <= mantissa_max() * pow10(k)) by (nonlinear_arith)
        requires
            v == pow10(k) * (v / pow10(k)),
            abs(v / pow10(k)) <= mantissa_max(),
            pow10(k) > 0,
    ;
}

proof fn lemma_negate_multiple(v: int, u: int)
    requires
        u > 0,
        v % u == 0,
    ensures
        (-v) % u == 0,
{
    vstd::arithmetic::div_mod::lemma_fundamental_div_mod(v, u);
    vstd::arithmetic::div_mod::lemma_mod_multiples_basic(-(v / u), u);
    assert(-v == -(v / u) * u) by (nonlinear_arith)
        requires
            v == u * (v / u),
    ;
}

/// A decimal's value is a whole number of steps of its last place, and of the
/// last place of any finer scale.
pub proof fn lemma_on_grid(d: Dec, s: nat)
    requires
        d@.1 <= s <= 28,
    ensures
        d.val() % pow10((28 - s) as nat) == 0,
{
    let k = (28 - s) as nat;
    let j = (s - d@.1) as nat;
    lemma_pow10_add(k, j);
    lemma_pow10_positive(k);
    assert((28 - d@.1) as nat == k + j);
    assert(d.val() == (d@.0 * pow10(j)) * pow10(k)) by (nonlinear_arith)
        requires
            d.val() == d@.0 * pow10(k + j),
            pow10(k + j) == pow10(k) * pow10(j),
    ;
    vstd::arithmetic::div_mod::lemma_mod_multiples_basic(d@.0 * pow10(j), pow10(k));
}

/// rust_decimal's `Decimal::checked_add` (the `+` operator panics exactly where
/// it returns `None`). Claimed of it: the sum does not overflow while the exact
/// sum is below the largest decimal; it is exact whenever the exact sum can be
/// written as a decimal; otherwise it is rounded to at most half a unit. More
/// finely (see `rounded`): the sum is taken at the larger of the two scales and
/// rounded to nearest, once, at the first scale down from there at which it
/// fits in 96 bits; a zero operand gives the other one back.
#[verifier::external_body]
pub(crate) fn decimal_add(a: Dec, b: Dec) -> (r: Option<Dec>)
    ensures
        opt_view(r) == decimal_checked_add(a@, b@),
        abs(a.val() + b.val()) <= limit_units() ==> r is Some,
        representable(a.val() + b.val()) ==> r is Some && r->0.val() == a.val() + b.val(),
        r is Some ==> abs(r->0.val() - (a.val() + b.val())) <= half_units(),
        abs(a.val() + b.val()) <= mantissa_max() * one_units() ==> r is Some,
        r is Some ==> rounded(a.val() + b.val(), 1, r->0),
{
    let x = Decimal::from_i128_with_scale(a.mantissa, a.scale);
    let y = Decimal::from_i128_with_scale(b.mantissa, b.scale);
    x.checked_add(y).map(|v| Dec { mantissa: v.mantissa(), scale: v.scale() })
}

/// rust_decimal's `Decimal::checked_sub` (the `-` operator panics exactly where
/// it returns `None`). Claimed of it as of the sum, for the exact difference.
#[verifier::external_body]
pub(crate) fn decimal_sub(a: Dec, b: Dec) -> (r: Option<Dec>)
    ensures
        opt_view(r) == decimal_checked_sub(a@, b@),
        abs(a.val() - b.val()) <= limit_units() ==> r is Some,
        representable(a.val() - b.val()) ==> r is Some && r->0.val() == a.val() - b.val(),
        r is Some ==> abs(r->0.val() - (a.val() - b.val())) <= half_units(),
        abs(a.val() - b.val()) <= mantissa_max() * one_units() ==> r is Some,
        r is Some ==> rounded(a.val() - b.val(), 1, r->0),
{
    let x = Decimal::from_i128_with_scale(a.mantissa, a.scale);
    let y = Decimal::from_i128_with_scale(b.mantissa, b.scale);
    x.checked_sub(y).map(|v| Dec { mantissa: v.mantissa(), scale: v.scale() })
}

/// rust_decimal's `Decimal::checked_mul` (the `*` operator panics exactly where
/// it returns `None`). In units the exact product is `a * b / 10^28`. Claimed
/// of it: no overflow while the exact product is below the largest decimal; exact
/// whenever the exact product can be written as a decimal; otherwise rounded to
/// at most half a unit. More finely (see `rounded`): the product starts at the
/// scale `a.scale + b.scale` and is rounded to nearest, once, at the first
/// scale down from there, and from 28 at most, at which it fits in 96 bits (a
/// product of two small mantissas far below the last place of scale 28 comes
/// back as zero); it overflows only where it does not fit at scale 0.
#[verifier::external_body]
pub(crate) fn decimal_mul(a: Dec, b: Dec) -> (r: Option<Dec>)
    ensures
        opt_view(r) == decimal_checked_mul(a@, b@),
        abs(a.val() * b.val()) <= limit_units() * one_units() ==> r is Some,
        (a.val() * b.val()) % one_units() == 0 && representable((a.val() * b.val()) / one_units())
            ==> r is Some && r->0.val() * one_units() == a.val() * b.val(),
        r is Some ==> abs(r->0.val() * one_units() - a.val() * b.val()) <= half_units()
            * one_units(),
        abs(a.val() * b.val()) <= mantissa_max() * one_units() * one_units() ==> r is Some,
        r is Some ==> rounded(a.val() * b.val(), one_units(), r->0),
{
    let x = Decimal::from_i128_with_scale(a.mantissa, a.scale);
    let y = Decimal::from_i128_with_scale(b.mantissa, b.scale);
    x.checked_mul(y).map(|v| Dec { mantissa: v.mantissa(), scale: v.scale() })
}

/// The exact quotient `a / b`, scaled so that it compares with the result
/// times `|b|`: `a * 10^28` with the sign of `b` taken into it.
pub open spec fn quotient_scaled(a: int, b: int) -> int {
    if b > 0 {
        a * one_units()
    } else {
        -(a * one_units())
    }
}

/// rust_decimal's `Decimal::checked_div` (the `/` operator panics exactly where
/// it returns `None`). In units the exact quotient is `a * 10^28 / b`. Claimed
/// of it: `None` on a zero divisor; no overflow while the exact quotient is below
/// the largest decimal; exact whenever the exact quotient can be written as a
/// decimal; otherwise rounded to at most half a unit. More finely (see
/// `rounded_on`): the quotient is taken digit by digit down to the finest scale,
/// 28 at most, at which it fits in 96 bits, and rounded to nearest once there;
/// trailing zeros of a rounded quotient are then dropped, which changes its
/// scale but not its value, so the grid it was rounded on is some `jr`.
#[verifier::external_body]
pub(crate) fn decimal_div(a: Dec, b: Dec) -> (r: Option<Dec>)
    ensures
        opt_view(r) == decimal_checked_div(a@, b@),
        b.val() == 0 ==> r is None,
        b.val() != 0 && abs(a.val()) * one_units() <= limit_units() * abs(b.val()) ==> r is Some,
        b.val() != 0 && (a.val() * one_units()) % b.val() == 0 && representable(
            (a.val() * one_units()) / b.val(),
        ) ==> r is Some && r->0.val() * b.val() == a.val() * one_units(),
        r is Some ==> abs(r->0.val() * b.val() - a.val() * one_units()) <= half_units()
            * abs(b.val()),
        b.val() != 0 && abs(a.val()) * one_units() <= mantissa_max() * one_units() * abs(b.val())
            ==> r is Some,
        r is Some ==> exists|jr: nat|
            rounded_on(quotient_scaled(a.val(), b.val()), abs(b.val()), r->0.val(), jr),
{
    let x = Decimal::from_i128_with_scale(a.mantissa, a.scale);
    let y = Decimal::from_i128_with_scale(b.mantissa, b.scale);
    x.checked_div(y).map(|v| Dec { mantissa: v.mantissa(), scale: v.scale() })
}

/// rust_decimal's `<` on two decimals, which compares their values.
#[verifier::external_body]
fn decimal_less_than(a: Dec, b: Dec) -> (r: bool)
    ensures
        r == (a.val() < b.val()),
{
    Decimal::from_i128_with_scale(a.mantissa, a.scale) < Decimal::from_i128_with_scale(b.mantissa, b.scale)
}

/// rust_decimal's `Decimal::from_str`: the decimal a string spells, or `None`.
#[verifier::external_body]
fn decimal_from_str(s: &str) -> (r: Option<Dec>)
    ensures
        opt_view(r) == decimal_parse(s@),
{
    Decimal::from_str(s).ok().map(|v| Dec { mantissa: v.mantissa(), scale: v.scale() })
}

/// What rust_decimal's `Display` writes for the decimal with this (mantissa,
/// scale): a function of the two alone.
pub uninterp spec fn decimal_text(d: (int, nat)) -> Seq<char>;

/// rust_decimal's `to_string` (its `Display`) on a decimal. Claimed of it: the
/// text depends on the mantissa and scale alone; what the text is, is not
/// stated (it is the mantissa's digits with the decimal point `scale` places
/// from the right, a sign for a negative value, and `0` before a leading
/// point).
#[verifier::external_body]
fn decimal_display(d: Dec) -> (r: String)
    ensures
        r@ == decimal_text(d@),
{
    Decimal::from_i128_with_scale(d.mantissa, d.scale).to_string()
}

impl Dec {
    /// The decimal written out as rust_decimal writes it (`0.005`, `74850`),
    /// keeping the places of its scale.
    pub fn to_string(&self) -> (r: String)
        ensures
            r@ == decimal_text(self@),
    {
        decimal_display(*self)
    }
}

/// The decimal that `s` spells, as rust_decimal reads it; `None` where it does
/// not read one.
pub fn parse_decimal(s: &str) -> (r: Option<Dec>)
    ensures
        opt_view(r) == decimal_parse(s@),
{
    decimal_from_str(s)
}

} // verus!
