//! Deposit targets and minimum balances per asset.
use crate::decimal::{decimal_checked_div, decimal_div, one_units, pow10, units_of, Dec};
use crate::text::str_eq;
use vstd::prelude::*;

verus! {

/// The deposit target of an asset: the exchange's per-request deposit cap for
/// the assets it knows, zero for any other.
pub open spec fn max_deposit_spec(asset: Seq<char>) -> (int, nat) {
    if asset == "USDT"@ {
        (1000, 0)
    } else if asset == "BTC"@ {
        (5, 2)
    } else if asset == "ETH"@ {
        (5, 1)
    } else if asset == "SOL"@ {
        (5, 0)
    } else {
        (0, 0)
    }
}

/// The divisor from a deposit target to a minimum balance.
pub open spec fn ten() -> (int, nat) {
    (10, 0)
}

/// The minimum balance of an asset: a tenth of its deposit target.
pub open spec fn min_balance_spec(asset: Seq<char>) -> (int, nat) {
    decimal_checked_div(max_deposit_spec(asset), ten())->0
}

/// The deposit target of `asset`: 1000 USDT, 0.05 BTC, 0.5 ETH, 5 SOL, and
/// zero for an asset without one (names are case-sensitive).
pub fn max_deposit(asset: &str) -> (d: Dec)
    ensures
        d@ == max_deposit_spec(asset@),
{
    proof {
        reveal_strlit("USDT");
        reveal_strlit("BTC");
        reveal_strlit("ETH");
        reveal_strlit("SOL");
    }
    if str_eq(asset, "USDT") {
        Dec::new(1000, 0)
    } else if str_eq(asset, "BTC") {
        Dec::new(5, 2)
    } else if str_eq(asset, "ETH") {
        Dec::new(5, 1)
    } else if str_eq(asset, "SOL") {
        Dec::new(5, 0)
    } else {
        Dec::new(0, 0)
    }
}

/// The minimum balance a bot keeps of `asset`: its deposit target divided by
/// ten, which is exact.
pub fn get_min_balance(asset: &str) -> (d: Dec)
    ensures
        decimal_checked_div(max_deposit_spec(asset@), ten()) == Some(d@),
        d@ == min_balance_spec(asset@),
        d.val() * 10 == units_of(max_deposit_spec(asset@)),
{
    let target = max_deposit(asset);
    let ten = Dec::new(10, 0);
    proof {
        lemma_tenth_exact(target);
    }
    match decimal_div(target, ten) {
        Some(d) => {
            proof {
                assert(d.val() * ten.val() == target.val() * one_units());
                assert(ten.val() == 10 * one_units()) by {
                    reveal_with_fuel(pow10, 29);
                }
                assert(d.val() * 10 == target.val()) by (nonlinear_arith)
                    requires
                        d.val() * ten.val() == target.val() * one_units(),
                        ten.val() == 10 * one_units(),
                        one_units() > 0,
                ;
            }
            d
        },
        None => {
            proof {
                assert(false);
            }
            Dec::zero()
        },
    }
}

/// A deposit target divided by ten is a decimal, exactly.
proof fn lemma_tenth_exact(target: Dec)
    requires
        target@ == (1000int, 0nat) || target@ == (5int, 2nat) || target@ == (5int, 1nat)
            || target@ == (5int, 0nat) || target@ == (0int, 0nat),
    ensures
        ({
            let t = (10int, 0nat);
            let q = (target.val() * one_units()) / units_of(t);
            &&& (target.val() * one_units()) % units_of(t) == 0
            &&& crate::decimal::representable(q)
            &&& q * 10 == target.val()
        }),
        units_of((10int, 0nat)) == 100000000000000000000000000000,
{
    reveal_with_fuel(pow10, 29);
    let tv = target.val();
    // the target in units, and a tenth of it
    let q: int = tv / 10;
    let c: int = 1000000000000000000000000;
    let m: int;
    if target@ == (1000int, 0nat) {
        assert(tv == 10000000000000000000000000000000);
        m = 1000000;
    } else if target@ == (5int, 2nat) {
        assert(tv == 500000000000000000000000000);
        m = 50;
    } else if target@ == (5int, 1nat) {
        assert(tv == 5000000000000000000000000000);
        m = 500;
    } else if target@ == (5int, 0nat) {
        assert(tv == 50000000000000000000000000000);
        m = 5000;
    } else {
        assert(tv == 0);
        m = 0;
    }
    assert(q == m * c);
    assert(q * 10 == tv);
    lemma_exact_quotient(m, c);
    assert(m * c == c * m) by (nonlinear_arith);
    assert(q % c == 0);
    assert(q / c == m);
    assert(q / 1000000000000000000000000 <= 1000000);
    assert(q >= 0);
    assert(tv * 10000000000000000000000000000 == q * 100000000000000000000000000000)
        by (nonlinear_arith)
        requires
            q * 10 == tv,
    ;
    lemma_exact_quotient(q, 100000000000000000000000000000);
    crate::decimal::lemma_pow10_28();
    assert(units_of((10int, 0nat)) == 10 * pow10(28));
    assert(units_of((10int, 0nat)) == 100000000000000000000000000000);
    assert(pow10(24) == 1000000000000000000000000);
    assert(crate::decimal::abs(q / pow10(24)) <= crate::decimal::mantissa_max());
}

/// `(q * d) / d == q` and `(q * d) % d == 0` for a positive `d`.
proof fn lemma_exact_quotient(q: int, d: int)
    requires
        d > 0,
    ensures
        (q * d) / d == q,
        (q * d) % d == 0,
{
    vstd::arithmetic::div_mod::lemma_mod_multiples_basic(q, d);
    vstd::arithmetic::div_mod::lemma_div_multiples_vanish(q, d);
    assert(q * d == d * q) by (nonlinear_arith);
}

} // verus!
