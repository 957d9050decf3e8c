use excentra_pulse::decimal::Dec;
use excentra_pulse::utils::maths::{
    decimal_between, quote_to_spend, random_base_quantity_to_buy, random_base_quantity_to_sell,
    random_decimal, random_number, random_quote_to_spend,
};
use rust_decimal::Decimal;

const ITERATIONS: usize = 200;

fn d(num: i64, scale: u32) -> Dec {
    Dec::new(num, scale)
}

fn to_decimal(x: Dec) -> Decimal {
    Decimal::from_i128_with_scale(x.mantissa(), x.scale())
}

fn from_decimal(x: Decimal) -> Dec {
    Dec::from_parts(x.mantissa(), x.scale())
}

// --- random_number ---

#[test]
fn test_random_number_within_range() {
    for _ in 0..ITERATIONS {
        let result = random_number(5, 15);
        assert!(result >= 5 && result <= 15);
    }
}

#[test]
fn test_random_number_single_value_range() {
    for _ in 0..ITERATIONS {
        assert_eq!(random_number(42, 42), 42);
    }
}

#[test]
fn test_random_number_zero_range() {
    for _ in 0..ITERATIONS {
        assert_eq!(random_number(0, 0), 0);
    }
}

// --- random_decimal ---

#[test]
fn test_random_decimal_within_range() {
    let (min, max) = (d(1, 1), d(9, 1));
    for _ in 0..ITERATIONS {
        let result = random_decimal(min, max);
        assert!(result >= min && result <= max, "got {:?}", result);
    }
}

#[test]
fn test_random_decimal_single_value_range() {
    let value = d(5, 1);
    for _ in 0..ITERATIONS {
        let result = random_decimal(value, value);
        assert_eq!(result, value);
    }
}

#[test]
fn test_random_decimal_zero_to_one_range() {
    for _ in 0..ITERATIONS {
        let result = random_decimal(d(0, 0), d(1, 0));
        assert!(result >= d(0, 0) && result <= d(1, 0), "got {:?}", result);
    }
}

// --- random_base_quantity_to_buy ---

#[test]
fn test_buy_zero_price_returns_zero() {
    for _ in 0..ITERATIONS {
        let result = random_base_quantity_to_buy(d(500, 0), d(0, 0), d(1, 1), d(9, 1));
        assert_eq!(result, d(0, 0));
    }
}

#[test]
fn test_buy_negative_price_returns_zero() {
    for _ in 0..ITERATIONS {
        let result = random_base_quantity_to_buy(d(500, 0), d(-1, 0), d(1, 1), d(9, 1));
        assert_eq!(result, d(0, 0));
    }
}

#[test]
fn test_buy_zero_balance_returns_zero() {
    for _ in 0..ITERATIONS {
        let result = random_base_quantity_to_buy(d(0, 0), d(100, 0), d(1, 1), d(9, 1));
        assert_eq!(result, d(0, 0));
    }
}

#[test]
fn test_buy_negative_balance_returns_zero() {
    for _ in 0..ITERATIONS {
        let result = random_base_quantity_to_buy(d(-50, 0), d(100, 0), d(1, 1), d(9, 1));
        assert_eq!(result, d(0, 0));
    }
}

#[test]
fn test_buy_result_is_positive() {
    for _ in 0..ITERATIONS {
        let result = random_base_quantity_to_buy(d(500, 0), d(50000, 0), d(1, 1), d(9, 1));
        assert!(result > d(0, 0), "expected positive quantity, got {:?}", result);
    }
}

#[test]
fn test_buy_notional_cap_at_1000() {
    // quote_balance >> 1000, so max_notional is capped at 1000.
    // With min=1.0, max=1.0 the notional is exactly 1000, so quantity = 1000 / price.
    let price = d(50000, 0);
    let result = random_base_quantity_to_buy(d(999999, 0), price, d(1, 0), d(1, 0));
    let expected = from_decimal(Decimal::from(1000) / to_decimal(price));
    assert_eq!(result, expected);
}

#[test]
fn test_buy_respects_notional_bounds() {
    // quantity * price must be in [min * effective_notional, max * effective_notional]
    let (quote_balance, price) = (d(500, 0), d(100, 0));
    let (min, max) = (d(1, 1), d(9, 1));
    let effective_notional = to_decimal(quote_balance).min(Decimal::from(1000)); // 500

    for _ in 0..ITERATIONS {
        let qty = random_base_quantity_to_buy(quote_balance, price, min, max);
        let spent = to_decimal(qty) * to_decimal(price);
        assert!(spent >= to_decimal(min) * effective_notional, "spent {spent} below min");
        assert!(spent <= to_decimal(max) * effective_notional, "spent {spent} above max");
    }
}

// --- random_base_quantity_to_sell ---

#[test]
fn test_sell_zero_price_returns_zero() {
    for _ in 0..ITERATIONS {
        let result = random_base_quantity_to_sell(d(1, 0), d(0, 0), d(1, 1), d(9, 1));
        assert_eq!(result, d(0, 0));
    }
}

#[test]
fn test_sell_negative_price_returns_zero() {
    for _ in 0..ITERATIONS {
        let result = random_base_quantity_to_sell(d(1, 0), d(-100, 0), d(1, 1), d(9, 1));
        assert_eq!(result, d(0, 0));
    }
}

#[test]
fn test_sell_zero_balance_returns_zero() {
    for _ in 0..ITERATIONS {
        let result = random_base_quantity_to_sell(d(0, 0), d(100, 0), d(1, 1), d(9, 1));
        assert_eq!(result, d(0, 0));
    }
}

#[test]
fn test_sell_result_is_positive() {
    for _ in 0..ITERATIONS {
        let result = random_base_quantity_to_sell(d(1, 0), d(50000, 0), d(1, 1), d(9, 1));
        assert!(result > d(0, 0), "expected positive quantity, got {:?}", result);
    }
}

#[test]
fn test_sell_notional_cap_at_1000() {
    // base_notional = 1 BTC * 999_999 price >> 1000, so capped.
    // With min=max=1.0, notional = 1000 exactly, quantity = 1000 / price.
    let price = d(999999, 0);
    let result = random_base_quantity_to_sell(d(1, 0), price, d(1, 0), d(1, 0));
    let expected = from_decimal(Decimal::from(1000) / to_decimal(price));
    assert_eq!(result, expected);
}

#[test]
fn test_sell_respects_notional_bounds() {
    let (base_balance, price) = (d(1, 2), d(50000, 0));
    let (min, max) = (d(1, 1), d(9, 1));
    let base_notional = to_decimal(base_balance) * to_decimal(price); // 500
    let effective_notional = base_notional.min(Decimal::from(1000));

    for _ in 0..ITERATIONS {
        let qty = random_base_quantity_to_sell(base_balance, price, min, max);
        let value_sold = to_decimal(qty) * to_decimal(price);
        assert!(value_sold >= to_decimal(min) * effective_notional, "sold {value_sold} below min");
        assert!(value_sold <= to_decimal(max) * effective_notional, "sold {value_sold} above max");
    }
}

// --- random_quote_to_spend ---

#[test]
fn test_quote_zero_balance_returns_zero() {
    for _ in 0..ITERATIONS {
        let result = random_quote_to_spend(d(0, 0), d(1, 1), d(9, 1));
        assert_eq!(result, d(0, 0));
    }
}

#[test]
fn test_quote_negative_balance_returns_zero() {
    for _ in 0..ITERATIONS {
        let result = random_quote_to_spend(d(-100, 0), d(1, 1), d(9, 1));
        assert_eq!(result, d(0, 0));
    }
}

#[test]
fn test_quote_result_is_positive() {
    for _ in 0..ITERATIONS {
        let result = random_quote_to_spend(d(500, 0), d(1, 1), d(9, 1));
        assert!(result > d(0, 0), "expected positive quote, got {:?}", result);
    }
}

#[test]
fn test_quote_notional_cap_at_1000() {
    // With min=max=1.0, result must equal exactly 1000 regardless of balance.
    let result = random_quote_to_spend(d(999999, 0), d(1, 0), d(1, 0));
    assert_eq!(result, d(1000, 0));
}

#[test]
fn test_quote_respects_notional_bounds() {
    let quote_balance = d(800, 0);
    let (min, max) = (d(1, 1), d(9, 1));
    let effective_notional = to_decimal(quote_balance).min(Decimal::from(1000)); // 800

    for _ in 0..ITERATIONS {
        let result = to_decimal(random_quote_to_spend(quote_balance, min, max));
        assert!(result >= to_decimal(min) * effective_notional, "result {result} below min");
        assert!(result <= to_decimal(max) * effective_notional, "result {result} above max");
    }
}

#[test]
fn test_quote_balance_below_cap_uses_full_balance() {
    // balance (200) < 1000 cap, so effective_notional = 200.
    // With min=max=0.5, result = 0.5 * 200 = 100 exactly.
    let result = random_quote_to_spend(d(200, 0), d(5, 1), d(5, 1));
    assert_eq!(result, d(100, 0));
}

// --- the draw-taking forms ---

#[test]
fn between_takes_the_drawn_fraction() {
    // 0.1 + (0.9 - 0.1) * 500000 / 1000000 = 0.5
    let r = decimal_between(d(1, 1), d(9, 1), 500_000).unwrap();
    assert_eq!(r, d(5, 1));
    // the ends of the draw give the ends of the range
    assert_eq!(decimal_between(d(1, 1), d(9, 1), 0).unwrap(), d(1, 1));
    assert_eq!(decimal_between(d(1, 1), d(9, 1), 1_000_000).unwrap(), d(9, 1));
}

#[test]
fn between_overflows_to_none() {
    let huge = Dec::from_parts(79228162514264337593543950335, 0);
    let neg = Dec::from_parts(-79228162514264337593543950335, 0);
    assert!(decimal_between(neg, huge, 3).is_none());
}

#[test]
fn quote_to_spend_for_a_draw() {
    // 1000 capped balance, share 0.6 + (1.0 - 0.6) * 0.25 = 0.7, so 700
    let r = quote_to_spend(d(5000, 0), d(6, 1), d(10, 1), 250_000).unwrap();
    assert_eq!(r, d(700, 0));
}
