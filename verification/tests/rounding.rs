use excentra_pulse::bot::machine::{ask_price, bid_price};
use excentra_pulse::decimal::Dec;
use excentra_pulse::utils::maths::{
    decimal_between, quote_to_spend, random_base_quantity_to_sell, random_decimal,
};

fn d(num: i64, scale: u32) -> Dec {
    Dec::new(num, scale)
}

fn big(mantissa: i128, scale: u32) -> Dec {
    Dec::from_parts(mantissa, scale)
}

#[test]
fn rounded_quotes_stay_on_their_side_of_the_mid() {
    // The largest mantissa less four, at 28 places, with the smallest spread:
    // both products round.
    let mid = big(79228162514264337593543950331, 28);
    let spread = big(1, 28);
    let bid = bid_price(mid, spread).unwrap();
    assert!(bid <= mid);
    assert!(bid >= d(0, 0));
    if let Some(ask) = ask_price(mid, spread) {
        assert!(ask >= mid);
    }
    let mid = big(12345678901234567890123456789, 28);
    let spread = big(3333333333333333333333333333, 28);
    let bid = bid_price(mid, spread).unwrap();
    let ask = ask_price(mid, spread).unwrap();
    assert!(bid < mid && mid < ask);
}

#[test]
fn fraction_stays_between_ends_that_round() {
    let min = big(1234567890123456789012345678, 28);
    let max = big(9876543210987654321098765432, 28);
    let mut draw = 0;
    while draw <= 1_000_000 {
        let r = decimal_between(min, max, draw).unwrap();
        assert!(min <= r && r <= max);
        draw += 997;
    }
    for _ in 0..200 {
        let r = random_decimal(min, max);
        assert!(min <= r && r <= max);
    }
}

#[test]
fn fraction_can_pass_max_when_the_distance_rounds() {
    // max - min has 29 significant digits and rounds up at 27 places.
    let min = big(-50000000000000000000000000006, 28);
    let max = d(5, 0);
    let r = decimal_between(min, max, 1_000_000).unwrap();
    assert_eq!(r, big(50000000000000000000000000004, 28));
    assert!(r > max);
}

#[test]
fn quote_share_stays_between_its_ends() {
    // capped balance 999.9; min and max have 28 places.
    let balance = big(9999, 1);
    let min = big(1000000000000000000000000000, 28);
    let max = big(3000000000000000000000000000, 28);
    let mut draw = 0;
    while draw <= 1_000_000 {
        let r = quote_to_spend(balance, min, max, draw).unwrap();
        assert!(r >= big(9999, 2) && r <= big(29997, 2));
        draw += 4999;
    }
}

#[test]
fn random_sell_never_exceeds_the_balance() {
    for _ in 0..200 {
        let q = random_base_quantity_to_sell(d(3, 0), d(7, 0), d(1, 1), d(1, 0));
        assert!(q <= d(3, 0));
        assert!(q > d(0, 0));
    }
    for _ in 0..20 {
        let q = random_base_quantity_to_sell(d(-3, 0), d(7, 0), d(1, 1), d(1, 0));
        assert_eq!(q, d(0, 0));
    }
}

#[test]
fn rounded_worth_can_sell_past_a_tiny_balance() {
    // 3e-28 at 0.5 is worth 1.5e-28, which rounds (half to even) up to 2e-28;
    // selling all of that worth at 0.5 asks for 4e-28.
    let q = random_base_quantity_to_sell(big(3, 28), d(5, 1), d(1, 0), d(1, 0));
    assert_eq!(q, big(4, 28));
}

#[test]
fn quotes_are_strict_once_the_spread_is_worth_half_a_place() {
    let mid = big(79228162514264337593543950331, 28);
    let spread = big(1, 28);
    let bid = bid_price(mid, spread).unwrap();
    assert!(bid < mid);
    if let Some(ask) = ask_price(mid, spread) {
        assert!(ask > mid);
    }
}

#[test]
fn fraction_stays_between_ends_when_the_distance_rounds_down() {
    // max - min has 29 significant digits and rounds down at 27 places.
    let min = big(-50000000000000000000000000001, 28);
    let max = d(5, 0);
    let mut draw = 0;
    while draw <= 1_000_000 {
        let r = decimal_between(min, max, draw).unwrap();
        assert!(min <= r && r <= max);
        draw += 997;
    }
    let r = decimal_between(min, max, 1_000_000).unwrap();
    assert!(r <= max);
}
