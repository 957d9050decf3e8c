use excentra_pulse::bot::Bias;
use excentra_pulse::bot::machine::{ask_price, bid_price, drift, fallback_price};
use excentra_pulse::constants::{default_spread, stale_threshold, DEFAULT_ORDER_CAP, TICKER_STATE_CYCLE};
use excentra_pulse::decimal::{parse_decimal, Dec};

fn d(num: i64, scale: u32) -> Dec {
    Dec::new(num, scale)
}

#[test]
fn decimals_compare_by_value() {
    assert_eq!(d(5, 1), d(50, 2));
    assert!(d(1, 1) < d(2, 1));
    assert!(d(-1, 0) < d(0, 0));
    assert_eq!(d(7, 1).min(d(3, 1)), d(3, 1));
    assert_eq!(d(-35, 1).abs(), d(35, 1));
}

#[test]
fn decimals_parse() {
    assert_eq!(parse_decimal("0.003"), Some(d(3, 3)));
    assert_eq!(parse_decimal("-12.50"), Some(d(-1250, 2)));
    assert_eq!(parse_decimal("abc"), None);
}

#[test]
fn quote_prices_straddle_the_mid() {
    let mid = d(75000, 0);
    assert_eq!(bid_price(mid, d(3, 3)), Some(d(74775, 0)));
    assert_eq!(ask_price(mid, d(3, 3)), Some(d(75225, 0)));
}

#[test]
fn drift_is_relative_distance() {
    assert_eq!(drift(d(75000, 0), d(74925, 0)), Some(d(1, 3)));
    assert_eq!(drift(d(100, 0), d(110, 0)), Some(d(1, 1)));
    assert_eq!(drift(d(0, 0), d(110, 0)), None);
}

#[test]
fn fallback_prices() {
    assert_eq!(fallback_price("BTC"), Some(d(75000, 0)));
    assert_eq!(fallback_price("ETH"), Some(d(2500, 0)));
    assert_eq!(fallback_price("SOL"), Some(d(85, 0)));
    assert_eq!(fallback_price("DOGE"), None);
}

#[test]
fn defaults() {
    assert_eq!(default_spread(), d(3, 3));
    assert_eq!(stale_threshold(), d(5, 3));
    assert_eq!(DEFAULT_ORDER_CAP, 10);
    assert_eq!(TICKER_STATE_CYCLE, 15);
}

#[test]
fn bias_tables() {
    assert_eq!(Bias::to_bias(1), Some(Bias::Bearish));
    assert_eq!(Bias::to_bias(2), Some(Bias::Bullish));
    assert_eq!(Bias::to_bias(3), Some(Bias::Neutral));
    assert_eq!(Bias::to_bias(0), None);
    assert_eq!(Bias::Bullish.to_dec(), d(7, 1));
    assert_eq!(Bias::Bearish.to_dec(), d(3, 1));
    assert_eq!(Bias::Neutral.to_dec(), d(5, 1));
    assert_eq!(Bias::Bullish.buy_size(), (d(6, 1), d(10, 1)));
    assert_eq!(Bias::Bearish.sell_size(), (d(6, 1), d(10, 1)));
    assert_eq!(Bias::Neutral.buy_size(), (d(3, 1), d(6, 1)));
    assert_eq!(Bias::Bullish.to_string(), "Bullish");
    for _ in 0..50 {
        let b = Bias::random_bias();
        assert!(matches!(b, Bias::Bullish | Bias::Bearish | Bias::Neutral));
    }
}

#[test]
fn decimals_are_written_with_their_places() {
    assert_eq!(d(5, 3).to_string(), "0.005");
    assert_eq!(d(74850, 0).to_string(), "74850");
    assert_eq!(d(1230, 2).to_string(), "12.30");
    assert_eq!(d(-35, 1).to_string(), "-3.5");
}
