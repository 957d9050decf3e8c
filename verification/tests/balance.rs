use excentra_pulse::decimal::Dec;
use excentra_pulse::utils::balance::{get_min_balance, max_deposit};

fn d(num: i64, scale: u32) -> Dec {
    Dec::new(num, scale)
}

// --- max_deposit ---

#[test]
fn test_max_deposit_usdt() {
    assert_eq!(max_deposit("USDT"), d(1000, 0));
}

#[test]
fn test_max_deposit_btc() {
    assert_eq!(max_deposit("BTC"), d(5, 2));
}

#[test]
fn test_max_deposit_eth() {
    assert_eq!(max_deposit("ETH"), d(5, 1));
}

#[test]
fn test_max_deposit_sol() {
    assert_eq!(max_deposit("SOL"), d(5, 0));
}

#[test]
fn test_max_deposit_unknown_returns_zero() {
    assert_eq!(max_deposit("DOGE"), d(0, 0));
}

#[test]
fn test_max_deposit_empty_string_returns_zero() {
    assert_eq!(max_deposit(""), d(0, 0));
}

#[test]
fn test_max_deposit_case_sensitive() {
    // lowercase "usdt" is not a known asset
    assert_eq!(max_deposit("usdt"), d(0, 0));
    assert_eq!(max_deposit("btc"), d(0, 0));
}

// --- get_min_balance ---

#[test]
fn test_min_balance_usdt() {
    assert_eq!(get_min_balance("USDT"), d(100, 0));
}

#[test]
fn test_min_balance_btc() {
    assert_eq!(get_min_balance("BTC"), d(5, 3));
}

#[test]
fn test_min_balance_eth() {
    assert_eq!(get_min_balance("ETH"), d(5, 2));
}

#[test]
fn test_min_balance_sol() {
    assert_eq!(get_min_balance("SOL"), d(5, 1));
}

#[test]
fn test_min_balance_unknown_returns_zero() {
    assert_eq!(get_min_balance("XRP"), d(0, 0));
}

#[test]
fn test_min_balance_is_tenth_of_max_deposit() {
    // Invariant: min_balance == max_deposit / 10 for all known assets
    for asset in ["USDT", "BTC", "ETH", "SOL"] {
        let target = max_deposit(asset);
        let expected = rust_decimal::Decimal::from_i128_with_scale(target.mantissa(), target.scale())
            / rust_decimal::Decimal::from(10);
        let expected = Dec::from_parts(expected.mantissa(), expected.scale());
        assert_eq!(get_min_balance(asset), expected, "Failed invariant for asset: {asset}");
    }
}
