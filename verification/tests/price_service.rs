use excentra_pulse::decimal::Dec;
use excentra_pulse::price_service::PriceService;
use excentra_pulse::types::AssetResponse;

fn asset(symbol: &str, id: Option<&str>) -> AssetResponse {
    AssetResponse {
        symbol: symbol.to_string(),
        decimals: 8,
        is_active: true,
        coingecko_id: id.map(|s| s.to_string()),
    }
}

fn service() -> PriceService {
    PriceService::new(vec![
        asset("BTC", Some("bitcoin")),
        asset("ETH", Some("ethereum")),
        asset("USDT", Some("tether")),
        asset("XYZ", None),
    ])
}

#[test]
fn new_service_asks_about_assets_with_feed_ids_except_usdt() {
    let s = service();
    let mut ids = s.ids();
    ids.sort();
    assert_eq!(ids, vec!["bitcoin".to_string(), "ethereum".to_string()]);
    assert_eq!(s.get_price("BTC"), None);
}

#[test]
fn fetched_prices_are_read_back_by_symbol() {
    let mut s = service();
    s.apply_prices(vec![
        ("bitcoin".to_string(), Dec::new(75000, 0)),
        ("dogecoin".to_string(), Dec::new(1, 1)),
        ("ethereum".to_string(), Dec::new(25005, 1)),
    ]);
    assert_eq!(s.get_price("BTC"), Some(Dec::new(75000, 0)));
    assert_eq!(s.get_price("ETH"), Some(Dec::new(25005, 1)));
    assert_eq!(s.get_price("DOGE"), None);
    assert_eq!(s.get_price("USDT"), None);
    // a later price replaces an earlier one
    s.apply_prices(vec![("bitcoin".to_string(), Dec::new(76000, 0))]);
    assert_eq!(s.get_price("BTC"), Some(Dec::new(76000, 0)));
}

#[test]
fn later_asset_with_same_feed_id_wins() {
    let s = PriceService::new(vec![asset("WBTC", Some("bitcoin")), asset("BTC", Some("bitcoin"))]);
    let mut s = s;
    s.apply_prices(vec![("bitcoin".to_string(), Dec::new(5, 0))]);
    assert_eq!(s.get_price("BTC"), Some(Dec::new(5, 0)));
    assert_eq!(s.get_price("WBTC"), None);
}
