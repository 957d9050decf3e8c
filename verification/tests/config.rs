use excentra_pulse::config::{configs_from_vars, parse_role, BotRole, Config};
use excentra_pulse::decimal::Dec;

#[test]
fn roles_parse_from_their_names() {
    assert_eq!(parse_role("taker"), Ok(BotRole::Taker));
    assert_eq!(parse_role("maker"), Ok(BotRole::Maker));
    assert_eq!("maker".parse::<BotRole>(), Ok(BotRole::Maker));
}

#[test]
fn unknown_role_is_refused_with_its_name() {
    assert_eq!(parse_role("Maker"), Err("Invalid bot role `Maker`, expected: maker or taker".to_string()));
    assert_eq!(parse_role(""), Err("Invalid bot role ``, expected: maker or taker".to_string()));
}

#[test]
fn role_names_round_trip() {
    for role in [BotRole::Maker, BotRole::Taker] {
        assert_eq!(parse_role(&role.to_string()), Ok(role));
    }
    assert_eq!(BotRole::Maker.to_string(), "maker");
    assert_eq!(BotRole::Taker.to_string(), "taker");
}

#[test]
fn config_holds_its_settings() {
    let c = Config::new(
        "a@b.c".to_string(),
        "pw".to_string(),
        30,
        BotRole::Maker,
        Some(Dec::new(3, 3)),
        None,
        Some(5),
    );
    assert_eq!(c.email, "a@b.c");
    assert_eq!(c.interval_secs, 30);
    assert_eq!(c.role, BotRole::Maker);
    assert_eq!(c.spread, Some(Dec::new(3, 3)));
    assert_eq!(c.stale_threshold, None);
    assert_eq!(c.order_cap, Some(5));
}

fn vars(pairs: &[(&str, &str)]) -> Vec<(String, String)> {
    pairs.iter().map(|(k, v)| (k.to_string(), v.to_string())).collect()
}

fn example_vars() -> Vec<(String, String)> {
    vars(&[
        ("EXCHANGE_URL", "http://localhost:5098"),
        ("BOT_COUNT", "3"),
        ("BOT_1_EMAIL", "bot1@excentra.com"),
        ("BOT_1_PASSWORD", "your-password"),
        ("BOT_1_ROLE", "maker"),
        ("BOT_1_SPREAD", "0.002"),
        ("BOT_1_INTERVAL_SECS", "10"),
        ("BOT_1_STALE_THRESHOLD", "0.005"),
        ("BOT_1_ORDER_CAP", "3"),
        ("BOT_2_EMAIL", "bot2@excentra.com"),
        ("BOT_2_PASSWORD", "your-password"),
        ("BOT_2_ROLE", "taker"),
        ("BOT_2_INTERVAL_SECS", "15"),
        ("BOT_3_EMAIL", "bot3@excentra.com"),
        ("BOT_3_PASSWORD", "your-password"),
        ("BOT_3_ROLE", "maker"),
        ("BOT_3_SPREAD", "0.008"),
        ("BOT_3_INTERVAL_SECS", "20"),
        ("BOT_3_STALE_THRESHOLD", "0.015"),
        ("BOT_3_ORDER_CAP", "5"),
    ])
}

#[test]
fn configs_read_from_the_documented_keys() {
    let (url, configs) = configs_from_vars(&example_vars()).unwrap();
    assert_eq!(url, "http://localhost:5098");
    assert_eq!(configs.len(), 3);
    let m = &configs[0];
    assert_eq!(m.email, "bot1@excentra.com");
    assert_eq!(m.role, BotRole::Maker);
    assert_eq!(m.interval_secs, 10);
    assert_eq!(m.spread, Some(Dec::new(2, 3)));
    assert_eq!(m.stale_threshold, Some(Dec::new(5, 3)));
    assert_eq!(m.order_cap, Some(3));
    let t = &configs[1];
    assert_eq!(t.role, BotRole::Taker);
    assert_eq!(t.interval_secs, 15);
    assert_eq!(t.spread, None);
    assert_eq!(t.stale_threshold, None);
    assert_eq!(t.order_cap, None);
    assert_eq!(configs[2].order_cap, Some(5));
}

#[test]
fn missing_key_is_named() {
    let mut v = example_vars();
    v.retain(|(k, _)| k != "BOT_3_STALE_THRESHOLD");
    assert_eq!(configs_from_vars(&v).unwrap_err(), "BOT_3_STALE_THRESHOLD must be set");
    let v = vars(&[("BOT_COUNT", "1")]);
    assert_eq!(configs_from_vars(&v).unwrap_err(), "EXCHANGE_URL must be set");
}

#[test]
fn unreadable_values_are_refused() {
    let mut v = example_vars();
    v.retain(|(k, _)| k != "BOT_2_ROLE");
    v.push(("BOT_2_ROLE".to_string(), "Taker".to_string()));
    assert_eq!(configs_from_vars(&v).unwrap_err(), "BOT_2_ROLE must be a valid value");
    let mut v = example_vars();
    v.retain(|(k, _)| k != "BOT_COUNT");
    v.push(("BOT_COUNT".to_string(), "256".to_string()));
    assert_eq!(configs_from_vars(&v).unwrap_err(), "BOT_COUNT must be a valid value");
    let mut v = example_vars();
    v.retain(|(k, _)| k != "BOT_1_SPREAD");
    v.push(("BOT_1_SPREAD".to_string(), "wide".to_string()));
    assert_eq!(configs_from_vars(&v).unwrap_err(), "BOT_1_SPREAD must be a valid value");
}

#[test]
fn whole_numbers_read_as_std_reads_them() {
    let mut v = example_vars();
    v.retain(|(k, _)| k != "BOT_COUNT");
    v.push(("BOT_COUNT".to_string(), "+1".to_string()));
    assert_eq!(configs_from_vars(&v).unwrap().1.len(), 1);
    for bad in ["", "+", "-1", " 1", "1a"] {
        let mut v = example_vars();
        v.retain(|(k, _)| k != "BOT_COUNT");
        v.push(("BOT_COUNT".to_string(), bad.to_string()));
        assert_eq!(configs_from_vars(&v).unwrap_err(), "BOT_COUNT must be a valid value");
        assert_eq!(bad.parse::<u8>().is_err(), true);
    }
    assert_eq!("+1".parse::<u8>(), Ok(1));
}
