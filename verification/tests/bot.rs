use excentra_pulse::bot::{Action, Bias, Bot, Draws, Event, Phase, TryStage};
use excentra_pulse::client::ClientError;
use excentra_pulse::config::{BotRole, Config};
use excentra_pulse::decimal::Dec;
use excentra_pulse::types::{
    BalanceResponse, OrderBookResponse, OrderResponse, OrderSide, OrderStatus, OrderType,
    PlaceOrderResponse, PriceLevelResponse, TickerResponse, TradingPairsResponse,
};

fn d(num: i64, scale: u32) -> Dec {
    Dec::new(num, scale)
}

const NOW: u64 = 1_000_000_000;

// ─── A stand-in exchange ─────────────────────────────────────────────────────

struct MockClient {
    ticker: Option<Dec>,
    bids: Vec<PriceLevelResponse>,
    asks: Vec<PriceLevelResponse>,
    open_orders: Vec<(u128, OrderSide, Dec)>,
    balances: Vec<(String, Dec)>,
    placed: Vec<(OrderSide, OrderType, Option<Dec>, Dec)>,
    cancelled: Vec<u128>,
    deposited: Vec<String>,
}

impl MockClient {
    fn new() -> Self {
        MockClient {
            ticker: Some(d(75000, 0)),
            bids: vec![PriceLevelResponse { price: d(74900, 0), quantity: d(1, 1) }],
            asks: vec![PriceLevelResponse { price: d(75100, 0), quantity: d(1, 1) }],
            open_orders: vec![],
            balances: vec![("BTC".to_string(), d(1, 1)), ("USDT".to_string(), d(1000, 0))],
            placed: vec![],
            cancelled: vec![],
            deposited: vec![],
        }
    }

    fn pair() -> TradingPairsResponse {
        TradingPairsResponse {
            id: 1,
            base_asset: "BTC".to_string(),
            quote_asset: "USDT".to_string(),
            symbol: "BTC/USDT".to_string(),
            is_active: true,
            created_at: 0,
        }
    }

    fn order(id: u128, side: OrderSide, price: Dec) -> OrderResponse {
        OrderResponse {
            id,
            symbol: "BTC/USDT".to_string(),
            side,
            order_type: OrderType::Limit,
            price: Some(price),
            quantity: d(1, 2),
            remaining_quantity: d(1, 2),
            status: OrderStatus::Open,
            created_at: 0,
            updated_at: 0,
        }
    }

    /// The answer to a request; `None` for a sleep or an end.
    fn answer(&mut self, action: &Action) -> Option<Event> {
        match action {
            Action::Login { .. } => Some(Event::LoggedIn(Ok(()))),
            Action::Refresh => Some(Event::Refreshed(Ok(()))),
            Action::GetActivePairs => Some(Event::ActivePairs(Ok(vec![MockClient::pair()]))),
            Action::GetTicker { symbol } => Some(Event::Ticker(match self.ticker {
                Some(p) => Ok(TickerResponse {
                    symbol: symbol.clone(),
                    last_price: p,
                    high_24h: d(76000, 0),
                    low_24h: d(74000, 0),
                    volume_24h: d(100, 0),
                    price_change_pct: d(5, 1),
                }),
                None => Err(ClientError::Other("No ticker".to_string())),
            })),
            Action::GetCachedPrice { .. } => Some(Event::CachedPrice(None)),
            Action::GetBalances => Some(Event::Balances(Ok(self
                .balances
                .iter()
                .map(|(a, v)| BalanceResponse { asset: a.clone(), available: *v, held: d(0, 0) })
                .collect()))),
            Action::Deposit { asset, .. } => {
                self.deposited.push(asset.clone());
                Some(Event::Deposited(Ok(BalanceResponse {
                    asset: asset.clone(),
                    available: d(1000, 0),
                    held: d(0, 0),
                })))
            },
            Action::GetOpenOrders { .. } => Some(Event::OpenOrders(Ok(self
                .open_orders
                .iter()
                .map(|(id, side, price)| MockClient::order(*id, *side, *price))
                .collect()))),
            Action::CancelOrder { id } => {
                self.cancelled.push(*id);
                Some(Event::Cancelled(Ok(())))
            },
            Action::GetOrderbook { symbol } => Some(Event::Orderbook(Ok(OrderBookResponse {
                symbol: symbol.clone(),
                bids: self.bids.clone(),
                asks: self.asks.clone(),
            }))),
            Action::PlaceOrder { side, order_type, price, quantity, .. } => {
                self.placed.push((*side, *order_type, *price, *quantity));
                Some(Event::OrderPlaced(Ok(PlaceOrderResponse {
                    order_id: 7,
                    status: OrderStatus::Open,
                    filled_quantity: d(0, 0),
                    remaining_quantity: *quantity,
                    trades: vec![],
                })))
            },
            Action::Sleep { .. } | Action::Stop | Action::Halt => None,
        }
    }
}

/// Answers the bot's requests until it sleeps or ends; returns its last request.
fn drive(bot: &mut Bot, client: &mut MockClient, first: Event) -> Action {
    let mut action = bot.step(first, NOW);
    for _ in 0..100 {
        match client.answer(&action) {
            Some(event) => action = bot.step(event, NOW),
            None => return action,
        }
    }
    panic!("the bot did not settle");
}

fn maker_config() -> Config {
    Config::new(
        "bot@test.com".to_string(),
        "password".to_string(),
        10,
        BotRole::Maker,
        Some(d(2, 3)),
        Some(d(5, 3)),
        Some(3),
    )
}

fn taker_config() -> Config {
    Config::new("taker@test.com".to_string(), "password".to_string(), 10, BotRole::Taker, None, None, None)
}

/// A bot at work on BTC/USDT with the given balances, in the given phase.
fn bot_on_pair(config: Config, role: BotRole, phase: Phase, pending: Action, base: Dec, quote: Dec, mid: Dec) -> Bot {
    let mut bot = Bot::new_with_draw(config, role, 2);
    bot.work.pairs = vec![MockClient::pair()];
    bot.work.index = 0;
    bot.work.mid = mid;
    bot.work.base_balance = base;
    bot.work.quote_balance = quote;
    bot.phase = phase;
    bot.pending = pending;
    bot
}

/// Runs a maker cycle on BTC/USDT from the open-order check.
fn maker_cycle(client: &mut MockClient, mid: Dec) -> Bot {
    let mut bot = bot_on_pair(
        maker_config(),
        BotRole::Maker,
        Phase::OpenOrders(TryStage::First),
        Action::GetOpenOrders { symbol: "BTC/USDT".to_string() },
        d(1, 1),
        d(1000, 0),
        mid,
    );
    let first = client.answer(&Action::GetOpenOrders { symbol: "BTC/USDT".to_string() }).unwrap();
    let last = drive(&mut bot, client, first);
    assert!(matches!(last, Action::Sleep { .. }));
    bot
}

/// Runs a taker cycle on BTC/USDT from the order book.
fn taker_cycle(bot: &mut Bot, client: &mut MockClient) {
    bot.work.index = 0;
    bot.phase = Phase::Orderbook(TryStage::First);
    bot.pending = Action::GetOrderbook { symbol: "BTC/USDT".to_string() };
    let first = client.answer(&Action::GetOrderbook { symbol: "BTC/USDT".to_string() }).unwrap();
    let last = drive(bot, client, first);
    assert!(matches!(last, Action::Sleep { .. }));
}

fn taker_bot(bias: Bias) -> Bot {
    let mut bot = bot_on_pair(
        taker_config(),
        BotRole::Taker,
        Phase::Orderbook(TryStage::First),
        Action::GetOrderbook { symbol: "BTC/USDT".to_string() },
        d(1, 1),
        d(1000, 0),
        d(75000, 0),
    );
    if let Some(state) = bot.taker_state.as_mut() {
        state.bias = bias;
    }
    bot
}

// ─── Maker ───────────────────────────────────────────────────────────────────

#[test]
fn maker_places_bid_and_ask_when_book_empty() {
    let mut client = MockClient::new();
    maker_cycle(&mut client, d(75000, 0));
    let orders = &client.placed;
    assert_eq!(orders.len(), 2);
    // first order is a limit buy
    assert_eq!(orders[0].0, OrderSide::Buy);
    assert!(matches!(orders[0].1, OrderType::Limit));
    assert!(orders[0].2.is_some());
    // second order is a limit sell
    assert_eq!(orders[1].0, OrderSide::Sell);
    assert!(matches!(orders[1].1, OrderType::Limit));
    assert!(orders[1].2.is_some());
}

#[test]
fn maker_bid_price_is_below_mid() {
    let mut client = MockClient::new();
    let mid = d(75000, 0);
    maker_cycle(&mut client, mid);
    let bid_price = client.placed[0].2.unwrap();
    let ask_price = client.placed[1].2.unwrap();
    assert!(bid_price < mid, "bid should be below mid price");
    assert!(ask_price > mid, "ask should be above mid price");
    // mid * (1 - 0.002) and mid * (1 + 0.002)
    assert_eq!(bid_price, d(74850, 0));
    assert_eq!(ask_price, d(75150, 0));
}

#[test]
fn maker_skips_bid_when_cap_reached() {
    let mut client = MockClient::new();
    client.open_orders = vec![
        (1, OrderSide::Buy, d(74850, 0)),
        (2, OrderSide::Buy, d(74850, 0)),
        (3, OrderSide::Buy, d(74850, 0)),
    ];
    maker_cycle(&mut client, d(75000, 0));
    // only ask should be placed, bid is capped
    assert_eq!(client.placed.len(), 1);
    assert_eq!(client.placed[0].0, OrderSide::Sell);
}

#[test]
fn maker_skips_ask_when_cap_reached() {
    let mut client = MockClient::new();
    client.open_orders = vec![
        (1, OrderSide::Sell, d(75150, 0)),
        (2, OrderSide::Sell, d(75150, 0)),
        (3, OrderSide::Sell, d(75150, 0)),
    ];
    maker_cycle(&mut client, d(75000, 0));
    // only bid should be placed
    assert_eq!(client.placed.len(), 1);
    assert_eq!(client.placed[0].0, OrderSide::Buy);
}

#[test]
fn maker_cancels_stale_order_and_replaces() {
    let mut client = MockClient::new();
    // order placed at 70000, mid is now 75000 — drift = 6.7%, above threshold 0.5%
    client.open_orders = vec![(9, OrderSide::Buy, d(70000, 0))];
    maker_cycle(&mut client, d(75000, 0));
    // stale order was cancelled
    assert_eq!(client.cancelled, vec![9]);
    // new bid and ask placed
    assert_eq!(client.placed.len(), 2);
}

#[test]
fn maker_keeps_fresh_order_within_threshold() {
    let mut client = MockClient::new();
    // order at 74925 — drift from 75000 = 0.1%, below threshold 0.5%
    client.open_orders = vec![(4, OrderSide::Buy, d(74925, 0))];
    maker_cycle(&mut client, d(75000, 0));
    // order should NOT be cancelled
    assert_eq!(client.cancelled.len(), 0);
}

// ─── Taker ───────────────────────────────────────────────────────────────────

#[test]
fn taker_places_market_buy_when_bullish() {
    let mut client = MockClient::new();
    let mut bot = taker_bot(Bias::Bullish);
    let mut got_buy = false;
    for _ in 0..20 {
        client.placed.clear();
        taker_cycle(&mut bot, &mut client);
        if !client.placed.is_empty() && client.placed[0].0 == OrderSide::Buy {
            got_buy = true;
            assert!(matches!(client.placed[0].1, OrderType::Market));
            assert!(client.placed[0].2.is_none());
            break;
        }
    }
    assert!(got_buy, "expected at least one market buy with Bullish bias");
}

#[test]
fn taker_places_market_sell_when_bearish() {
    let mut client = MockClient::new();
    let mut bot = taker_bot(Bias::Bearish);
    let mut got_sell = false;
    for _ in 0..20 {
        client.placed.clear();
        taker_cycle(&mut bot, &mut client);
        if !client.placed.is_empty() && client.placed[0].0 == OrderSide::Sell {
            got_sell = true;
            assert!(matches!(client.placed[0].1, OrderType::Market));
            assert!(client.placed[0].2.is_none());
            break;
        }
    }
    assert!(got_sell, "expected at least one market sell with Bearish bias");
}

#[test]
fn taker_skips_buy_when_asks_empty() {
    let mut client = MockClient::new();
    client.asks = vec![];
    let mut bot = taker_bot(Bias::Bullish);
    let mut buy_path_skipped = false;
    for _ in 0..20 {
        client.placed.clear();
        taker_cycle(&mut bot, &mut client);
        if client.placed.is_empty() {
            buy_path_skipped = true;
            break;
        }
    }
    assert!(buy_path_skipped, "expected buy to be skipped when asks are empty");
}

#[test]
fn taker_skips_sell_when_bids_empty() {
    let mut client = MockClient::new();
    client.bids = vec![];
    let mut bot = taker_bot(Bias::Bearish);
    for _ in 0..20 {
        client.placed.clear();
        taker_cycle(&mut bot, &mut client);
        assert!(
            client.placed.is_empty() || client.placed[0].0 == OrderSide::Buy,
            "sell should be skipped with empty bids"
        );
    }
}

#[test]
fn taker_never_places_limit_orders() {
    let mut client = MockClient::new();
    let mut bot = taker_bot(Bias::Neutral);
    for _ in 0..1000 {
        taker_cycle(&mut bot, &mut client);
    }
    for order in client.placed.iter() {
        assert!(matches!(order.1, OrderType::Market), "taker placed a non-market order: {:?}", order.1);
    }
}

#[test]
fn taker_direction_follows_the_draw() {
    // a roll of 0.7 buys under a bullish bias (chance 0.7); 0.700001 sells
    let book = || OrderBookResponse {
        symbol: "BTC/USDT".to_string(),
        bids: vec![PriceLevelResponse { price: d(74900, 0), quantity: d(1, 1) }],
        asks: vec![PriceLevelResponse { price: d(75100, 0), quantity: d(1, 1) }],
    };
    let mut bot = taker_bot(Bias::Bullish);
    let a = bot.step_with(Event::Orderbook(Ok(book())), NOW, Draws { bias: 1, direction: 700_000, size: 0 });
    assert!(matches!(a, Action::PlaceOrder { side: OrderSide::Buy, order_type: OrderType::Market, price: None, .. }));
    let mut bot = taker_bot(Bias::Bullish);
    let a = bot.step_with(Event::Orderbook(Ok(book())), NOW, Draws { bias: 1, direction: 700_001, size: 0 });
    assert!(matches!(a, Action::PlaceOrder { side: OrderSide::Sell, order_type: OrderType::Market, price: None, .. }));
}

// ─── Balances and deposits ───────────────────────────────────────────────────

fn ensure_balance(client: &mut MockClient) {
    let mut bot = bot_on_pair(
        maker_config(),
        BotRole::Maker,
        Phase::Balances(TryStage::First),
        Action::GetBalances,
        d(0, 0),
        d(0, 0),
        d(75000, 0),
    );
    let first = client.answer(&Action::GetBalances).unwrap();
    drive(&mut bot, client, first);
}

#[test]
fn deposit_triggered_when_balance_below_minimum() {
    let mut client = MockClient::new();
    // BTC balance below minimum (min = 0.05 / 10 = 0.005)
    client.balances = vec![("BTC".to_string(), d(1, 3)), ("USDT".to_string(), d(1000, 0))];
    ensure_balance(&mut client);
    assert!(client.deposited.contains(&"BTC".to_string()));
}

#[test]
fn no_deposit_when_balance_above_minimum() {
    let mut client = MockClient::new(); // default balances are above minimum
    ensure_balance(&mut client);
    assert!(client.deposited.is_empty());
}

#[test]
fn deposited_balance_is_target_plus_available() {
    let mut bot = bot_on_pair(
        maker_config(),
        BotRole::Maker,
        Phase::Balances(TryStage::First),
        Action::GetBalances,
        d(0, 0),
        d(0, 0),
        d(75000, 0),
    );
    let balances = vec![
        BalanceResponse { asset: "BTC".to_string(), available: d(1, 3), held: d(0, 0) },
        BalanceResponse { asset: "USDT".to_string(), available: d(1000, 0), held: d(0, 0) },
    ];
    let a = bot.step(Event::Balances(Ok(balances)), NOW);
    assert!(matches!(a, Action::Deposit { ref asset, amount } if asset == "BTC" && amount == d(5, 2)));
    let a = bot.step(
        Event::Deposited(Ok(BalanceResponse { asset: "BTC".to_string(), available: d(51, 3), held: d(0, 0) })),
        NOW,
    );
    // the quote balance is above its minimum: on to the open orders
    assert!(matches!(a, Action::GetOpenOrders { .. }));
    assert_eq!(bot.work.base_balance, d(51, 3));
    assert_eq!(bot.work.quote_balance, d(1000, 0));
}

// ─── Back-off ────────────────────────────────────────────────────────────────

fn sleeping_maker() -> Bot {
    let mut bot = Bot::new_with_draw(maker_config(), BotRole::Maker, 2);
    bot.phase = Phase::Sleeping;
    bot.pending = Action::Sleep { secs: 10 };
    bot
}

#[test]
fn cycle_skips_when_in_backoff() {
    let mut client = MockClient::new();
    let mut bot = sleeping_maker();
    // a back-off of 60 seconds from now
    bot.backoff_until = Some(NOW + 60_000);
    let last = drive(&mut bot, &mut client, Event::Slept);
    // no orders should have been placed
    assert!(matches!(last, Action::Sleep { .. }));
    assert!(client.placed.is_empty());
}

#[test]
fn cycle_resumes_after_backoff_expires() {
    let mut client = MockClient::new();
    let mut bot = sleeping_maker();
    // a back-off that ran out a millisecond ago
    bot.backoff_until = Some(NOW - 1);
    drive(&mut bot, &mut client, Event::Slept);
    // back-off cleared and orders placed
    assert!(bot.backoff_until.is_none());
    assert!(!client.placed.is_empty());
}

#[test]
fn rate_limited_order_starts_a_backoff() {
    let mut client = MockClient::new();
    let mut bot = maker_cycle(&mut client, d(75000, 0));
    bot.phase = Phase::MakerBid;
    bot.work.index = 0;
    let a = bot.step(Event::OrderPlaced(Err(ClientError::RateLimited(30))), NOW);
    // the ask is not placed; the cycle ends with a back-off of 30 seconds
    assert!(matches!(a, Action::Sleep { .. }));
    assert_eq!(bot.backoff_until, Some(NOW + 30_000));
}

// ─── Price resolution ────────────────────────────────────────────────────────

#[test]
fn get_mid_price_uses_ticker_when_available() {
    let mut client = MockClient::new();
    let mut bot = bot_on_pair(
        maker_config(),
        BotRole::Maker,
        Phase::Ticker,
        Action::GetTicker { symbol: "BTC/USDT".to_string() },
        d(0, 0),
        d(0, 0),
        d(0, 0),
    );
    let event = client.answer(&Action::GetTicker { symbol: "BTC/USDT".to_string() }).unwrap();
    let a = bot.step(event, NOW);
    assert!(matches!(a, Action::GetBalances));
    assert_eq!(bot.work.mid, d(75000, 0));
}

#[test]
fn get_mid_price_falls_back_to_hardcoded_when_no_ticker() {
    let mut client = MockClient::new();
    client.ticker = None;
    let mut bot = bot_on_pair(
        maker_config(),
        BotRole::Maker,
        Phase::Ticker,
        Action::GetTicker { symbol: "BTC/USDT".to_string() },
        d(0, 0),
        d(0, 0),
        d(0, 0),
    );
    let event = client.answer(&Action::GetTicker { symbol: "BTC/USDT".to_string() }).unwrap();
    let a = bot.step(event, NOW);
    assert!(matches!(a, Action::GetCachedPrice { ref asset } if asset == "BTC"));
    let a = bot.step(Event::CachedPrice(None), NOW);
    assert!(matches!(a, Action::GetBalances));
    // hardcoded fallback for BTC
    assert_eq!(bot.work.mid, d(75000, 0));
}

// ─── Start-up and re-authentication ──────────────────────────────────────────

#[test]
fn taker_cancels_resting_orders_on_startup() {
    let mut client = MockClient::new();
    client.open_orders = vec![(11, OrderSide::Buy, d(70000, 0)), (12, OrderSide::Sell, d(80000, 0))];
    let mut bot = Bot::new_with_draw(taker_config(), BotRole::Taker, 3);
    let a = bot.step(Event::Begin, NOW);
    assert!(matches!(a, Action::Login { .. }));
    let a = bot.step(Event::LoggedIn(Ok(())), NOW);
    assert!(matches!(a, Action::GetActivePairs));
    drive(&mut bot, &mut client, Event::ActivePairs(Ok(vec![MockClient::pair()])));
    assert_eq!(client.cancelled, vec![11, 12]);
}

#[test]
fn failed_login_stops_the_bot() {
    let mut bot = Bot::new_with_draw(maker_config(), BotRole::Maker, 1);
    bot.step(Event::Begin, NOW);
    let a = bot.step(Event::LoggedIn(Err(ClientError::Unauthorized)), NOW);
    assert!(matches!(a, Action::Stop));
}

#[test]
fn unauthorized_call_is_retried_after_refresh() {
    let mut bot = sleeping_maker();
    let a = bot.step(Event::Slept, NOW);
    assert!(matches!(a, Action::GetActivePairs));
    let a = bot.step(Event::ActivePairs(Err(ClientError::Unauthorized)), NOW);
    assert!(matches!(a, Action::Refresh));
    let a = bot.step(Event::Refreshed(Err(ClientError::Unauthorized)), NOW);
    assert!(matches!(a, Action::Login { .. }));
    let a = bot.step(Event::LoggedIn(Ok(())), NOW);
    assert!(matches!(a, Action::GetActivePairs));
    // a stray answer leaves the request standing
    let a = bot.step(Event::Slept, NOW);
    assert!(matches!(a, Action::GetActivePairs));
}

#[test]
fn bias_rotates_after_full_cycles() {
    let mut client = MockClient::new();
    let mut bot = taker_bot(Bias::Bullish);
    bot.taker_state.as_mut().unwrap().remaining_cycle = 1;
    taker_cycle(&mut bot, &mut client);
    assert_eq!(bot.taker_state.unwrap().remaining_cycle, 0);
    taker_cycle(&mut bot, &mut client);
    assert_eq!(bot.taker_state.unwrap().remaining_cycle, 15);
}

#[test]
fn early_end_keeps_the_bias_state() {
    let mut client = MockClient::new();
    let mut bot = taker_bot(Bias::Bearish);
    bot.taker_state.as_mut().unwrap().remaining_cycle = 0;
    bot.phase = Phase::Sleeping;
    bot.pending = Action::Sleep { secs: 10 };
    bot.backoff_until = Some(NOW + 60_000);
    let last = drive(&mut bot, &mut client, Event::Slept);
    assert!(matches!(last, Action::Sleep { .. }));
    let state = bot.taker_state.unwrap();
    assert_eq!(state.bias, Bias::Bearish);
    assert_eq!(state.remaining_cycle, 0);
}

#[test]
fn taker_state_stays_within_the_full_count() {
    let mut client = MockClient::new();
    let mut bot = taker_bot(Bias::Neutral);
    for _ in 0..40 {
        taker_cycle(&mut bot, &mut client);
        let state = bot.taker_state.unwrap();
        assert!(state.remaining_cycle <= 15);
    }
    for (_, order_type, price, _) in client.placed.iter() {
        assert_eq!(*order_type, OrderType::Market);
        assert!(price.is_none());
    }
}
