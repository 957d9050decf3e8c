//! The bot as a state machine. Each call of `step` takes the answer to the
//! bot's last request (an `Event`) and gives the next request (an `Action`):
//! logging in, cancelling a taker's leftover orders at start-up, then cycles
//! over the active pairs, with one re-authentication attempt on calls that come
//! back unauthorized and a back-off after the exchange rate-limits the bot.
use crate::bot::bias::{bias_for_draw, Bias, TakerState};
use crate::client::ClientError;
use crate::config::{BotRole, Config};
use crate::constants::DEFAULT_ORDER_CAP;
use crate::decimal::{
    abs, fits, in_range, lemma_on_grid, lemma_pow10_divides, lemma_pow10_positive, lemma_rounded_on_own_grid,
    lemma_rounded_on_within, lemma_rounded_within, mantissa_max, lemma_unit_interval, rounded, one_units, pow10, representable, decimal_add, decimal_checked_add, decimal_checked_div, decimal_checked_mul,
    decimal_checked_sub, decimal_div, decimal_mul, decimal_sub, opt_view, units_of, Dec,
};
use crate::text::str_eq;
use crate::types::{
    BalanceResponse, OrderBookResponse, OrderResponse, OrderSide, OrderType, PlaceOrderResponse,
    TickerResponse, TradingPairsResponse,
};
use crate::utils::balance::{get_min_balance, max_deposit, max_deposit_spec, min_balance_spec};
use crate::utils::maths::{
    capped_units, exact_buy, exact_share, exact_worth, quantity_of_notional, within_share, representable_ends, sell_worth,
    within_worth,
    base_quantity_to_buy, base_quantity_to_sell, between_spec, decimal_between,
    quantity_to_buy_spec, quantity_to_sell_spec, quote_to_spend, quote_to_spend_spec,
    random_number, FRACTION_STEPS,
};
use vstd::prelude::*;

verus! {

/// The random draws one step may use: a bias (1 to 3) for a rotation, and two
/// fractions (0 to FRACTION_STEPS) for a taker's direction and an order's size.
#[derive(Clone, Copy, Debug)]
pub struct Draws {
    pub bias: u8,
    pub direction: usize,
    pub size: usize,
}

impl Draws {
    pub open spec fn valid(self) -> bool {
        &&& 1 <= self.bias <= 3
        &&& self.direction <= 1000000
        &&& self.size <= 1000000
    }
}

/// Where a call that may need re-authentication stands.
#[derive(Clone, Copy, Debug, PartialEq, Eq, Structural)]
pub enum TryStage {
    /// The call was made once.
    First,
    /// It came back unauthorized; the session is being refreshed.
    Refreshing,
    /// The refresh failed; the bot is logging in again.
    Relogging,
    /// The call was made again after re-authentication.
    Retried,
}

/// What the bot is waiting for.
#[derive(Clone, Copy, Debug, PartialEq, Eq, Structural)]
pub enum Phase {
    Created,
    LoggingIn,
    StartupPairs,
    StartupOrders,
    StartupCancel,
    Sleeping,
    Pairs(TryStage),
    Ticker,
    CachedPrice,
    Balances(TryStage),
    DepositBase,
    DepositQuote,
    OpenOrders(TryStage),
    StaleCancel,
    MakerBid,
    MakerAsk,
    Orderbook(TryStage),
    TakerOrder,
    Stopped,
    Halted,
}

/// A request for outside work.
#[derive(Debug)]
pub enum Action {
    Login { email: String, password: String },
    Refresh,
    GetActivePairs,
    GetTicker { symbol: String },
    /// Look the asset's price up in the price service.
    GetCachedPrice { asset: String },
    GetBalances,
    Deposit { asset: String, amount: Dec },
    GetOpenOrders { symbol: String },
    CancelOrder { id: u128 },
    GetOrderbook { symbol: String },
    PlaceOrder {
        symbol: String,
        side: OrderSide,
        order_type: OrderType,
        price: Option<Dec>,
        quantity: Dec,
    },
    /// Wait this many seconds, then report `Slept`.
    Sleep { secs: u64 },
    /// The bot ends: its login failed.
    Stop,
    /// The bot ends: a decimal computation overflowed, and the driver panics.
    Halt,
}

impl Action {
    /// A copy of the action.
    pub fn duplicate(&self) -> (a: Action)
        ensures
            a == *self,
    {
        match self {
            Action::Login { email, password } => Action::Login {
                email: email.clone(),
                password: password.clone(),
            },
            Action::Refresh => Action::Refresh,
            Action::GetActivePairs => Action::GetActivePairs,
            Action::GetTicker { symbol } => Action::GetTicker { symbol: symbol.clone() },
            Action::GetCachedPrice { asset } => Action::GetCachedPrice { asset: asset.clone() },
            Action::GetBalances => Action::GetBalances,
            Action::Deposit { asset, amount } => Action::Deposit {
                asset: asset.clone(),
                amount: *amount,
            },
            Action::GetOpenOrders { symbol } => Action::GetOpenOrders { symbol: symbol.clone() },
            Action::CancelOrder { id } => Action::CancelOrder { id: *id },
            Action::GetOrderbook { symbol } => Action::GetOrderbook { symbol: symbol.clone() },
            Action::PlaceOrder { symbol, side, order_type, price, quantity } => Action::PlaceOrder {
                symbol: symbol.clone(),
                side: *side,
                order_type: *order_type,
                price: *price,
                quantity: *quantity,
            },
            Action::Sleep { secs } => Action::Sleep { secs: *secs },
            Action::Stop => Action::Stop,
            Action::Halt => Action::Halt,
        }
    }
}

/// The answer to an action.
#[derive(Debug)]
pub enum Event {
    /// Sets a new bot going.
    Begin,
    LoggedIn(Result<(), ClientError>),
    Refreshed(Result<(), ClientError>),
    ActivePairs(Result<Vec<TradingPairsResponse>, ClientError>),
    Ticker(Result<TickerResponse, ClientError>),
    CachedPrice(Option<Dec>),
    Balances(Result<Vec<BalanceResponse>, ClientError>),
    Deposited(Result<BalanceResponse, ClientError>),
    OpenOrders(Result<Vec<OrderResponse>, ClientError>),
    Cancelled(Result<(), ClientError>),
    Orderbook(Result<OrderBookResponse, ClientError>),
    OrderPlaced(Result<PlaceOrderResponse, ClientError>),
    Slept,
}

/// What the current cycle (or the start-up clean-up) has gathered so far.
#[derive(Debug)]
pub struct Work {
    /// The active pairs, and the one being worked on.
    pub pairs: Vec<TradingPairsResponse>,
    pub index: usize,
    /// The pair's mid price.
    pub mid: Dec,
    /// The available balances as fetched, and after any deposit.
    pub base_available: Dec,
    pub quote_available: Dec,
    pub base_balance: Dec,
    pub quote_balance: Dec,
    /// Open orders being looked through, the next one to look at, and the
    /// bids and asks kept so far.
    pub orders: Vec<OrderResponse>,
    pub next: usize,
    pub bids: usize,
    pub asks: usize,
}

/// A bot: its settings, a taker's bias, the end of any back-off (in
/// milliseconds, as the clock that `step` is given counts them), what it waits
/// for, its last request and its work in progress.
#[derive(Debug)]
pub struct Bot {
    pub config: Config,
    pub taker_state: Option<TakerState>,
    pub backoff_until: Option<u64>,
    pub phase: Phase,
    pub pending: Action,
    pub work: Work,
}

// ---------------------------------------------------------------------------
// The transition function.
// ---------------------------------------------------------------------------

/// Phases in which a pair of the cycle is being worked on.
pub open spec fn pair_phase(p: Phase) -> bool {
    match p {
        Phase::Ticker | Phase::CachedPrice | Phase::Balances(_) | Phase::DepositBase
        | Phase::DepositQuote | Phase::OpenOrders(_) | Phase::StaleCancel | Phase::MakerBid
        | Phase::MakerAsk | Phase::Orderbook(_) | Phase::TakerOrder | Phase::StartupOrders
        | Phase::StartupCancel => true,
        _ => false,
    }
}

/// Phases only a maker reaches.
pub open spec fn maker_phase(p: Phase) -> bool {
    match p {
        Phase::OpenOrders(_) | Phase::StaleCancel | Phase::MakerBid | Phase::MakerAsk => true,
        _ => false,
    }
}

/// Phases only a taker reaches.
pub open spec fn taker_phase(p: Phase) -> bool {
    match p {
        Phase::Orderbook(_) | Phase::TakerOrder | Phase::StartupPairs | Phase::StartupOrders
        | Phase::StartupCancel => true,
        _ => false,
    }
}

impl Bot {
    /// What holds of every bot between steps: its work fits its phase, and a
    /// taker's bias state counts at most the full number of cycles.
    pub open spec fn wf(self) -> bool {
        &&& self.shape_ok()
        &&& taker_state_ok(self.taker_state)
    }

    /// The work in progress fits the phase, and the phase and requests fit the
    /// role.
    pub open spec fn shape_ok(self) -> bool {
        &&& pair_phase(self.phase) ==> self.work.index < self.work.pairs.len()
        &&& (self.phase == Phase::StaleCancel || self.phase == Phase::StartupCancel)
            ==> self.work.next <= self.work.orders.len()
        &&& self.phase == Phase::StaleCancel ==> self.work.bids <= self.work.next
            && self.work.asks <= self.work.next
        &&& maker_phase(self.phase) ==> self.config.role == BotRole::Maker
        &&& taker_phase(self.phase) ==> self.config.role == BotRole::Taker
        &&& self.config.role == BotRole::Taker ==> taker_request(self.pending)
    }
}

/// A taker's bias state counts at most the full number of cycles.
pub open spec fn taker_state_ok(t: Option<TakerState>) -> bool {
    t matches Some(ts) ==> ts.remaining_cycle <= crate::constants::TICKER_STATE_CYCLE
}

/// A request a taker may make: any order it places is a market order with no
/// price.
pub open spec fn taker_request(a: Action) -> bool {
    a matches Action::PlaceOrder { order_type, price, .. } ==> order_type == OrderType::Market
        && price is None
}

pub open spec fn zero_dec() -> Dec {
    Dec::from_view((0, 0))
}

/// Wait for `phase`, having asked for `action`.
pub open spec fn issue(b: Bot, phase: Phase, action: Action) -> (Bot, Action) {
    (Bot { phase, pending: action, ..b }, action)
}

/// A stray event: nothing changes and the last request stands.
pub open spec fn stay(b: Bot) -> (Bot, Action) {
    (b, b.pending)
}

pub open spec fn login_action(b: Bot) -> Action {
    Action::Login { email: b.config.email, password: b.config.password }
}

pub open spec fn sleep(b: Bot) -> (Bot, Action) {
    issue(b, Phase::Sleeping, Action::Sleep { secs: b.config.interval_secs })
}

pub open spec fn halt(b: Bot) -> (Bot, Action) {
    issue(b, Phase::Halted, Action::Halt)
}

/// A cycle starts: skipped while a back-off lasts, which is cleared once
/// `now` reaches its end; otherwise the active pairs are asked for.
pub open spec fn begin_cycle(b: Bot, now: u64) -> (Bot, Action) {
    match b.backoff_until {
        Some(until) => if now < until {
            sleep(b)
        } else {
            issue(Bot { backoff_until: None, ..b }, Phase::Pairs(TryStage::First), Action::GetActivePairs)
        },
        None => issue(b, Phase::Pairs(TryStage::First), Action::GetActivePairs),
    }
}

/// The end of a full cycle: a taker's bias state counts the cycle, then the
/// bot sleeps.
pub open spec fn end_cycle(b: Bot, d: Draws) -> (Bot, Action) {
    let b2 = match b.taker_state {
        Some(ts) => Bot { taker_state: Some(ts.rotated(d.bias)), ..b },
        None => b,
    };
    sleep(b2)
}

pub open spec fn with_index(b: Bot, index: int) -> Bot {
    Bot { work: Work { index: index as usize, ..b.work }, ..b }
}

pub open spec fn current_pair(b: Bot) -> TradingPairsResponse {
    b.work.pairs@[b.work.index as int]
}

/// Work on the current pair starts with its ticker.
pub open spec fn start_pair(b: Bot) -> (Bot, Action) {
    issue(b, Phase::Ticker, Action::GetTicker { symbol: current_pair(b).symbol })
}

/// On to the next pair, or to the end of the cycle after the last one.
pub open spec fn next_pair(b: Bot, d: Draws) -> (Bot, Action) {
    let b2 = with_index(b, b.work.index + 1);
    if b.work.index + 1 < b.work.pairs.len() {
        start_pair(b2)
    } else {
        end_cycle(b2, d)
    }
}

/// The deadline of a back-off of `secs` seconds from `now`, in milliseconds;
/// `None` where it overflows.
pub open spec fn backoff_deadline(now: u64, secs: u64) -> Option<u64> {
    if now + secs * 1000 <= u64::MAX {
        Some((now + secs * 1000) as u64)
    } else {
        None
    }
}

/// After a rate limit: back off for `secs` seconds and go on to the next pair.
pub open spec fn back_off(b: Bot, secs: u64, now: u64, d: Draws) -> (Bot, Action) {
    match backoff_deadline(now, secs) {
        Some(until) => next_pair(Bot { backoff_until: Some(until), ..b }, d),
        None => halt(b),
    }
}

/// The price of an asset when neither the ticker nor the price service has
/// one: 75000 for BTC, 2500 for ETH, 85 for SOL.
pub open spec fn fallback_price_spec(asset: Seq<char>) -> Option<(int, nat)> {
    if asset == "BTC"@ {
        Some((75000, 0))
    } else if asset == "ETH"@ {
        Some((2500, 0))
    } else if asset == "SOL"@ {
        Some((85, 0))
    } else {
        None
    }
}

/// With the mid price known, the balances are asked for.
pub open spec fn got_mid(b: Bot, mid: Dec) -> (Bot, Action) {
    issue(
        Bot { work: Work { mid, ..b.work }, ..b },
        Phase::Balances(TryStage::First),
        Action::GetBalances,
    )
}

/// The available amount of the first balance of `asset`, zero without one.
pub open spec fn find_available(list: Seq<BalanceResponse>, asset: Seq<char>) -> Dec
    decreases list.len(),
{
    if list.len() == 0 {
        zero_dec()
    } else if list[0].asset@ == asset {
        list[0].available
    } else {
        find_available(list.drop_first(), asset)
    }
}

/// What a balance of an asset calls for.
pub enum DepositNeed {
    /// At least the minimum: kept as it is.
    Keep,
    /// Below the minimum: deposit the asset's target.
    Deposit((int, nat)),
    /// Below the minimum with no target: the pair is skipped.
    Skip,
}

pub open spec fn deposit_need(asset: Seq<char>, balance: Dec) -> DepositNeed {
    if balance.val() < units_of(min_balance_spec(asset)) {
        if units_of(max_deposit_spec(asset)) > 0 {
            DepositNeed::Deposit(max_deposit_spec(asset))
        } else {
            DepositNeed::Skip
        }
    } else {
        DepositNeed::Keep
    }
}

/// The base balance is checked (and topped up if need be).
pub open spec fn deposit_base(b: Bot, now: u64, d: Draws) -> (Bot, Action) {
    let asset = current_pair(b).base_asset;
    let bal = b.work.base_available;
    match deposit_need(asset@, bal) {
        DepositNeed::Keep => deposit_quote(Bot { work: Work { base_balance: bal, ..b.work }, ..b }, now, d),
        DepositNeed::Deposit(target) => issue(
            b,
            Phase::DepositBase,
            Action::Deposit { asset, amount: Dec::from_view(target) },
        ),
        DepositNeed::Skip => next_pair(b, d),
    }
}

/// The quote balance is checked (and topped up if need be).
pub open spec fn deposit_quote(b: Bot, now: u64, d: Draws) -> (Bot, Action) {
    let asset = current_pair(b).quote_asset;
    let bal = b.work.quote_available;
    match deposit_need(asset@, bal) {
        DepositNeed::Keep => role_step(Bot { work: Work { quote_balance: bal, ..b.work }, ..b }, d),
        DepositNeed::Deposit(target) => issue(
            b,
            Phase::DepositQuote,
            Action::Deposit { asset, amount: Dec::from_view(target) },
        ),
        DepositNeed::Skip => next_pair(b, d),
    }
}

/// With the balances settled, a maker looks at its open orders and a taker at
/// the order book.
pub open spec fn role_step(b: Bot, d: Draws) -> (Bot, Action) {
    let symbol = current_pair(b).symbol;
    match b.config.role {
        BotRole::Maker => issue(b, Phase::OpenOrders(TryStage::First), Action::GetOpenOrders { symbol }),
        BotRole::Taker => issue(b, Phase::Orderbook(TryStage::First), Action::GetOrderbook { symbol }),
    }
}

/// The stale threshold in force.
pub open spec fn threshold_of(c: Config) -> (int, nat) {
    match c.stale_threshold {
        Some(t) => t@,
        None => (5, 3),
    }
}

/// The spread in force.
pub open spec fn spread_of(c: Config) -> (int, nat) {
    match c.spread {
        Some(s) => s@,
        None => (3, 3),
    }
}

/// The order cap in force.
pub open spec fn cap_of(c: Config) -> u8 {
    match c.order_cap {
        Some(n) => n,
        None => DEFAULT_ORDER_CAP,
    }
}

/// `|mid - price| / mid`, as rust_decimal computes it.
pub open spec fn drift_spec(mid: (int, nat), price: (int, nat)) -> Option<(int, nat)> {
    match decimal_checked_sub(mid, price) {
        None => None,
        Some(diff) => decimal_checked_div((crate::decimal::abs(diff.0), diff.1), mid),
    }
}

/// `mid * (1 - spread)`.
pub open spec fn bid_price_spec(mid: (int, nat), spread: (int, nat)) -> Option<(int, nat)> {
    match decimal_checked_sub((1, 0), spread) {
        None => None,
        Some(f) => decimal_checked_mul(mid, f),
    }
}

/// `mid * (1 + spread)`.
pub open spec fn ask_price_spec(mid: (int, nat), spread: (int, nat)) -> Option<(int, nat)> {
    match decimal_checked_add((1, 0), spread) {
        None => None,
        Some(f) => decimal_checked_mul(mid, f),
    }
}

pub open spec fn with_next(b: Bot, next: int, bids: int, asks: int) -> Bot {
    Bot { work: Work { next: next as usize, bids: bids as usize, asks: asks as usize, ..b.work }, ..b }
}

/// A maker looks through its open orders from `next` on: an order without a
/// price is passed over; one whose drift from the mid price exceeds the stale
/// threshold is cancelled; the others are kept and counted by side. Then it
/// places its quotes.
pub open spec fn scan(b: Bot, d: Draws) -> (Bot, Action)
    decreases b.work.orders.len() - b.work.next,
{
    if b.work.next >= b.work.orders.len() {
        maker_bid(b, d)
    } else {
        let o = b.work.orders@[b.work.next as int];
        let n = b.work.next + 1;
        match o.price {
            None => scan(with_next(b, n, b.work.bids as int, b.work.asks as int), d),
            Some(p) => match drift_spec(b.work.mid@, p@) {
                None => halt(b),
                Some(drift) => if units_of(drift) > units_of(threshold_of(b.config)) {
                    issue(
                        with_next(b, n, b.work.bids as int, b.work.asks as int),
                        Phase::StaleCancel,
                        Action::CancelOrder { id: o.id },
                    )
                } else if o.side == OrderSide::Buy {
                    scan(with_next(b, n, b.work.bids + 1, b.work.asks as int), d)
                } else {
                    scan(with_next(b, n, b.work.bids as int, b.work.asks + 1), d)
                },
            },
        }
    }
}

/// A maker bids `mid * (1 - spread)` for a random share (0.1 to 1) of its
/// quote balance, unless its kept bids reach the cap.
pub open spec fn maker_bid(b: Bot, d: Draws) -> (Bot, Action) {
    if b.work.bids < cap_of(b.config) {
        match bid_price_spec(b.work.mid@, spread_of(b.config)) {
            None => halt(b),
            Some(price) => match quantity_to_buy_spec(
                b.work.quote_balance@,
                price,
                (1, 1),
                (1, 0),
                d.size as nat,
            ) {
                None => halt(b),
                Some(q) => issue(
                    b,
                    Phase::MakerBid,
                    Action::PlaceOrder {
                        symbol: current_pair(b).symbol,
                        side: OrderSide::Buy,
                        order_type: OrderType::Limit,
                        price: Some(Dec::from_view(price)),
                        quantity: Dec::from_view(q),
                    },
                ),
            },
        }
    } else {
        maker_ask(b, d)
    }
}

/// A maker asks `mid * (1 + spread)` for a random share (0.1 to 1) of its base
/// balance's worth, unless its kept asks reach the cap.
pub open spec fn maker_ask(b: Bot, d: Draws) -> (Bot, Action) {
    if b.work.asks < cap_of(b.config) {
        match ask_price_spec(b.work.mid@, spread_of(b.config)) {
            None => halt(b),
            Some(price) => match quantity_to_sell_spec(
                b.work.base_balance@,
                price,
                (1, 1),
                (1, 0),
                d.size as nat,
            ) {
                None => halt(b),
                Some(q) => issue(
                    b,
                    Phase::MakerAsk,
                    Action::PlaceOrder {
                        symbol: current_pair(b).symbol,
                        side: OrderSide::Sell,
                        order_type: OrderType::Limit,
                        price: Some(Dec::from_view(price)),
                        quantity: Dec::from_view(q),
                    },
                ),
            },
        }
    } else {
        next_pair(b, d)
    }
}

/// A taker buys with a chance of its bias (a fraction drawn between 0 and 1 at
/// most the bias's chance), else sells: a market buy spends a share of the
/// quote balance, a market sell a share of the base balance's worth at the best
/// bid. An empty side of the book skips the pair.
pub open spec fn taker_decide(b: Bot, book: OrderBookResponse, d: Draws) -> (Bot, Action) {
    match b.taker_state {
        None => next_pair(b, d),
        Some(ts) => match between_spec((0, 0), (1, 0), d.direction as nat) {
            None => halt(b),
            Some(roll) => if units_of(roll) <= units_of(ts.bias.buy_chance()) {
                if book.asks.len() == 0 {
                    next_pair(b, d)
                } else {
                    let (mn, mx) = ts.bias.buy_size_spec();
                    match quote_to_spend_spec(b.work.quote_balance@, mn, mx, d.size as nat) {
                        None => halt(b),
                        Some(q) => issue(
                            b,
                            Phase::TakerOrder,
                            Action::PlaceOrder {
                                symbol: current_pair(b).symbol,
                                side: OrderSide::Buy,
                                order_type: OrderType::Market,
                                price: None,
                                quantity: Dec::from_view(q),
                            },
                        ),
                    }
                }
            } else {
                if book.bids.len() == 0 {
                    next_pair(b, d)
                } else {
                    let (mn, mx) = ts.bias.sell_size_spec();
                    match quantity_to_sell_spec(
                        b.work.base_balance@,
                        book.bids@[0].price@,
                        mn,
                        mx,
                        d.size as nat,
                    ) {
                        None => halt(b),
                        Some(q) => issue(
                            b,
                            Phase::TakerOrder,
                            Action::PlaceOrder {
                                symbol: current_pair(b).symbol,
                                side: OrderSide::Sell,
                                order_type: OrderType::Market,
                                price: None,
                                quantity: Dec::from_view(q),
                            },
                        ),
                    }
                }
            },
        },
    }
}

/// A taker's sell quantity `q` at best bid `p`, sized as a share between `mn`
/// and `mx` of the base balance's worth: nothing at a price or a balance that
/// is not positive; never more than the balance held where the shares are at
/// most one and the worth is a decimal; and otherwise some notional between
/// `mn` and `mx` times the worth (capped at 1000) divided by `p`.
pub open spec fn sell_sized_from_base(base: Dec, p: Dec, mn: Dec, mx: Dec, q: Dec) -> bool {
    &&& p.val() <= 0 ==> q.val() == 0
    &&& base.val() <= 0 ==> q.val() == 0
    &&& p.val() > 0 && base.val() >= 0 && mn.val() <= mx.val() <= one_units() && representable(
        mx.val() - mn.val(),
    ) && exact_worth(base, p) ==> q.val() <= base.val()
    &&& p.val() > 0 && sell_worth(base, p) > 0 && mn.val() <= mx.val() && representable_ends(
        sell_worth(base, p),
        mn,
        mx,
    ) ==> quantity_of_notional(sell_worth(base, p), p, mn, mx, q)
}

/// The decimal `0.1`.
pub open spec fn tenth_dec() -> Dec {
    Dec::from_view((1, 1))
}

/// The decimal `1`.
pub open spec fn one_dec() -> Dec {
    Dec::from_view((1, 0))
}

/// A maker's bid quantity `q` at bid price `p`, sized as a share between 0.1
/// and 1 of the quote balance capped at 1000: nothing for a balance that is
/// not positive; some notional between 0.1 and 1 times the capped balance
/// divided by `p`; and, where no step rounds, `q * p` itself lies there.
pub open spec fn bid_sized_from_quote(quote: Dec, p: Dec, q: Dec, draw: nat) -> bool {
    &&& quote.val() <= 0 ==> q.val() == 0
    &&& p.val() > 0 && capped_units(quote) > 0 && representable_ends(
        capped_units(quote),
        tenth_dec(),
        one_dec(),
    ) ==> quantity_of_notional(capped_units(quote), p, tenth_dec(), one_dec(), q)
    &&& exact_buy(quote, p, tenth_dec(), one_dec(), draw) ==> within_worth(
        capped_units(quote),
        p.val(),
        tenth_dec(),
        one_dec(),
        q,
    )
}

/// Any sell `a` that taker `b` places on `book` is sized from its base balance
/// at the best bid, with its bias's sell shares; it never sells more than it
/// holds where the worth at the best bid is a decimal.
pub open spec fn taker_sell_law(b: Bot, book: OrderBookResponse, a: Action) -> bool {
    let q = a->PlaceOrder_quantity;
    a is PlaceOrder && a->PlaceOrder_side == OrderSide::Sell ==> (book.bids.len() > 0
        && b.taker_state is Some && sell_sized_from_base(
        b.work.base_balance,
        book.bids@[0].price,
        Dec::from_view(b.taker_state->0.bias.sell_size_spec().0),
        Dec::from_view(b.taker_state->0.bias.sell_size_spec().1),
        q,
    ) && (book.bids@[0].price.val() > 0 && b.work.base_balance.val() >= 0 && exact_worth(
        b.work.base_balance,
        book.bids@[0].price,
    ) ==> q.val() <= b.work.base_balance.val()))
}

/// Any limit bid `a` that maker `b` places is priced and sized from its quote
/// balance.
pub open spec fn maker_bid_law(b: Bot, draw: nat, a: Action) -> bool {
    a is PlaceOrder && a->PlaceOrder_side == OrderSide::Buy && a->PlaceOrder_order_type
        == OrderType::Limit ==> (a->PlaceOrder_price is Some && bid_sized_from_quote(
        b.work.quote_balance,
        a->PlaceOrder_price->0,
        a->PlaceOrder_quantity,
        draw,
    ))
}

/// A taker's buy `q` (the quote worth it spends), a share between `mn` and
/// `mx` of its quote balance capped at 1000: nothing for a balance that is not
/// positive; otherwise between `mn` and `mx` times the capped balance wherever
/// no rounding moves it past those ends, or no step rounds.
pub open spec fn buy_spent_from_quote(quote: Dec, mn: Dec, mx: Dec, q: Dec, draw: nat) -> bool {
    &&& quote.val() <= 0 ==> q.val() == 0
    &&& mn.val() <= mx.val() && capped_units(quote) > 0 && representable_ends(capped_units(quote), mn, mx)
        ==> within_share(quote, mn, mx, q)
    &&& exact_share(quote, mn, mx, draw) ==> within_share(quote, mn, mx, q)
}

/// Any market buy `a` that taker `b` places spends a share of its quote
/// balance, with its bias's buy shares.
pub open spec fn taker_buy_law(b: Bot, draw: nat, a: Action) -> bool {
    a is PlaceOrder && a->PlaceOrder_side == OrderSide::Buy ==> (b.taker_state is Some
        && buy_spent_from_quote(
        b.work.quote_balance,
        Dec::from_view(b.taker_state->0.bias.buy_size_spec().0),
        Dec::from_view(b.taker_state->0.bias.buy_size_spec().1),
        a->PlaceOrder_quantity,
        draw,
    ))
}

/// Any limit ask `a` that maker `b` places is sized from its base balance at
/// the ask price, as a share between 0.1 and 1 of its worth: it never sells
/// more than the balance where that worth is a decimal.
pub open spec fn maker_ask_law(b: Bot, a: Action) -> bool {
    a is PlaceOrder && a->PlaceOrder_side == OrderSide::Sell && a->PlaceOrder_order_type
        == OrderType::Limit ==> (a->PlaceOrder_price is Some && sell_sized_from_base(
        b.work.base_balance,
        a->PlaceOrder_price->0,
        tenth_dec(),
        one_dec(),
        a->PlaceOrder_quantity,
    ))
}

/// Every bias's buy shares are ordered.
proof fn lemma_buy_sizes(bias: Bias)
    ensures
        units_of(bias.buy_size_spec().0) <= units_of(bias.buy_size_spec().1),
{
    crate::decimal::lemma_pow10_values();
    assert(units_of((1, 1)) == pow10(27));
}

/// Every bias's sell shares lie between zero and one, with a distance that is
/// a decimal.
proof fn lemma_sell_sizes(bias: Bias)
    ensures
        0 < units_of(bias.sell_size_spec().0) <= units_of(bias.sell_size_spec().1) <= one_units(),
        representable(units_of(bias.sell_size_spec().1) - units_of(bias.sell_size_spec().0)),
{
    crate::decimal::lemma_pow10_values();
    let k: nat = 27;
    let (lo, hi) = bias.sell_size_spec();
    let t: int = hi.0 - lo.0;
    assert(lo.1 == 1 && hi.1 == 1);
    assert(units_of(lo) == lo.0 * pow10(27));
    assert(units_of(hi) == hi.0 * pow10(27));
    let x = units_of(hi) - units_of(lo);
    assert(x == t * pow10(27)) by (nonlinear_arith)
        requires
            x == units_of(hi) - units_of(lo),
            units_of(lo) == lo.0 * pow10(27),
            units_of(hi) == hi.0 * pow10(27),
            t == hi.0 - lo.0,
    ;
    assert(0 <= t <= 4);
    vstd::arithmetic::div_mod::lemma_mod_multiples_basic(t, pow10(27));
    vstd::arithmetic::div_mod::lemma_div_multiples_vanish(t, pow10(27));
    assert(k <= 28 && x % pow10(k) == 0 && abs(x / pow10(k)) <= mantissa_max());
}

/// The bid shares 0.1 and 1 lie between zero and one, with a distance that is
/// a decimal.
proof fn lemma_bid_sizes(tenth: Dec, one: Dec)
    requires
        tenth@ == (1int, 1nat),
        one@ == (1int, 0nat),
    ensures
        0 < tenth.val() <= one.val() == one_units(),
        representable(one.val() - tenth.val()),
{
    reveal_with_fuel(pow10, 29);
    let k: nat = 27;
    let x = one.val() - tenth.val();
    assert(pow10(27) == 1000000000000000000000000000);
    assert(x == 9 * pow10(27));
    vstd::arithmetic::div_mod::lemma_mod_multiples_basic(9, pow10(27));
    vstd::arithmetic::div_mod::lemma_div_multiples_vanish(9, pow10(27));
    assert(k <= 28 && x % pow10(k) == 0 && abs(x / pow10(k)) <= mantissa_max());
}

/// How a call with one re-authentication attempt proceeds.
pub enum Reauth {
    /// The event is the call's result, to be handled.
    Result,
    /// It came back unauthorized: refresh the session.
    Refresh,
    /// The refresh failed: log in again.
    Login,
    /// Re-authentication succeeded: make the call again.
    Retry,
    /// Logging in again failed.
    Failed,
    /// The event does not answer the call.
    Stray,
}

pub open spec fn unauthorized<T>(r: Result<T, ClientError>) -> bool {
    r matches Err(ClientError::Unauthorized)
}

/// `is_result`: the event is the call's result; `denied`: that result is
/// `Unauthorized`.
pub open spec fn reauth(stage: TryStage, e: Event, is_result: bool, denied: bool) -> Reauth {
    match stage {
        TryStage::First => if is_result {
            if denied {
                Reauth::Refresh
            } else {
                Reauth::Result
            }
        } else {
            Reauth::Stray
        },
        TryStage::Retried => if is_result {
            Reauth::Result
        } else {
            Reauth::Stray
        },
        TryStage::Refreshing => match e {
            Event::Refreshed(Ok(())) => Reauth::Retry,
            Event::Refreshed(Err(_)) => Reauth::Login,
            _ => Reauth::Stray,
        },
        TryStage::Relogging => match e {
            Event::LoggedIn(Ok(())) => Reauth::Retry,
            Event::LoggedIn(Err(_)) => Reauth::Failed,
            _ => Reauth::Stray,
        },
    }
}

/// The re-authentication steps of a call, shared by the calls that have them:
/// `phase_of` is the call's phase at each stage, `call` the call itself.
pub open spec fn reauth_move(b: Bot, r: Reauth, phase_of: spec_fn(TryStage) -> Phase, call: Action) -> (
    Bot,
    Action,
) {
    match r {
        Reauth::Refresh => issue(b, phase_of(TryStage::Refreshing), Action::Refresh),
        Reauth::Login => issue(b, phase_of(TryStage::Relogging), login_action(b)),
        Reauth::Retry => issue(b, phase_of(TryStage::Retried), call),
        _ => stay(b),
    }
}

/// The next state and request of bot `b` after event `e` at time `now` (in
/// milliseconds), with the random draws `d`.
pub open spec fn next(b: Bot, e: Event, now: u64, d: Draws) -> (Bot, Action) {
    match b.phase {
        Phase::Created => issue(b, Phase::LoggingIn, login_action(b)),
        Phase::LoggingIn => match e {
            Event::LoggedIn(Ok(())) => if b.config.role == BotRole::Taker {
                issue(b, Phase::StartupPairs, Action::GetActivePairs)
            } else {
                begin_cycle(b, now)
            },
            Event::LoggedIn(Err(_)) => issue(b, Phase::Stopped, Action::Stop),
            _ => stay(b),
        },
        Phase::StartupPairs => match e {
            Event::ActivePairs(Ok(pairs)) => startup_pair(
                Bot { work: Work { pairs, index: 0, ..b.work }, ..b },
                now,
            ),
            Event::ActivePairs(Err(_)) => begin_cycle(b, now),
            _ => stay(b),
        },
        Phase::StartupOrders => match e {
            Event::OpenOrders(Ok(orders)) => startup_cancel(
                Bot { work: Work { orders, next: 0, ..b.work }, ..b },
                now,
            ),
            Event::OpenOrders(Err(_)) => startup_pair(with_index(b, b.work.index + 1), now),
            _ => stay(b),
        },
        Phase::StartupCancel => match e {
            Event::Cancelled(_) => startup_cancel(b, now),
            _ => stay(b),
        },
        Phase::Sleeping => match e {
            Event::Slept => begin_cycle(b, now),
            _ => stay(b),
        },
        Phase::Pairs(stage) => {
            let is_result = e is ActivePairs;
            let denied = e matches Event::ActivePairs(r) && unauthorized(r);
            match reauth(stage, e, is_result, denied) {
                Reauth::Result => match e {
                    Event::ActivePairs(Ok(pairs)) => if pairs.len() == 0 {
                        sleep(b)
                    } else {
                        start_pair(Bot { work: Work { pairs, index: 0, ..b.work }, ..b })
                    },
                    _ => sleep(b),
                },
                Reauth::Failed => sleep(b),
                r => reauth_move(b, r, |s| Phase::Pairs(s), Action::GetActivePairs),
            }
        },
        Phase::Ticker => match e {
            Event::Ticker(Ok(t)) => got_mid(b, t.last_price),
            Event::Ticker(Err(ClientError::Other(_))) => issue(
                b,
                Phase::CachedPrice,
                Action::GetCachedPrice { asset: current_pair(b).base_asset },
            ),
            Event::Ticker(Err(_)) => next_pair(b, d),
            _ => stay(b),
        },
        Phase::CachedPrice => match e {
            Event::CachedPrice(Some(p)) => got_mid(b, p),
            Event::CachedPrice(None) => match fallback_price_spec(current_pair(b).base_asset@) {
                Some(p) => got_mid(b, Dec::from_view(p)),
                None => next_pair(b, d),
            },
            _ => stay(b),
        },
        Phase::Balances(stage) => {
            let is_result = e is Balances;
            let denied = e matches Event::Balances(r) && unauthorized(r);
            match reauth(stage, e, is_result, denied) {
                Reauth::Result => match e {
                    Event::Balances(Ok(list)) => {
                        let pair = current_pair(b);
                        deposit_base(
                            Bot {
                                work: Work {
                                    base_available: find_available(list@, pair.base_asset@),
                                    quote_available: find_available(list@, pair.quote_asset@),
                                    ..b.work
                                },
                                ..b
                            },
                            now,
                            d,
                        )
                    },
                    _ => next_pair(b, d),
                },
                Reauth::Failed => next_pair(b, d),
                r => reauth_move(b, r, |s| Phase::Balances(s), Action::GetBalances),
            }
        },
        Phase::DepositBase => match e {
            Event::Deposited(Ok(_)) => match decimal_checked_add(
                max_deposit_spec(current_pair(b).base_asset@),
                b.work.base_available@,
            ) {
                Some(v) => deposit_quote(
                    Bot { work: Work { base_balance: Dec::from_view(v), ..b.work }, ..b },
                    now,
                    d,
                ),
                None => halt(b),
            },
            Event::Deposited(Err(ClientError::RateLimited(secs))) => back_off(b, secs, now, d),
            Event::Deposited(Err(_)) => next_pair(b, d),
            _ => stay(b),
        },
        Phase::DepositQuote => match e {
            Event::Deposited(Ok(_)) => match decimal_checked_add(
                max_deposit_spec(current_pair(b).quote_asset@),
                b.work.quote_available@,
            ) {
                Some(v) => role_step(
                    Bot { work: Work { quote_balance: Dec::from_view(v), ..b.work }, ..b },
                    d,
                ),
                None => halt(b),
            },
            Event::Deposited(Err(ClientError::RateLimited(secs))) => back_off(b, secs, now, d),
            Event::Deposited(Err(_)) => next_pair(b, d),
            _ => stay(b),
        },
        Phase::OpenOrders(stage) => {
            let is_result = e is OpenOrders;
            let denied = e matches Event::OpenOrders(r) && unauthorized(r);
            match reauth(stage, e, is_result, denied) {
                Reauth::Result => match e {
                    Event::OpenOrders(Ok(orders)) => scan(
                        Bot { work: Work { orders, next: 0, bids: 0, asks: 0, ..b.work }, ..b },
                        d,
                    ),
                    _ => next_pair(b, d),
                },
                Reauth::Failed => sleep(b),
                r => reauth_move(
                    b,
                    r,
                    |s| Phase::OpenOrders(s),
                    Action::GetOpenOrders { symbol: current_pair(b).symbol },
                ),
            }
        },
        Phase::StaleCancel => match e {
            Event::Cancelled(_) => scan(b, d),
            _ => stay(b),
        },
        Phase::MakerBid => match e {
            Event::OrderPlaced(Err(ClientError::RateLimited(secs))) => back_off(b, secs, now, d),
            Event::OrderPlaced(_) => maker_ask(b, d),
            _ => stay(b),
        },
        Phase::MakerAsk | Phase::TakerOrder => match e {
            Event::OrderPlaced(Err(ClientError::RateLimited(secs))) => back_off(b, secs, now, d),
            Event::OrderPlaced(_) => next_pair(b, d),
            _ => stay(b),
        },
        Phase::Orderbook(stage) => {
            let is_result = e is Orderbook;
            let denied = e matches Event::Orderbook(r) && unauthorized(r);
            match reauth(stage, e, is_result, denied) {
                Reauth::Result => match e {
                    Event::Orderbook(Ok(book)) => taker_decide(b, book, d),
                    _ => next_pair(b, d),
                },
                Reauth::Failed => sleep(b),
                r => reauth_move(
                    b,
                    r,
                    |s| Phase::Orderbook(s),
                    Action::GetOrderbook { symbol: current_pair(b).symbol },
                ),
            }
        },
        Phase::Stopped | Phase::Halted => stay(b),
    }
}

/// Start-up clean-up: the open orders of the current pair are asked for, or
/// the first cycle begins after the last pair.
pub open spec fn startup_pair(b: Bot, now: u64) -> (Bot, Action) {
    if b.work.index < b.work.pairs.len() {
        issue(b, Phase::StartupOrders, Action::GetOpenOrders { symbol: current_pair(b).symbol })
    } else {
        begin_cycle(b, now)
    }
}

/// Start-up clean-up: the next open order is cancelled, or the next pair's
/// orders are asked for.
pub open spec fn startup_cancel(b: Bot, now: u64) -> (Bot, Action) {
    if b.work.next < b.work.orders.len() {
        issue(
            Bot { work: Work { next: (b.work.next + 1) as usize, ..b.work }, ..b },
            Phase::StartupCancel,
            Action::CancelOrder { id: b.work.orders@[b.work.next as int].id },
        )
    } else {
        startup_pair(with_index(b, b.work.index + 1), now)
    }
}


/// Looking through open orders leaves a bias state as it is, or counts the
/// cycle on it where the look-through ends the cycle.
proof fn lemma_scan_keeps_taker_state(b: Bot, d: Draws)
    ensures
        ({
            let t = scan(b, d).0.taker_state;
            t == b.taker_state || (b.taker_state matches Some(ts) && t == Some(ts.rotated(d.bias)))
        }),
        scan(b, d).0.config == b.config,
    decreases b.work.orders.len() - b.work.next,
{
    if b.work.next < b.work.orders.len() {
        let o = b.work.orders@[b.work.next as int];
        let n = b.work.next + 1;
        match o.price {
            None => lemma_scan_keeps_taker_state(
                with_next(b, n, b.work.bids as int, b.work.asks as int),
                d,
            ),
            Some(p) => match drift_spec(b.work.mid@, p@) {
                None => {},
                Some(drift) => if units_of(drift) > units_of(threshold_of(b.config)) {
                } else if o.side == OrderSide::Buy {
                    lemma_scan_keeps_taker_state(with_next(b, n, b.work.bids + 1, b.work.asks as int), d);
                } else {
                    lemma_scan_keeps_taker_state(with_next(b, n, b.work.bids as int, b.work.asks + 1), d);
                },
            },
        }
    } else {
        reveal_with_fuel(scan, 1);
    }
}

/// One step leaves a taker's bias state as it is, or counts one full cycle on
/// it; so the state stays within the full number of cycles.
#[verifier::rlimit(50)]
#[verifier::spinoff_prover]
pub proof fn lemma_next_taker_state(b: Bot, e: Event, now: u64, d: Draws)
    ensures
        ({
            let t = next(b, e, now, d).0.taker_state;
            t == b.taker_state || (b.taker_state matches Some(ts) && t == Some(ts.rotated(d.bias)))
        }),
        taker_state_ok(b.taker_state) ==> taker_state_ok(next(b, e, now, d).0.taker_state),
        next(b, e, now, d).0.config == b.config,
{
    match b.phase {
        Phase::StaleCancel => lemma_scan_keeps_taker_state(b, d),
        Phase::OpenOrders(_) => match e {
            Event::OpenOrders(Ok(orders)) => lemma_scan_keeps_taker_state(
                Bot { work: Work { orders, next: 0, bids: 0, asks: 0, ..b.work }, ..b },
                d,
            ),
            _ => {},
        },
        _ => {},
    }
}

// ---------------------------------------------------------------------------
// The machine.
// ---------------------------------------------------------------------------

/// The price of an asset when neither the ticker nor the price service has
/// one: 75000 for BTC, 2500 for ETH, 85 for SOL, none for any other.
pub fn fallback_price(asset: &str) -> (r: Option<Dec>)
    ensures
        opt_view(r) == fallback_price_spec(asset@),
{
    proof {
        reveal_strlit("BTC");
        reveal_strlit("ETH");
        reveal_strlit("SOL");
    }
    if str_eq(asset, "BTC") {
        Some(Dec::new(75000, 0))
    } else if str_eq(asset, "ETH") {
        Some(Dec::new(2500, 0))
    } else if str_eq(asset, "SOL") {
        Some(Dec::new(85, 0))
    } else {
        None
    }
}

/// The available amount of the first balance of `asset`, zero without one.
pub fn available_of(list: &Vec<BalanceResponse>, asset: &String) -> (d: Dec)
    ensures
        d == find_available(list@, asset@),
{
    let n = list.len();
    let mut i: usize = 0;
    assert(list@.subrange(0, n as int) =~= list@);
    while i < n
        invariant
            n == list@.len(),
            i <= n,
            find_available(list@, asset@) == find_available(list@.subrange(i as int, n as int), asset@),
        decreases n - i,
    {
        assert(list@.subrange(i as int, n as int).drop_first() =~= list@.subrange(i + 1, n as int));
        assert(list@.subrange(i as int, n as int)[0] == list@[i as int]);
        if list[i].asset == *asset {
            return list[i].available;
        }
        i = i + 1;
    }
    let z = Dec::zero();
    proof {
        Dec::lemma_from_view(z);
        assert(list@.subrange(n as int, n as int).len() == 0);
    }
    z
}

/// The drift of a resting order's price from the mid price,
/// `|mid - price| / mid`; `None` where that overflows or `mid` is zero.
pub fn drift(mid: Dec, price: Dec) -> (r: Option<Dec>)
    ensures
        opt_view(r) == drift_spec(mid@, price@),
{
    match decimal_sub(mid, price) {
        None => None,
        Some(diff) => decimal_div(diff.abs(), mid),
    }
}

/// A positive mid price times `1 - spread`, rounded, lies strictly below the
/// mid price once `mid * spread` exceeds half the mid price's last place.
proof fn lemma_bid_strict(mid: Dec, s: int, v: Dec)
    requires
        mid.val() > 0,
        0 < s < one_units(),
        in_range(mid),
        in_range(v),
        rounded(mid.val() * (one_units() - s), one_units(), v),
        2 * (mid.val() * s) > pow10((28 - mid@.1) as nat) * one_units(),
    ensures
        v.val() < mid.val(),
{
    let o = one_units();
    let x = mid.val() * (o - s);
    let jm = (28 - mid@.1) as nat;
    let jr = (28 - v@.1) as nat;
    let p = pow10(jm);
    lemma_pow10_positive(jm);
    lemma_rounded_on_own_grid(x, o, v);
    lemma_mid_bound(mid);
    assert(x == mid.val() * o - mid.val() * s) by (nonlinear_arith)
        requires
            x == mid.val() * (o - s),
    ;
    assert(mid.val() * s > 0) by (nonlinear_arith)
        requires
            mid.val() > 0,
            s > 0,
    ;
    assert(mid.val() * o <= mantissa_max() * p * o) by (nonlinear_arith)
        requires
            mid.val() <= mantissa_max() * p,
            o > 0,
    ;
    assert(x > 0) by (nonlinear_arith)
        requires
            x == mid.val() * (o - s),
            mid.val() > 0,
            s < o,
    ;
    assert(fits(x, o, jm));
    assert(pow10(jm) == p);
    if v.val() * o == x {
        assert(v.val() < mid.val()) by (nonlinear_arith)
            requires
                v.val() * o == x,
                x < mid.val() * o,
                o > 0,
        ;
    } else if v.val() == 0 && 2 * abs(x) <= o {
    } else {
        assert(jr <= jm);
        lemma_pow10_divides(jr, jm);
        assert(v.val() * o < mid.val() * o);
        assert(v.val() < mid.val()) by (nonlinear_arith)
            requires
                v.val() * o < mid.val() * o,
                o > 0,
        ;
    }
}

/// A positive mid price times `1 + spread`, rounded, lies strictly above the
/// mid price once `mid * spread` exceeds half the mid price's last place.
proof fn lemma_ask_strict(mid: Dec, s: int, v: Dec)
    requires
        mid.val() > 0,
        0 < s < one_units(),
        in_range(mid),
        in_range(v),
        rounded(mid.val() * (one_units() + s), one_units(), v),
        2 * (mid.val() * s) > pow10((28 - mid@.1) as nat) * one_units(),
    ensures
        v.val() > mid.val(),
{
    let o = one_units();
    let m = mantissa_max();
    let x = mid.val() * (o + s);
    let jm = (28 - mid@.1) as nat;
    let jr = (28 - v@.1) as nat;
    let p = pow10(jm);
    lemma_pow10_positive(jm);
    lemma_pow10_positive(jr);
    lemma_rounded_on_own_grid(x, o, v);
    lemma_mid_bound(mid);
    assert(x == mid.val() * o + mid.val() * s) by (nonlinear_arith)
        requires
            x == mid.val() * (o + s),
    ;
    assert(mid.val() * s < mid.val() * o) by (nonlinear_arith)
        requires
            mid.val() > 0,
            s < o,
    ;
    assert(mid.val() >= 1);
    assert(x > o) by (nonlinear_arith)
        requires
            x == mid.val() * o + mid.val() * s,
            mid.val() >= 1,
            mid.val() * s > 0 || mid.val() * s <= 0,
            2 * (mid.val() * s) > p * o,
            p > 0,
            o > 0,
    ;
    assert(pow10(jm) == p);
    if v.val() * o == x {
        assert(v.val() > mid.val()) by (nonlinear_arith)
            requires
                v.val() * o == x,
                x > mid.val() * o,
                o > 0,
        ;
        return;
    }
    if fits(x, o, jm) {
        assert(jr <= jm);
        lemma_pow10_divides(jr, jm);
        assert(v.val() * o > mid.val() * o);
        assert(v.val() > mid.val()) by (nonlinear_arith)
            requires
                v.val() * o > mid.val() * o,
                o > 0,
        ;
        return;
    }
    // The product does not fit at the mid price's scale.
    assert(x > m * p * o);
    let mm = mid.val() / p;
    lemma_on_grid(mid, mid@.1);
    vstd::arithmetic::div_mod::lemma_fundamental_div_mod(mid.val(), p);
    assert(mid.val() == p * mm);
    assert(mm <= m) by (nonlinear_arith)
        requires
            mid.val() == p * mm,
            mid.val() <= m * p,
            p > 0,
    ;
    if mm < m {
        let t = (mm + 1) * p;
        assert(representable(t)) by {
            vstd::arithmetic::div_mod::lemma_mod_multiples_basic(mm + 1, p);
            vstd::arithmetic::div_mod::lemma_div_multiples_vanish(mm + 1, p);
            assert(t == p * (mm + 1)) by (nonlinear_arith)
                requires
                    t == (mm + 1) * p,
            ;
            assert(jm <= 28 && t % pow10(jm) == 0 && abs(t / pow10(jm)) <= m);
        }
        assert(t * o <= m * p * o) by (nonlinear_arith)
            requires
                t == (mm + 1) * p,
                mm + 1 <= m,
                p > 0,
                o > 0,
        ;
        lemma_rounded_on_within(x, o, v.val(), jr, t, t);
        assert(t > mid.val()) by (nonlinear_arith)
            requires
                t == (mm + 1) * p,
                mid.val() == p * mm,
                p > 0,
        ;
        return;
    }
    assert(mm == m);
    assert(mid.val() == m * p) by (nonlinear_arith)
        requires
            mid.val() == p * mm,
            mm == m,
    ;
    if jm == 28 {
        assert(v.val() <= m * pow10(jr));
        lemma_pow10_divides(jr, 28);
        assert(v.val() * o >= x - p * o) by (nonlinear_arith)
            requires
                2 * abs(v.val() * o - x) <= pow10(jr) * o,
                pow10(jr) <= p,
                o > 0,
        ;
        assert(false) by (nonlinear_arith)
            requires
                2 * abs(v.val() * o - x) <= pow10(jr) * o,
                pow10(jr) <= p,
                v.val() <= m * pow10(jr),
                x == m * p * o + mid.val() * s,
                2 * (mid.val() * s) > p * o,
                o > 0,
                m > 0,
                pow10(jr) > 0,
        ;
    }
    let j1 = (jm + 1) as nat;
    assert(pow10(j1) == 10 * p);
    let c: int = 7922816251426433759354395033;
    assert(c * 10 == m - 5);
    let t2 = (c + 1) * pow10(j1);
    assert(t2 == (m + 5) * p) by (nonlinear_arith)
        requires
            t2 == (c + 1) * pow10(j1),
            pow10(j1) == 10 * p,
            c * 10 == m - 5,
    ;
    assert(representable(t2)) by {
        vstd::arithmetic::div_mod::lemma_mod_multiples_basic(c + 1, pow10(j1));
        vstd::arithmetic::div_mod::lemma_div_multiples_vanish(c + 1, pow10(j1));
        assert(t2 == pow10(j1) * (c + 1)) by (nonlinear_arith)
            requires
                t2 == (c + 1) * pow10(j1),
        ;
        assert(j1 <= 28 && t2 % pow10(j1) == 0 && abs(t2 / pow10(j1)) <= m);
    }
    assert(t2 > mid.val()) by (nonlinear_arith)
        requires
            t2 == (m + 5) * p,
            mid.val() == m * p,
            p > 0,
    ;
    if t2 * o <= x {
        lemma_rounded_on_within(x, o, v.val(), jr, t2, t2);
        return;
    }
    // Below the next decimal one place coarser: the product fits there.
    assert(x <= m * pow10(j1) * o) by (nonlinear_arith)
        requires
            x < t2 * o,
            t2 == (m + 5) * p,
            pow10(j1) == 10 * p,
            p > 0,
            o > 0,
            m > 5,
    ;
    assert(fits(x, o, j1));
    assert(pow10(j1) == pow10(j1));
    assert(jr <= j1);
    if jr <= jm {
        lemma_pow10_divides(jr, jm);
        assert(v.val() * o > mid.val() * o);
        assert(v.val() > mid.val()) by (nonlinear_arith)
            requires
                v.val() * o > mid.val() * o,
                o > 0,
        ;
        return;
    }
    assert(jr == j1);
    let u = pow10(j1);
    vstd::arithmetic::div_mod::lemma_fundamental_div_mod(v.val(), u);
    let a = v.val() / u;
    assert(v.val() == u * a);
    assert(2 * (x - v.val() * o) <= u * o);
    assert(a > c) by (nonlinear_arith)
        requires
            v.val() == u * a,
            u == 10 * p,
            2 * (x - v.val() * o) <= u * o,
            x > m * p * o,
            c * 10 == m - 5,
            p > 0,
            o > 0,
    ;
    assert(v.val() >= t2) by (nonlinear_arith)
        requires
            v.val() == u * a,
            a >= c + 1,
            t2 == (c + 1) * u,
            u > 0,
    ;
}

/// A positive decimal is at most the largest mantissa at its scale.
proof fn lemma_mid_bound(mid: Dec)
    requires
        in_range(mid),
        mid.val() > 0,
    ensures
        mid.val() <= mantissa_max() * pow10((28 - mid@.1) as nat),
        mid.val() >= 1,
{
    let jm = (28 - mid@.1) as nat;
    lemma_pow10_positive(jm);
    assert(mid.val() <= mantissa_max() * pow10(jm)) by (nonlinear_arith)
        requires
            mid.val() == mid@.0 * pow10(jm),
            mid@.0 <= mantissa_max(),
            pow10(jm) > 0,
            mid.val() > 0,
    ;
}

/// A positive decimal times a factor below one stays clear of the product
/// limit.
proof fn lemma_quote_fits(mid: Dec, f: int)
    requires
        mid.val() > 0,
        0 < f < one_units(),
        -mantissa_max() <= mid@.0 <= mantissa_max(),
        mid@.1 <= 28,
    ensures
        abs(mid.val() * f) <= crate::decimal::limit_units() * one_units(),
{
    let o = one_units();
    let m = mantissa_max();
    let k = (28 - mid@.1) as nat;
    crate::decimal::lemma_pow10_le_28(k);
    assert(mid.val() <= m * o) by (nonlinear_arith)
        requires
            mid.val() == mid@.0 * pow10(k),
            mid@.0 <= m,
            0 < pow10(k) <= o,
            mid.val() > 0,
    ;
    assert(mid.val() * f <= mid.val() * (o - 1)) by (nonlinear_arith)
        requires
            mid.val() > 0,
            f <= o - 1,
    ;
    assert(mid.val() * (o - 1) <= (m * o) * (o - 1)) by (nonlinear_arith)
        requires
            mid.val() <= m * o,
            o > 1,
    ;
    assert((m * o) * (o - 1) <= (m - 1) * o * o) by (nonlinear_arith)
        requires
            m >= o,
            o > 0,
    ;
    assert(mid.val() * f > 0) by (nonlinear_arith)
        requires
            mid.val() > 0,
            f > 0,
    ;
}

/// `mid * (1 - spread)` (or `1 + spread` with `plus`) can be computed without
/// rounding: the spread lies between zero and one and the exact product can be
/// written as a decimal.
pub open spec fn exact_quote(mid: Dec, spread: Dec, plus: bool) -> bool {
    let f = if plus {
        one_units() + spread.val()
    } else {
        one_units() - spread.val()
    };
    &&& 0 <= spread.val() <= one_units()
    &&& (mid.val() * f) % one_units() == 0
    &&& representable((mid.val() * f) / one_units())
}

/// The bid price `mid * (1 - spread)`; `None` where it overflows. Without
/// rounding it is that value exactly, so for a positive mid price and spread it
/// lies below the mid price; with rounding, for a positive mid price and a
/// spread between zero and one, it is computed and lies between zero and the
/// mid price, strictly below it once `mid * spread` exceeds half the mid
/// price's last place.
pub fn bid_price(mid: Dec, spread: Dec) -> (r: Option<Dec>)
    ensures
        opt_view(r) == bid_price_spec(mid@, spread@),
        exact_quote(mid, spread, false) ==> (r matches Some(v) && v.val() * one_units() == mid.val()
            * (one_units() - spread.val())),
        exact_quote(mid, spread, false) && mid.val() > 0 && spread.val() > 0 ==> (r matches Some(v)
            && v.val() < mid.val()),
        mid.val() > 0 && 0 < spread.val() < one_units() ==> (r matches Some(v) && 0 <= v.val()
            <= mid.val()),
        mid.val() > 0 && 0 < spread.val() < one_units() && 2 * (mid.val() * spread.val()) > pow10(
            (28 - mid@.1) as nat,
        ) * one_units() ==> (r matches Some(v) && v.val() < mid.val()),
{
    let one = Dec::new(1, 0);
    spread.bounds();
    proof {
        crate::decimal::lemma_pow10_values();
        assert(one.val() == one_units());
        if 0 <= spread.val() <= one_units() {
            lemma_unit_interval(spread@);
        }
    }
    match decimal_sub(one, spread) {
        None => None,
        Some(f) => {
            mid.bounds();
            proof {
                if mid.val() > 0 && 0 < spread.val() < one_units() {
                    lemma_quote_fits(mid, f.val());
                }
            }
            let r = decimal_mul(mid, f);
            let zero = Dec::zero();
            zero.bounds();
            if let Some(v) = &r {
                v.bounds();
                proof {
                    if mid.val() > 0 && 0 < spread.val() < one_units() {
                        let x = mid.val() * f.val();
                        assert(0 <= x <= mid.val() * one_units()) by (nonlinear_arith)
                            requires
                                x == mid.val() * f.val(),
                                mid.val() > 0,
                                0 < f.val() < one_units(),
                        ;
                        lemma_rounded_within(x, one_units(), *v, zero.val(), mid.val());
                        if 2 * (mid.val() * spread.val()) > pow10((28 - mid@.1) as nat) * one_units() {
                            lemma_bid_strict(mid, spread.val(), *v);
                        }
                    }
                }
            }
            proof {
                if exact_quote(mid, spread, false) && mid.val() > 0 && spread.val() > 0 {
                    let v = r->0;
                    assert(v.val() < mid.val()) by (nonlinear_arith)
                        requires
                            v.val() * one_units() == mid.val() * (one_units() - spread.val()),
                            mid.val() > 0,
                            spread.val() > 0,
                            one_units() > 0,
                    ;
                }
            }
            r
        },
    }
}

/// The ask price `mid * (1 + spread)`; `None` where it overflows. Without
/// rounding it is that value exactly, so for a positive mid price and spread it
/// lies above the mid price; with rounding, for a positive mid price and a
/// spread between zero and one, it is never below the mid price, and strictly
/// above it once `mid * spread` exceeds half the mid price's last place.
pub fn ask_price(mid: Dec, spread: Dec) -> (r: Option<Dec>)
    ensures
        opt_view(r) == ask_price_spec(mid@, spread@),
        exact_quote(mid, spread, true) ==> (r matches Some(v) && v.val() * one_units() == mid.val()
            * (one_units() + spread.val())),
        exact_quote(mid, spread, true) && mid.val() > 0 && spread.val() > 0 ==> (r matches Some(v)
            && v.val() > mid.val()),
        mid.val() > 0 && 0 < spread.val() < one_units() && r is Some ==> r->0.val() >= mid.val(),
        mid.val() > 0 && 0 < spread.val() < one_units() && 2 * (mid.val() * spread.val()) > pow10(
            (28 - mid@.1) as nat,
        ) * one_units() && r is Some ==> r->0.val() > mid.val(),
{
    let one = Dec::new(1, 0);
    spread.bounds();
    proof {
        crate::decimal::lemma_pow10_values();
        assert(one.val() == one_units());
        if 0 <= spread.val() <= one_units() {
            lemma_unit_interval(spread@);
        }
    }
    match decimal_add(one, spread) {
        None => None,
        Some(f) => {
            let r = decimal_mul(mid, f);
            mid.bounds();
            if let Some(v) = &r {
                v.bounds();
                proof {
                    if mid.val() > 0 && 0 < spread.val() < one_units() {
                        let x = mid.val() * f.val();
                        assert(mid.val() * one_units() <= x) by (nonlinear_arith)
                            requires
                                x == mid.val() * f.val(),
                                mid.val() > 0,
                                one_units() < f.val(),
                        ;
                        lemma_rounded_within(x, one_units(), *v, mid.val(), mid.val());
                        if 2 * (mid.val() * spread.val()) > pow10((28 - mid@.1) as nat) * one_units() {
                            lemma_ask_strict(mid, spread.val(), *v);
                        }
                    }
                }
            }
            proof {
                if exact_quote(mid, spread, true) && mid.val() > 0 && spread.val() > 0 {
                    let v = r->0;
                    assert(v.val() > mid.val()) by (nonlinear_arith)
                        requires
                            v.val() * one_units() == mid.val() * (one_units() + spread.val()),
                            mid.val() > 0,
                            spread.val() > 0,
                            one_units() > 0,
                    ;
                }
            }
            r
        },
    }
}

fn reauth_of(stage: TryStage, e: &Event, is_result: bool, denied: bool) -> (r: Reauth)
    ensures
        r == reauth(stage, *e, is_result, denied),
{
    match stage {
        TryStage::First => if is_result {
            if denied {
                Reauth::Refresh
            } else {
                Reauth::Result
            }
        } else {
            Reauth::Stray
        },
        TryStage::Retried => if is_result {
            Reauth::Result
        } else {
            Reauth::Stray
        },
        TryStage::Refreshing => match e {
            Event::Refreshed(Ok(())) => Reauth::Retry,
            Event::Refreshed(Err(_)) => Reauth::Login,
            _ => Reauth::Stray,
        },
        TryStage::Relogging => match e {
            Event::LoggedIn(Ok(())) => Reauth::Retry,
            Event::LoggedIn(Err(_)) => Reauth::Failed,
            _ => Reauth::Stray,
        },
    }
}

fn is_unauthorized<T>(r: &Result<T, ClientError>) -> (b: bool)
    ensures
        b == unauthorized(*r),
{
    match r {
        Err(ClientError::Unauthorized) => true,
        _ => false,
    }
}

impl Bot {
    /// A new bot whose taker state (for the role `Taker`) holds the bias that
    /// `bias_draw` names.
    pub fn new_with_draw(config: Config, role: BotRole, bias_draw: u8) -> (b: Bot)
        ensures
            b.wf(),
            b.config == config,
            b.phase == Phase::Created,
            b.backoff_until is None,
            role == BotRole::Taker ==> b.taker_state == Some(
                TakerState { bias: bias_for_draw(bias_draw), remaining_cycle: crate::constants::TICKER_STATE_CYCLE },
            ),
            role != BotRole::Taker ==> b.taker_state is None,
    {
        let taker_state = if role == BotRole::Taker {
            Some(TakerState::with_draw(bias_draw))
        } else {
            None
        };
        Bot {
            config,
            taker_state,
            backoff_until: None,
            phase: Phase::Created,
            pending: Action::Stop,
            work: Work {
                pairs: Vec::new(),
                index: 0,
                mid: Dec::zero(),
                base_available: Dec::zero(),
                quote_available: Dec::zero(),
                base_balance: Dec::zero(),
                quote_balance: Dec::zero(),
                orders: Vec::new(),
                next: 0,
                bids: 0,
                asks: 0,
            },
        }
    }

    /// A new bot; a taker gets a bias drawn at random, held for the full count
    /// of cycles.
    pub fn new(config: Config, role: BotRole) -> (b: Bot)
        ensures
            b.wf(),
            b.config == config,
            b.phase == Phase::Created,
            b.backoff_until is None,
            role == BotRole::Taker ==> (b.taker_state matches Some(ts) && ts.remaining_cycle
                == crate::constants::TICKER_STATE_CYCLE),
            role != BotRole::Taker ==> b.taker_state is None,
    {
        let draw = random_number(1, 3);
        Bot::new_with_draw(config, role, draw as u8)
    }

    fn issue(&mut self, phase: Phase, action: Action) -> (r: Action)
        ensures
            (*final(self), r) == issue(*old(self), phase, action),
    {
        let r = action.duplicate();
        self.phase = phase;
        self.pending = action;
        r
    }

    fn login_action(&self) -> (a: Action)
        ensures
            a == login_action(*self),
    {
        Action::Login { email: self.config.email.clone(), password: self.config.password.clone() }
    }

    fn sleep(&mut self) -> (r: Action)
        ensures
            (*final(self), r) == sleep(*old(self)),
            final(self).shape_ok(),
    {
        let secs = self.config.interval_secs;
        self.issue(Phase::Sleeping, Action::Sleep { secs })
    }

    fn halt(&mut self) -> (r: Action)
        ensures
            (*final(self), r) == halt(*old(self)),
            final(self).shape_ok(),
    {
        self.issue(Phase::Halted, Action::Halt)
    }

    fn begin_cycle(&mut self, now: u64) -> (r: Action)
        ensures
            (*final(self), r) == begin_cycle(*old(self), now),
            final(self).shape_ok(),
    {
        match self.backoff_until {
            Some(until) => {
                if now < until {
                    return self.sleep();
                }
                self.backoff_until = None;
                self.issue(Phase::Pairs(TryStage::First), Action::GetActivePairs)
            },
            None => self.issue(Phase::Pairs(TryStage::First), Action::GetActivePairs),
        }
    }

    fn end_cycle(&mut self, d: Draws) -> (r: Action)
        ensures
            (*final(self), r) == end_cycle(*old(self), d),
            final(self).shape_ok(),
    {
        match self.taker_state {
            Some(ts) => {
                let mut ts = ts;
                ts.rotate(d.bias);
                self.taker_state = Some(ts);
            },
            None => {},
        }
        self.sleep()
    }

    fn start_pair(&mut self) -> (r: Action)
        requires
            old(self).work.index < old(self).work.pairs.len(),
            old(self).config.role == BotRole::Taker ==> taker_request(old(self).pending),
        ensures
            (*final(self), r) == start_pair(*old(self)),
            final(self).shape_ok(),
    {
        let symbol = self.work.pairs[self.work.index].symbol.clone();
        self.issue(Phase::Ticker, Action::GetTicker { symbol })
    }

    fn next_pair(&mut self, d: Draws) -> (r: Action)
        requires
            old(self).work.index < old(self).work.pairs.len(),
        ensures
            (*final(self), r) == next_pair(*old(self), d),
            final(self).shape_ok(),
    {
        self.work.index = self.work.index + 1;
        if self.work.index < self.work.pairs.len() {
            let symbol = self.work.pairs[self.work.index].symbol.clone();
            self.issue(Phase::Ticker, Action::GetTicker { symbol })
        } else {
            self.end_cycle(d)
        }
    }

    fn back_off(&mut self, secs: u64, now: u64, d: Draws) -> (r: Action)
        requires
            old(self).work.index < old(self).work.pairs.len(),
        ensures
            (*final(self), r) == back_off(*old(self), secs, now, d),
            final(self).shape_ok(),
    {
        let wait = secs.checked_mul(1000);
        let until = match wait {
            Some(w) => now.checked_add(w),
            None => None,
        };
        match until {
            Some(u) => {
                self.backoff_until = Some(u);
                self.next_pair(d)
            },
            None => self.halt(),
        }
    }

    fn got_mid(&mut self, mid: Dec) -> (r: Action)
        requires
            old(self).work.index < old(self).work.pairs.len(),
        ensures
            (*final(self), r) == got_mid(*old(self), mid),
            final(self).shape_ok(),
    {
        self.work.mid = mid;
        self.issue(Phase::Balances(TryStage::First), Action::GetBalances)
    }

    fn role_step(&mut self, d: Draws) -> (r: Action)
        requires
            old(self).work.index < old(self).work.pairs.len(),
        ensures
            (*final(self), r) == role_step(*old(self), d),
            final(self).shape_ok(),
    {
        let symbol = self.work.pairs[self.work.index].symbol.clone();
        match self.config.role {
            BotRole::Maker => self.issue(Phase::OpenOrders(TryStage::First), Action::GetOpenOrders { symbol }),
            BotRole::Taker => self.issue(Phase::Orderbook(TryStage::First), Action::GetOrderbook { symbol }),
        }
    }

    fn deposit_quote(&mut self, now: u64, d: Draws) -> (r: Action)
        requires
            old(self).work.index < old(self).work.pairs.len(),
        ensures
            (*final(self), r) == deposit_quote(*old(self), now, d),
            final(self).shape_ok(),
    {
        let asset = self.work.pairs[self.work.index].quote_asset.clone();
        let bal = self.work.quote_available;
        let min = get_min_balance(asset.as_str());
        if bal.is_lt(&min) {
            let target = max_deposit(asset.as_str());
            if target.is_gt(&Dec::zero()) {
                proof {
                    Dec::lemma_from_view(target);
                }
                self.issue(Phase::DepositQuote, Action::Deposit { asset, amount: target })
            } else {
                self.next_pair(d)
            }
        } else {
            self.work.quote_balance = bal;
            self.role_step(d)
        }
    }

    fn deposit_base(&mut self, now: u64, d: Draws) -> (r: Action)
        requires
            old(self).work.index < old(self).work.pairs.len(),
        ensures
            (*final(self), r) == deposit_base(*old(self), now, d),
            final(self).shape_ok(),
    {
        let asset = self.work.pairs[self.work.index].base_asset.clone();
        let bal = self.work.base_available;
        let min = get_min_balance(asset.as_str());
        if bal.is_lt(&min) {
            let target = max_deposit(asset.as_str());
            if target.is_gt(&Dec::zero()) {
                proof {
                    Dec::lemma_from_view(target);
                }
                self.issue(Phase::DepositBase, Action::Deposit { asset, amount: target })
            } else {
                self.next_pair(d)
            }
        } else {
            self.work.base_balance = bal;
            self.deposit_quote(now, d)
        }
    }

    #[verifier::spinoff_prover]
    #[verifier::rlimit(40)]
    fn maker_ask(&mut self, d: Draws) -> (r: Action)
        requires
            d.valid(),
            old(self).work.index < old(self).work.pairs.len(),
            old(self).config.role == BotRole::Maker,
        ensures
            (*final(self), r) == maker_ask(*old(self), d),
            final(self).shape_ok(),
            r is PlaceOrder ==> r->PlaceOrder_side == OrderSide::Sell,
            maker_ask_law(*old(self), r),
    {
        let cap = match self.config.order_cap {
            Some(n) => n,
            None => DEFAULT_ORDER_CAP,
        };
        if self.work.asks < cap as usize {
            let spread = match self.config.spread {
                Some(s) => s,
                None => crate::constants::default_spread(),
            };
            match ask_price(self.work.mid, spread) {
                None => self.halt(),
                Some(price) => {
                    let tenth = Dec::new(1, 1);
                    let one = Dec::new(1, 0);
                    proof {
                        lemma_bid_sizes(tenth, one);
                        Dec::lemma_from_view(tenth);
                        Dec::lemma_from_view(one);
                    }
                    match base_quantity_to_sell(
                        self.work.base_balance,
                        price,
                        tenth,
                        one,
                        d.size,
                    ) {
                        None => self.halt(),
                        Some(q) => {
                            proof {
                                Dec::lemma_from_view(price);
                                Dec::lemma_from_view(q);
                            }
                            let symbol = self.work.pairs[self.work.index].symbol.clone();
                            let r = self.issue(
                                Phase::MakerAsk,
                                Action::PlaceOrder {
                                    symbol,
                                    side: OrderSide::Sell,
                                    order_type: OrderType::Limit,
                                    price: Some(price),
                                    quantity: q,
                                },
                            );
                            proof {
                                let base = old(self).work.base_balance;
                                crate::decimal::lemma_units_zero();
                                assert(q.val() == units_of(q@));
                                assert(price.val() <= 0 ==> q.val() == 0);
                                assert(base.val() <= 0 ==> q.val() == 0);
                                assert(price.val() > 0 && base.val() >= 0 && tenth.val() <= one.val() <= one_units()
                                    && representable(one.val() - tenth.val()) && exact_worth(base, price)
                                    ==> q.val() <= base.val());
                                assert(sell_sized_from_base(old(self).work.base_balance, price, tenth, one, q));
                            }
                            r
                        },
                    }
                },
            }
        } else {
            self.next_pair(d)
        }
    }

    #[verifier::spinoff_prover]
    #[verifier::rlimit(40)]
    fn maker_bid(&mut self, d: Draws) -> (r: Action)
        requires
            d.valid(),
            old(self).work.index < old(self).work.pairs.len(),
            old(self).config.role == BotRole::Maker,
        ensures
            (*final(self), r) == maker_bid(*old(self), d),
            final(self).shape_ok(),
            maker_bid_law(*old(self), d.size as nat, r),
            maker_ask_law(*old(self), r),
    {
        let cap = match self.config.order_cap {
            Some(n) => n,
            None => DEFAULT_ORDER_CAP,
        };
        if self.work.bids < cap as usize {
            let spread = match self.config.spread {
                Some(s) => s,
                None => crate::constants::default_spread(),
            };
            match bid_price(self.work.mid, spread) {
                None => self.halt(),
                Some(price) => {
                    let tenth = Dec::new(1, 1);
                    let one = Dec::new(1, 0);
                    proof {
                        lemma_bid_sizes(tenth, one);
                        Dec::lemma_from_view(tenth);
                        Dec::lemma_from_view(one);
                    }
                    match base_quantity_to_buy(
                        self.work.quote_balance,
                        price,
                        tenth,
                        one,
                        d.size,
                    ) {
                        None => self.halt(),
                        Some(q) => {
                            proof {
                                Dec::lemma_from_view(price);
                                Dec::lemma_from_view(q);
                            }
                            let symbol = self.work.pairs[self.work.index].symbol.clone();
                            let r = self.issue(
                                Phase::MakerBid,
                                Action::PlaceOrder {
                                    symbol,
                                    side: OrderSide::Buy,
                                    order_type: OrderType::Limit,
                                    price: Some(price),
                                    quantity: q,
                                },
                            );
                            proof {
                                assert(bid_sized_from_quote(old(self).work.quote_balance, price, q, d.size as nat));
                            }
                            r
                        },
                    }
                },
            }
        } else {
            let r = self.maker_ask(d);
            proof {
                assert(!(r is PlaceOrder && r->PlaceOrder_side == OrderSide::Buy));
            }
            r
        }
    }

    fn scan(&mut self, d: Draws) -> (r: Action)
        requires
            d.valid(),
            old(self).work.index < old(self).work.pairs.len(),
            old(self).config.role == BotRole::Maker,
            old(self).work.next <= old(self).work.orders.len(),
            old(self).work.bids <= old(self).work.next,
            old(self).work.asks <= old(self).work.next,
        ensures
            (*final(self), r) == scan(*old(self), d),
            final(self).shape_ok(),
            maker_bid_law(*old(self), d.size as nat, r),
            maker_ask_law(*old(self), r),
    {
        let n = self.work.orders.len();
        let threshold = match self.config.stale_threshold {
            Some(t) => t,
            None => crate::constants::stale_threshold(),
        };
        while self.work.next < n
            invariant
                n == self.work.orders.len(),
                self.work.next <= n,
                self.work.bids <= self.work.next,
                self.work.asks <= self.work.next,
                self.work.index < self.work.pairs.len(),
                self.config.role == BotRole::Maker,
                threshold@ == threshold_of(self.config),
                d.valid(),
                scan(*self, d) == scan(*old(self), d),
                self.work.quote_balance == old(self).work.quote_balance,
                self.work.base_balance == old(self).work.base_balance,
            decreases n - self.work.next,
        {
            let k = self.work.next;
            match self.work.orders[k].price {
                None => {
                    self.work.next = k + 1;
                },
                Some(p) => {
                    match drift(self.work.mid, p) {
                        None => {
                            return self.halt();
                        },
                        Some(dr) => {
                            if dr.is_gt(&threshold) {
                                let id = self.work.orders[k].id;
                                self.work.next = k + 1;
                                return self.issue(Phase::StaleCancel, Action::CancelOrder { id });
                            } else if self.work.orders[k].side == OrderSide::Buy {
                                self.work.bids = self.work.bids + 1;
                                self.work.next = k + 1;
                            } else {
                                self.work.asks = self.work.asks + 1;
                                self.work.next = k + 1;
                            }
                        },
                    }
                },
            }
        }
        self.maker_bid(d)
    }

    fn taker_decide(&mut self, book: OrderBookResponse, d: Draws) -> (r: Action)
        requires
            d.valid(),
            old(self).work.index < old(self).work.pairs.len(),
            old(self).config.role == BotRole::Taker,
        ensures
            (*final(self), r) == taker_decide(*old(self), book, d),
            final(self).shape_ok(),
            taker_sell_law(*old(self), book, r),
            taker_buy_law(*old(self), d.size as nat, r),
    {
        match self.taker_state {
            None => self.next_pair(d),
            Some(ts) => {
                match decimal_between(Dec::zero(), Dec::new(1, 0), d.direction) {
                    None => self.halt(),
                    Some(roll) => {
                        if roll.is_le(&ts.bias.to_dec()) {
                            if book.asks.len() == 0 {
                                self.next_pair(d)
                            } else {
                                let (mn, mx) = ts.bias.buy_size();
                                proof {
                                    lemma_buy_sizes(ts.bias);
                                    Dec::lemma_from_view(mn);
                                    Dec::lemma_from_view(mx);
                                }
                                match quote_to_spend(self.work.quote_balance, mn, mx, d.size) {
                                    None => self.halt(),
                                    Some(q) => {
                                        proof {
                                            Dec::lemma_from_view(q);
                                        }
                                        let symbol = self.work.pairs[self.work.index].symbol.clone();
                                        self.issue(
                                            Phase::TakerOrder,
                                            Action::PlaceOrder {
                                                symbol,
                                                side: OrderSide::Buy,
                                                order_type: OrderType::Market,
                                                price: None,
                                                quantity: q,
                                            },
                                        )
                                    },
                                }
                            }
                        } else {
                            if book.bids.len() == 0 {
                                self.next_pair(d)
                            } else {
                                let (mn, mx) = ts.bias.sell_size();
                                let best_bid = book.bids[0].price;
                                proof {
                                    lemma_sell_sizes(ts.bias);
                                    Dec::lemma_from_view(mn);
                                    Dec::lemma_from_view(mx);
                                }
                                match base_quantity_to_sell(self.work.base_balance, best_bid, mn, mx, d.size) {
                                    None => self.halt(),
                                    Some(q) => {
                                        proof {
                                            Dec::lemma_from_view(q);
                                            assert(q.val() == units_of(q@));
                                        }
                                        let symbol = self.work.pairs[self.work.index].symbol.clone();
                                        self.issue(
                                            Phase::TakerOrder,
                                            Action::PlaceOrder {
                                                symbol,
                                                side: OrderSide::Sell,
                                                order_type: OrderType::Market,
                                                price: None,
                                                quantity: q,
                                            },
                                        )
                                    },
                                }
                            }
                        }
                    },
                }
            },
        }
    }

    fn startup_pair(&mut self, now: u64) -> (r: Action)
        requires
            old(self).config.role == BotRole::Taker,
        ensures
            (*final(self), r) == startup_pair(*old(self), now),
            final(self).shape_ok(),
    {
        if self.work.index < self.work.pairs.len() {
            let symbol = self.work.pairs[self.work.index].symbol.clone();
            self.issue(Phase::StartupOrders, Action::GetOpenOrders { symbol })
        } else {
            self.begin_cycle(now)
        }
    }

    fn startup_cancel(&mut self, now: u64) -> (r: Action)
        requires
            old(self).config.role == BotRole::Taker,
            old(self).work.index < old(self).work.pairs.len(),
            old(self).work.next <= old(self).work.orders.len(),
        ensures
            (*final(self), r) == startup_cancel(*old(self), now),
            final(self).shape_ok(),
    {
        if self.work.next < self.work.orders.len() {
            let id = self.work.orders[self.work.next].id;
            self.work.next = self.work.next + 1;
            self.issue(Phase::StartupCancel, Action::CancelOrder { id })
        } else {
            self.work.index = self.work.index + 1;
            self.startup_pair(now)
        }
    }
}

impl Bot {
    /// The next request after event `e` at time `now` (milliseconds on the
    /// caller's clock), with the random draws `d`; see `next`.
    pub fn step_with(&mut self, e: Event, now: u64, d: Draws) -> (r: Action)
        requires
            old(self).wf(),
            d.valid(),
        ensures
            (*final(self), r) == next(*old(self), e, now, d),
            final(self).wf(),
            final(self).taker_state is Some == old(self).taker_state is Some,
            final(self).config == old(self).config,
            old(self).config.role == BotRole::Taker ==> taker_request(r),
            old(self).phase == Phase::Orderbook(TryStage::First) || old(self).phase == Phase::Orderbook(
                TryStage::Retried,
            ) ==> (e matches Event::Orderbook(Ok(book)) ==> taker_sell_law(*old(self), book, r)
                && taker_buy_law(*old(self), d.size as nat, r)),
            (old(self).phase == Phase::OpenOrders(TryStage::First) || old(self).phase
                == Phase::OpenOrders(TryStage::Retried)) && (e matches Event::OpenOrders(Ok(_)))
                ==> maker_bid_law(*old(self), d.size as nat, r) && maker_ask_law(*old(self), r),
            old(self).phase == Phase::StaleCancel && (e matches Event::Cancelled(_)) ==> maker_bid_law(
                *old(self),
                d.size as nat,
                r,
            ) && maker_ask_law(*old(self), r),
            old(self).phase == Phase::MakerBid && (e matches Event::OrderPlaced(_)) ==> maker_ask_law(
                *old(self),
                r,
            ),
            old(self).phase == Phase::DepositQuote && (e matches Event::Deposited(Ok(_))) ==> ({
                let t = units_of(max_deposit_spec(current_pair(*old(self)).quote_asset@));
                let a = old(self).work.quote_available.val();
                representable(t + a) ==> final(self).work.quote_balance.val() == t + a
            }),
            old(self).phase == Phase::DepositBase && (e matches Event::Deposited(Ok(_))) ==> ({
                let t = units_of(max_deposit_spec(current_pair(*old(self)).base_asset@));
                let a = old(self).work.base_available.val();
                representable(t + a) ==> final(self).work.base_balance.val() == t + a
            }),
    {
        proof {
            lemma_next_taker_state(*self, e, now, d);
        }
        match self.phase {
            Phase::Created => {
                let a = self.login_action();
                self.issue(Phase::LoggingIn, a)
            },
            Phase::LoggingIn => match e {
                Event::LoggedIn(Ok(())) => {
                    if self.config.role == BotRole::Taker {
                        self.issue(Phase::StartupPairs, Action::GetActivePairs)
                    } else {
                        self.begin_cycle(now)
                    }
                },
                Event::LoggedIn(Err(_)) => self.issue(Phase::Stopped, Action::Stop),
                _ => self.pending.duplicate(),
            },
            Phase::StartupPairs => match e {
                Event::ActivePairs(Ok(pairs)) => {
                    self.work.pairs = pairs;
                    self.work.index = 0;
                    self.startup_pair(now)
                },
                Event::ActivePairs(Err(_)) => self.begin_cycle(now),
                _ => self.pending.duplicate(),
            },
            Phase::StartupOrders => match e {
                Event::OpenOrders(Ok(orders)) => {
                    self.work.orders = orders;
                    self.work.next = 0;
                    self.startup_cancel(now)
                },
                Event::OpenOrders(Err(_)) => {
                    self.work.index = self.work.index + 1;
                    self.startup_pair(now)
                },
                _ => self.pending.duplicate(),
            },
            Phase::StartupCancel => match e {
                Event::Cancelled(_) => self.startup_cancel(now),
                _ => self.pending.duplicate(),
            },
            Phase::Sleeping => match e {
                Event::Slept => self.begin_cycle(now),
                _ => self.pending.duplicate(),
            },
            Phase::Pairs(stage) => self.on_pairs(stage, e, now, d),
            Phase::Ticker => match e {
                Event::Ticker(Ok(t)) => self.got_mid(t.last_price),
                Event::Ticker(Err(ClientError::Other(_))) => {
                    let asset = self.work.pairs[self.work.index].base_asset.clone();
                    self.issue(Phase::CachedPrice, Action::GetCachedPrice { asset })
                },
                Event::Ticker(Err(_)) => self.next_pair(d),
                _ => self.pending.duplicate(),
            },
            Phase::CachedPrice => match e {
                Event::CachedPrice(Some(p)) => self.got_mid(p),
                Event::CachedPrice(None) => {
                    match fallback_price(self.work.pairs[self.work.index].base_asset.as_str()) {
                        Some(p) => {
                            proof {
                                Dec::lemma_from_view(p);
                            }
                            self.got_mid(p)
                        },
                        None => self.next_pair(d),
                    }
                },
                _ => self.pending.duplicate(),
            },
            Phase::Balances(stage) => self.on_balances(stage, e, now, d),
            Phase::DepositBase => match e {
                Event::Deposited(Ok(_)) => {
                    let target = max_deposit(self.work.pairs[self.work.index].base_asset.as_str());
                    match decimal_add(target, self.work.base_available) {
                        Some(v) => {
                            proof {
                                Dec::lemma_from_view(v);
                            }
                            self.work.base_balance = v;
                            self.deposit_quote(now, d)
                        },
                        None => self.halt(),
                    }
                },
                Event::Deposited(Err(ClientError::RateLimited(secs))) => self.back_off(secs, now, d),
                Event::Deposited(Err(_)) => self.next_pair(d),
                _ => self.pending.duplicate(),
            },
            Phase::DepositQuote => match e {
                Event::Deposited(Ok(_)) => {
                    let target = max_deposit(self.work.pairs[self.work.index].quote_asset.as_str());
                    match decimal_add(target, self.work.quote_available) {
                        Some(v) => {
                            proof {
                                Dec::lemma_from_view(v);
                            }
                            self.work.quote_balance = v;
                            self.role_step(d)
                        },
                        None => self.halt(),
                    }
                },
                Event::Deposited(Err(ClientError::RateLimited(secs))) => self.back_off(secs, now, d),
                Event::Deposited(Err(_)) => self.next_pair(d),
                _ => self.pending.duplicate(),
            },
            Phase::OpenOrders(stage) => self.on_open_orders(stage, e, now, d),
            Phase::StaleCancel => match e {
                Event::Cancelled(_) => self.scan(d),
                _ => self.pending.duplicate(),
            },
            Phase::MakerBid => match e {
                Event::OrderPlaced(Err(ClientError::RateLimited(secs))) => self.back_off(secs, now, d),
                Event::OrderPlaced(_) => self.maker_ask(d),
                _ => self.pending.duplicate(),
            },
            Phase::MakerAsk | Phase::TakerOrder => match e {
                Event::OrderPlaced(Err(ClientError::RateLimited(secs))) => self.back_off(secs, now, d),
                Event::OrderPlaced(_) => self.next_pair(d),
                _ => self.pending.duplicate(),
            },
            Phase::Orderbook(stage) => self.on_orderbook(stage, e, now, d),
            Phase::Stopped | Phase::Halted => self.pending.duplicate(),
        }
    }

    fn on_pairs(&mut self, stage: TryStage, e: Event, now: u64, d: Draws) -> (r: Action)
        requires
            old(self).wf(),
            old(self).phase == Phase::Pairs(stage),
            d.valid(),
        ensures
            (*final(self), r) == next(*old(self), e, now, d),
            final(self).shape_ok(),
            final(self).taker_state is Some == old(self).taker_state is Some,
    {
        let is_result = match &e {
            Event::ActivePairs(_) => true,
            _ => false,
        };
        let denied = match &e {
            Event::ActivePairs(res) => is_unauthorized(res),
            _ => false,
        };
        match reauth_of(stage, &e, is_result, denied) {
            Reauth::Result => match e {
                Event::ActivePairs(Ok(pairs)) => {
                    if pairs.len() == 0 {
                        self.sleep()
                    } else {
                        self.work.pairs = pairs;
                        self.work.index = 0;
                        self.start_pair()
                    }
                },
                _ => self.sleep(),
            },
            Reauth::Failed => self.sleep(),
            Reauth::Refresh => self.issue(Phase::Pairs(TryStage::Refreshing), Action::Refresh),
            Reauth::Login => {
                let a = self.login_action();
                self.issue(Phase::Pairs(TryStage::Relogging), a)
            },
            Reauth::Retry => self.issue(Phase::Pairs(TryStage::Retried), Action::GetActivePairs),
            Reauth::Stray => self.pending.duplicate(),
        }
    }

    fn on_balances(&mut self, stage: TryStage, e: Event, now: u64, d: Draws) -> (r: Action)
        requires
            old(self).wf(),
            old(self).phase == Phase::Balances(stage),
            d.valid(),
        ensures
            (*final(self), r) == next(*old(self), e, now, d),
            final(self).shape_ok(),
            final(self).taker_state is Some == old(self).taker_state is Some,
    {
        let is_result = match &e {
            Event::Balances(_) => true,
            _ => false,
        };
        let denied = match &e {
            Event::Balances(res) => is_unauthorized(res),
            _ => false,
        };
        match reauth_of(stage, &e, is_result, denied) {
            Reauth::Result => match e {
                Event::Balances(Ok(list)) => {
                    let base = available_of(&list, &self.work.pairs[self.work.index].base_asset);
                    let quote = available_of(&list, &self.work.pairs[self.work.index].quote_asset);
                    self.work.base_available = base;
                    self.work.quote_available = quote;
                    self.deposit_base(now, d)
                },
                _ => self.next_pair(d),
            },
            Reauth::Failed => self.next_pair(d),
            Reauth::Refresh => self.issue(Phase::Balances(TryStage::Refreshing), Action::Refresh),
            Reauth::Login => {
                let a = self.login_action();
                self.issue(Phase::Balances(TryStage::Relogging), a)
            },
            Reauth::Retry => self.issue(Phase::Balances(TryStage::Retried), Action::GetBalances),
            Reauth::Stray => self.pending.duplicate(),
        }
    }

    fn on_open_orders(&mut self, stage: TryStage, e: Event, now: u64, d: Draws) -> (r: Action)
        requires
            old(self).wf(),
            old(self).phase == Phase::OpenOrders(stage),
            d.valid(),
        ensures
            (*final(self), r) == next(*old(self), e, now, d),
            final(self).shape_ok(),
            final(self).taker_state is Some == old(self).taker_state is Some,
            (stage == TryStage::First || stage == TryStage::Retried) && (e matches Event::OpenOrders(
                Ok(_),
            )) ==> maker_bid_law(*old(self), d.size as nat, r) && maker_ask_law(*old(self), r),
    {
        proof {
            lemma_next_taker_state(*self, e, now, d);
        }
        let is_result = match &e {
            Event::OpenOrders(_) => true,
            _ => false,
        };
        let denied = match &e {
            Event::OpenOrders(res) => is_unauthorized(res),
            _ => false,
        };
        match reauth_of(stage, &e, is_result, denied) {
            Reauth::Result => match e {
                Event::OpenOrders(Ok(orders)) => {
                    self.work.orders = orders;
                    self.work.next = 0;
                    self.work.bids = 0;
                    self.work.asks = 0;
                    self.scan(d)
                },
                _ => self.next_pair(d),
            },
            Reauth::Failed => self.sleep(),
            Reauth::Refresh => self.issue(Phase::OpenOrders(TryStage::Refreshing), Action::Refresh),
            Reauth::Login => {
                let a = self.login_action();
                self.issue(Phase::OpenOrders(TryStage::Relogging), a)
            },
            Reauth::Retry => {
                let symbol = self.work.pairs[self.work.index].symbol.clone();
                self.issue(Phase::OpenOrders(TryStage::Retried), Action::GetOpenOrders { symbol })
            },
            Reauth::Stray => self.pending.duplicate(),
        }
    }

    fn on_orderbook(&mut self, stage: TryStage, e: Event, now: u64, d: Draws) -> (r: Action)
        requires
            old(self).wf(),
            old(self).phase == Phase::Orderbook(stage),
            d.valid(),
        ensures
            (*final(self), r) == next(*old(self), e, now, d),
            final(self).shape_ok(),
            final(self).taker_state is Some == old(self).taker_state is Some,
            stage == TryStage::First || stage == TryStage::Retried ==> (e matches Event::Orderbook(
                Ok(book),
            ) ==> taker_sell_law(*old(self), book, r) && taker_buy_law(*old(self), d.size as nat, r)),
    {
        let is_result = match &e {
            Event::Orderbook(_) => true,
            _ => false,
        };
        let denied = match &e {
            Event::Orderbook(res) => is_unauthorized(res),
            _ => false,
        };
        match reauth_of(stage, &e, is_result, denied) {
            Reauth::Result => match e {
                Event::Orderbook(Ok(book)) => self.taker_decide(book, d),
                _ => self.next_pair(d),
            },
            Reauth::Failed => self.sleep(),
            Reauth::Refresh => self.issue(Phase::Orderbook(TryStage::Refreshing), Action::Refresh),
            Reauth::Login => {
                let a = self.login_action();
                self.issue(Phase::Orderbook(TryStage::Relogging), a)
            },
            Reauth::Retry => {
                let symbol = self.work.pairs[self.work.index].symbol.clone();
                self.issue(Phase::Orderbook(TryStage::Retried), Action::GetOrderbook { symbol })
            },
            Reauth::Stray => self.pending.duplicate(),
        }
    }

    /// The next request after event `e` at time `now` (milliseconds on the
    /// caller's clock), drawing at random what the step may need: the result is
    /// `next` for some valid draws.
    pub fn step(&mut self, e: Event, now: u64) -> (r: Action)
        requires
            old(self).wf(),
        ensures
            exists|d: Draws| d.valid() && (*final(self), r) == next(*old(self), e, now, d),
            final(self).wf(),
            final(self).taker_state is Some == old(self).taker_state is Some,
            final(self).config == old(self).config,
            old(self).config.role == BotRole::Taker ==> taker_request(r),
    {
        let bias = random_number(1, 3);
        let direction = random_number(0, FRACTION_STEPS);
        let size = random_number(0, FRACTION_STEPS);
        let d = Draws { bias: bias as u8, direction, size };
        assert(d.valid());
        let r = self.step_with(e, now, d);
        assert((*self, r) == next(*old(self), e, now, d));
        r
    }
}
} // verus!
