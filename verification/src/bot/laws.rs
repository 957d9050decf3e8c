//! Properties of the bot's transition function that span its phases.
use crate::bot::bias::TakerState;
use crate::bot::machine::{
    lemma_next_taker_state, taker_state_ok,
    begin_cycle, cap_of, startup_cancel, deposit_need, drift_spec, maker_ask, maker_bid, next, next_pair, scan,
    threshold_of, with_next, Action, Bot, DepositNeed, Draws, Event, Phase, TryStage,
};
use crate::client::ClientError;
use crate::config::BotRole;
use crate::types::{OrderBookResponse, OrderSide, OrderType};
use crate::decimal::{units_of, Dec};
use crate::utils::balance::{max_deposit_spec, min_balance_spec};
use vstd::prelude::*;

verus! {

/// While a back-off lasts, a cycle that would start is skipped: the bot only
/// sleeps again, and nothing else about it changes.
pub proof fn law_backoff_skips_cycle(b: Bot, now: u64, d: Draws)
    requires
        b.phase == Phase::Sleeping,
        b.backoff_until matches Some(until) && now < until,
    ensures
        next(b, Event::Slept, now, d).1 == (Action::Sleep { secs: b.config.interval_secs }),
        next(b, Event::Slept, now, d).0 == (Bot {
            phase: Phase::Sleeping,
            pending: Action::Sleep { secs: b.config.interval_secs },
            ..b
        }),
{
}

/// Once a back-off has run out, the next cycle clears it and asks for the
/// active pairs.
pub proof fn law_backoff_expires(b: Bot, now: u64, d: Draws)
    requires
        b.phase == Phase::Sleeping,
        b.backoff_until matches Some(until) && now >= until,
    ensures
        next(b, Event::Slept, now, d).0.backoff_until is None,
        next(b, Event::Slept, now, d).1 == Action::GetActivePairs,
{
}

/// A taker's bias state counts full cycles only: moving on to another pair
/// leaves it as it is; finishing the last pair counts one cycle and puts the
/// bot to sleep.
pub proof fn law_bias_counts_full_cycles(b: Bot, d: Draws)
    requires
        b.work.index < b.work.pairs.len(),
    ensures
        b.work.index + 1 < b.work.pairs.len() ==> next_pair(b, d).0.taker_state == b.taker_state,
        b.work.index + 1 >= b.work.pairs.len() ==> next_pair(b, d).0.taker_state == (match b.taker_state {
            Some(ts) => Some(ts.rotated(d.bias)),
            None => None::<TakerState>,
        }),
        b.work.index + 1 >= b.work.pairs.len() ==> next_pair(b, d).1 == (Action::Sleep {
            secs: b.config.interval_secs,
        }),
{
}

/// A maker whose kept bids reach the cap places no bid (it goes straight to
/// its ask); one whose kept asks reach the cap places no ask.
pub proof fn law_maker_respects_cap(b: Bot, d: Draws)
    ensures
        b.work.bids >= cap_of(b.config) ==> maker_bid(b, d) == maker_ask(b, d),
        b.work.asks >= cap_of(b.config) ==> maker_ask(b, d) == next_pair(b, d),
{
}

/// Looking through open orders, a priced order whose drift from the mid price
/// exceeds the stale threshold is cancelled; one within it is kept and
/// counted, and the look-through goes on.
pub proof fn law_stale_orders_cancelled(b: Bot, d: Draws)
    requires
        b.work.next < b.work.orders.len(),
        b.work.orders@[b.work.next as int].price matches Some(p) && drift_spec(b.work.mid@, p@) is Some,
    ensures
        ({
            let o = b.work.orders@[b.work.next as int];
            let drift = drift_spec(b.work.mid@, o.price->0@)->0;
            &&& units_of(drift) > units_of(threshold_of(b.config)) ==> scan(b, d).1 == (Action::CancelOrder {
                id: o.id,
            })
            &&& units_of(drift) > units_of(threshold_of(b.config)) ==> scan(b, d).0.phase == Phase::StaleCancel
            &&& units_of(drift) <= units_of(threshold_of(b.config)) && o.side == crate::types::OrderSide::Buy
                ==> scan(b, d) == scan(with_next(b, b.work.next + 1, b.work.bids + 1, b.work.asks as int), d)
            &&& units_of(drift) <= units_of(threshold_of(b.config)) && o.side != crate::types::OrderSide::Buy
                ==> scan(b, d) == scan(with_next(b, b.work.next + 1, b.work.bids as int, b.work.asks + 1), d)
        }),
{
}

/// An order without a price is passed over: neither cancelled nor counted.
pub proof fn law_unpriced_orders_passed_over(b: Bot, d: Draws)
    requires
        b.work.next < b.work.orders.len(),
        b.work.orders@[b.work.next as int].price is None,
    ensures
        scan(b, d) == scan(with_next(b, b.work.next + 1, b.work.bids as int, b.work.asks as int), d),
{
}

/// The mid price comes from the ticker; a ticker that is not available sends
/// the bot to the price service; any other ticker failure skips the pair.
pub proof fn law_mid_price_from_ticker(b: Bot, e: Event, now: u64, d: Draws)
    requires
        b.phase == Phase::Ticker,
    ensures
        e matches Event::Ticker(Ok(t)) ==> next(b, e, now, d).0.work.mid == t.last_price
            && next(b, e, now, d).1 == Action::GetBalances,
        e matches Event::Ticker(Err(ClientError::Other(_))) ==> next(b, e, now, d).1 == (
        Action::GetCachedPrice { asset: b.work.pairs@[b.work.index as int].base_asset }),
        e matches Event::Ticker(Err(ClientError::Unauthorized)) ==> next(b, e, now, d) == next_pair(b, d),
{
}

/// A balance below the asset's minimum is topped up with the asset's deposit
/// target, or skips the pair where there is no target; one at or above the
/// minimum is kept.
pub proof fn law_deposit_rule(asset: Seq<char>, balance: Dec)
    ensures
        balance.val() < units_of(min_balance_spec(asset)) && units_of(max_deposit_spec(asset)) > 0
            ==> deposit_need(asset, balance) == DepositNeed::Deposit(max_deposit_spec(asset)),
        balance.val() < units_of(min_balance_spec(asset)) && units_of(max_deposit_spec(asset)) <= 0
            ==> deposit_need(asset, balance) == DepositNeed::Skip,
        balance.val() >= units_of(min_balance_spec(asset)) ==> deposit_need(asset, balance)
            == DepositNeed::Keep,
{
}

/// An unauthorized answer to the first call for the active pairs refreshes the
/// session; a failed refresh logs in again; a failed login skips the cycle.
pub proof fn law_reauthentication(b: Bot, now: u64, d: Draws)
    ensures
        b.phase == Phase::Pairs(TryStage::First) ==> next(
            b,
            Event::ActivePairs(Err(ClientError::Unauthorized)),
            now,
            d,
        ).1 == Action::Refresh,
        b.phase == Phase::Pairs(TryStage::Refreshing) ==> next(
            b,
            Event::Refreshed(Err(ClientError::Unauthorized)),
            now,
            d,
        ).1 == (Action::Login { email: b.config.email, password: b.config.password }),
        b.phase == Phase::Pairs(TryStage::Refreshing) ==> next(b, Event::Refreshed(Ok(())), now, d).1
            == Action::GetActivePairs,
        b.phase == Phase::Pairs(TryStage::Relogging) ==> next(
            b,
            Event::LoggedIn(Err(ClientError::Unauthorized)),
            now,
            d,
        ).1 == (Action::Sleep { secs: b.config.interval_secs }),
{
}

/// A failed first login stops the bot.
pub proof fn law_failed_login_stops(b: Bot, err: ClientError, now: u64, d: Draws)
    requires
        b.phase == Phase::LoggingIn,
    ensures
        next(b, Event::LoggedIn(Err(err)), now, d).1 == Action::Stop,
        next(b, Event::LoggedIn(Err(err)), now, d).0.phase == Phase::Stopped,
{
}

/// An event that does not answer the bot's last request changes nothing, and
/// the request stands.
pub proof fn law_stray_event_ignored(b: Bot, now: u64, d: Draws)
    requires
        b.phase == Phase::Sleeping || b.phase == Phase::Ticker || b.phase == Phase::StaleCancel,
    ensures
        next(b, Event::Begin, now, d) == (b, b.pending),
{
}

/// At start-up a taker cancels each resting order it finds, one after the
/// other, before its first cycle.
pub proof fn law_startup_cancels_each_order(b: Bot, now: u64)
    requires
        b.work.next < b.work.orders.len(),
    ensures
        startup_cancel(b, now).1 == (Action::CancelOrder { id: b.work.orders@[b.work.next as int].id }),
        startup_cancel(b, now).0.work.next == b.work.next + 1,
        startup_cancel(b, now).0.phase == Phase::StartupCancel,
{
}

/// A request that is neither an order, a cancellation nor a deposit.
pub open spec fn quiet_request(a: Action) -> bool {
    !(a is PlaceOrder) && !(a is CancelOrder) && !(a is Deposit)
}

/// A taker's turn on a pair places at most one order, a market order with no
/// price, and never cancels or deposits: answering the order book it asks for
/// nothing but that one order or a quiet request, and once the order is
/// answered it places no other.
pub proof fn law_taker_turn_one_market_order(b: Bot, e: Event, now: u64, d: Draws)
    requires
        b.wf(),
        b.config.role == BotRole::Taker,
        b.phase is Orderbook ==> quiet_request(b.pending),
    ensures
        b.phase is Orderbook ==> ({
            let (b2, a) = next(b, e, now, d);
            quiet_request(a) || (b2.phase == Phase::TakerOrder && (a matches Action::PlaceOrder {
                order_type,
                price,
                ..
            } && order_type == OrderType::Market && price is None))
        }),
        b.phase == Phase::TakerOrder && e is OrderPlaced ==> quiet_request(next(b, e, now, d).1),
{
}

/// A taker buys only when the book has asks and sells only when it has bids;
/// with both sides empty it places no order.
pub proof fn law_taker_needs_the_other_side(b: Bot, book: OrderBookResponse, now: u64, d: Draws)
    requires
        b.wf(),
        b.config.role == BotRole::Taker,
        b.phase == Phase::Orderbook(TryStage::First) || b.phase == Phase::Orderbook(TryStage::Retried),
    ensures
        ({
            let a = next(b, Event::Orderbook(Ok(book)), now, d).1;
            &&& (a matches Action::PlaceOrder { side, .. } && side == OrderSide::Buy) ==> book.asks.len() > 0
            &&& (a matches Action::PlaceOrder { side, .. } && side == OrderSide::Sell) ==> book.bids.len() > 0
            &&& book.asks.len() == 0 && book.bids.len() == 0 ==> !(a is PlaceOrder)
        }),
{
}

/// A cycle that ends early (while a back-off lasts, or with the pairs failing
/// or empty) leaves a taker's bias state as it is: starting a cycle and
/// fetching its pairs never touch it.
pub proof fn law_early_end_keeps_bias(b: Bot, e: Event, now: u64, d: Draws)
    requires
        b.phase == Phase::Sleeping || b.phase is Pairs,
    ensures
        next(b, e, now, d).0.taker_state == b.taker_state,
{
}

/// Through every step a bot keeps its configuration, and a bias state exactly
/// when it had one (so, from `Bot::new` with the role of its configuration,
/// exactly when it is a taker); the count stays within the full number of
/// cycles, and the bias changes only when a full cycle ends with no cycles
/// left.
pub proof fn law_taker_state_lifetime(b: Bot, e: Event, now: u64, d: Draws)
    requires
        b.wf(),
    ensures
        ({
            let t = next(b, e, now, d).0.taker_state;
            &&& next(b, e, now, d).0.config == b.config
            &&& (b.taker_state is Some <==> b.config.role == BotRole::Taker) ==> (t is Some
                <==> next(b, e, now, d).0.config.role == BotRole::Taker)
            &&& t is Some == b.taker_state is Some
            &&& taker_state_ok(t)
            &&& b.taker_state matches Some(ts) ==> (t matches Some(u) ==> (u.bias != ts.bias
                ==> ts.remaining_cycle == 0))
        }),
{
    lemma_next_taker_state(b, e, now, d);
}

/// A price from the price service becomes the mid price, whatever the asset
/// (a hardcoded fallback applies only when the service has none), and the
/// balances are asked for next.
pub proof fn law_cached_price_sets_mid(b: Bot, p: Dec, now: u64, d: Draws)
    requires
        b.phase == Phase::CachedPrice,
    ensures
        next(b, Event::CachedPrice(Some(p)), now, d).0.work.mid == p,
        next(b, Event::CachedPrice(Some(p)), now, d).0.phase == Phase::Balances(TryStage::First),
        next(b, Event::CachedPrice(Some(p)), now, d).1 == Action::GetBalances,
{
}

/// The stale threshold in force is the configured one: with a configured
/// threshold `t`, a priced order whose drift from the mid price exceeds `t` is
/// cancelled, and one whose drift is at most `t` is kept and counted; without
/// one, the threshold is 0.005.
pub proof fn law_configured_threshold_in_force(b: Bot, d: Draws)
    requires
        b.work.next < b.work.orders.len(),
        b.work.orders@[b.work.next as int].price matches Some(p) && drift_spec(b.work.mid@, p@) is Some,
    ensures
        ({
            let o = b.work.orders@[b.work.next as int];
            let drift = units_of(drift_spec(b.work.mid@, o.price->0@)->0);
            let n = b.work.next + 1;
            let limit = match b.config.stale_threshold {
                Some(t) => t.val(),
                None => 50000000000000000000000000,
            };
            &&& drift > limit ==> scan(b, d).1 == (Action::CancelOrder { id: o.id })
            &&& drift <= limit && o.side == OrderSide::Buy ==> scan(b, d) == scan(
                with_next(b, n, b.work.bids + 1, b.work.asks as int),
                d,
            )
            &&& drift <= limit && o.side != OrderSide::Buy ==> scan(b, d) == scan(
                with_next(b, n, b.work.bids as int, b.work.asks + 1),
                d,
            )
        }),
{
    reveal_with_fuel(crate::decimal::pow10, 26);
    assert(units_of((5int, 3nat)) == 50000000000000000000000000);
}

} // verus!
