//! What the exchange answers, with the plain values the bots read: identifiers
//! as 128-bit numbers, times as milliseconds since the Unix epoch, amounts as
//! decimals.
use crate::decimal::Dec;
use vstd::prelude::*;

verus! {

#[derive(Debug)]
pub struct LoginResponse {
    pub access_token: String,
}

#[derive(Debug)]
pub struct TradingPairsResponse {
    pub id: u128,
    pub base_asset: String,
    pub quote_asset: String,
    pub symbol: String,
    pub is_active: bool,
    pub created_at: i64,
}

#[derive(Debug)]
pub struct TickerResponse {
    pub symbol: String,
    pub last_price: Dec,
    pub high_24h: Dec,
    pub low_24h: Dec,
    pub volume_24h: Dec,
    pub price_change_pct: Dec,
}

#[derive(Debug)]
pub struct OrderBookResponse {
    pub symbol: String,
    pub bids: Vec<PriceLevelResponse>,
    pub asks: Vec<PriceLevelResponse>,
}

#[derive(Clone, Copy, Debug)]
pub struct PriceLevelResponse {
    pub price: Dec,
    pub quantity: Dec,
}

#[derive(Clone, Copy, Debug, PartialEq, Eq, Structural)]
pub enum OrderSide {
    Buy,
    Sell,
}

#[derive(Clone, Copy, Debug, PartialEq, Eq, Structural)]
pub enum OrderType {
    Market,
    Limit,
}

#[derive(Clone, Copy, Debug, PartialEq, Eq, Structural)]
pub enum OrderStatus {
    Open,
    PartiallyFilled,
    Filled,
    Cancelled,
}

#[derive(Debug)]
pub struct OrderResponse {
    pub id: u128,
    pub symbol: String,
    pub side: OrderSide,
    pub order_type: OrderType,
    pub price: Option<Dec>,
    pub quantity: Dec,
    pub remaining_quantity: Dec,
    pub status: OrderStatus,
    pub created_at: i64,
    pub updated_at: i64,
}

#[derive(Debug)]
pub struct PlaceOrderResponse {
    pub order_id: u128,
    pub status: OrderStatus,
    pub filled_quantity: Dec,
    pub remaining_quantity: Dec,
    pub trades: Vec<TradeInfo>,
}

#[derive(Clone, Copy, Debug)]
pub struct TradeInfo {
    pub price: Dec,
    pub quantity: Dec,
}

#[derive(Debug)]
pub struct BalanceResponse {
    pub asset: String,
    pub available: Dec,
    pub held: Dec,
}

#[derive(Debug)]
pub struct PaginatedResponse<T> {
    pub data: Vec<T>,
}

#[derive(Debug)]
pub struct AssetResponse {
    pub symbol: String,
    pub decimals: i16,
    pub is_active: bool,
    pub coingecko_id: Option<String>,
}

} // verus!
