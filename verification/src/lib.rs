//! A market-making and market-taking bot for a spot exchange: the decimal
//! model, the sizing rules, the balance rules, the price service, the exchange
//! client's pure parts and the bot's decision machine, each with its contract.
pub mod config;
pub mod constants;
pub mod decimal;
pub mod text;
pub mod types;
pub mod utils;
pub mod client;
pub mod bot;
pub mod price_service;
pub mod dec_order;
