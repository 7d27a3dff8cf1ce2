//! Verified core of a delta-neutral BTC range strategy finder for prediction markets.

pub mod text;
pub mod types;
pub mod calendar;
pub mod scanner;
pub mod backtesting;
pub mod db;
pub mod polymarket_ws;
pub mod historical_data;
pub mod ai_advisor;
pub mod analytics;
pub mod scan;
