pub mod decimal;
pub mod text;
pub mod types;
pub mod smc;
pub mod indicators;
pub mod ranking;
pub mod signals;
pub mod stamps;
pub mod store;
pub mod config;
pub mod risk;
pub mod json;
pub mod exchange;
pub mod binance;
pub mod paper;
pub mod scanner;
pub mod ranges;
pub mod telegram;
pub mod advisor;
pub mod learning;
pub mod orchestrator;
pub mod smc_laws;
pub mod sums;
pub mod trade_laws;
pub mod indicator_laws;
pub mod signal_laws;
pub mod market_laws;
pub mod setting_laws;
pub mod text_laws;
pub mod reply_laws;
pub mod advice_laws;
pub mod round_laws;
