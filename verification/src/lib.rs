//! Verified core of a trading backtester: symbols, providers, download planning and live streams.

pub mod text;
pub mod models;
pub mod currency;
pub mod symbols;
pub mod kraken;
pub mod timestamps;
pub mod coinbase;
pub mod download;
pub mod live;
pub mod chrono_queue;
pub mod collect;
pub mod legs;
pub mod storage;
pub mod metrics;
pub mod indicators;
pub mod experiment_log;
