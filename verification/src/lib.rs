//! Core engine of a terminal stock/crypto price monitor.
//!
//! The library holds the verified logic: symbol normalization, quote
//! modelling, rolling price history with technical indicators, price
//! alerts, a freshness-aware quote cache, refresh scheduling, batch-fetch
//! planning and merging, and the application state that composes them.
//! All money amounts are fixed-point integers with four decimal places;
//! the host program converts at its edges.

pub mod alerts;
pub mod audio;
pub mod cache;
pub mod config;
pub mod export;
pub mod fetch;
pub mod fmt;
pub mod history;
pub mod keyed;
pub mod options;
pub mod parse;
pub mod price;
pub mod quote;
pub mod scheduler;
pub mod sort;
pub mod state;
pub mod symbol;
