//! A terminal dashboard for exchange tickers and candlestick charts: the set
//! of followed trading pairs, the dashboard state and its key handling, the
//! reading of exchange records, and the layout of candlestick charts.

pub mod api;
pub mod app;
pub mod chart;
pub mod config;
pub mod event;
pub mod price;
pub mod table;
