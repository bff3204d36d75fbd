//! Verified core of a stock-analysis pipeline: it parses a daily quote
//! payload into an ordered price series, serializes the series for an
//! external predictor, reads the predictor's result with per-field
//! defaulting, keeps an append-only history of analysis records, and
//! computes the layout of the rendered chart. Network, process, database
//! and drawing side effects live outside the library and feed it plain
//! values.

pub mod analysis;
pub mod chart;
pub mod dates;
pub mod history;
pub mod errors;
pub mod payload;
pub mod pipeline;
pub mod scan;
pub mod decimal;
pub mod export;
pub mod num;
pub mod series;
