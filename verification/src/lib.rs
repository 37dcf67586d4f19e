//! Streaming market-data normalization engine.
//!
//! The library turns pipe-delimited market-quote messages into per-provider
//! time series suitable for charting: a stateless message parser, a stateful
//! series store with first-arrival time anchoring, and the wall-clock
//! arithmetic that renders axis labels from relative-second offsets.

pub mod numbers;
pub mod parser;
pub mod store;
pub mod text;
pub mod time;

pub use parser::{get_params, get_str_field, parse_quote, AppError, Quote};
pub use store::{BuyPoint, LpBuyPoints, MarketData};
pub use time::get_time_axis_string;
