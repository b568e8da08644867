//! Incremental Chan-theory structure analysis over a stream of price bars:
//! merged bars, fractals, strokes, segments, central zones and buy/sell points.
//!
//! Prices are fixed-point integers (ticks); converting from decimal prices is
//! left to the caller.

pub mod analyzer;
pub mod bi;
pub mod bi_list;
pub mod bsp;
pub mod cenum;
pub mod chan_exception;
pub mod demark;
pub mod eigen;
pub mod eigen_fx;
pub mod enums;
pub mod handle;
pub mod kline;
pub mod seg;
pub mod seg_list;
pub mod time;
pub mod utils;
pub mod zs;
pub mod zs_list;
