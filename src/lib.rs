//! A caching engine for a range-addressed media proxy: byte-interval
//! bookkeeping, request classification, the splicing of cached and origin
//! bytes, response heads and eviction choices, each with its contract.

pub mod error;
pub mod text;
pub mod range;
pub mod url;
pub mod config;
pub mod request;
pub mod unit;
pub mod pool;
pub mod selector;
pub mod fusion;
pub mod response;
pub mod network;
pub mod storage;
pub mod state;
pub mod logger;
pub mod hls;
pub mod probe;

