//! Protocol core of a minimal HTTP/1.1 server: an incremental request
//! parser that copes with partial reads, a router with exact and prefix
//! rules, and a middleware pipeline for response compression and
//! content-length bookkeeping.

pub mod http;
