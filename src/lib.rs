//! A client core for a JSON / NDJSON HTTP API: an incremental decoder of
//! newline-delimited records and a gate that enforces the server's rate limit.

pub mod ndjson;
pub mod client;
pub mod count;
pub mod performances;
pub mod playtime;
pub mod profile;
pub mod title;
pub mod top10s;
pub mod user;
pub mod rating_history;
