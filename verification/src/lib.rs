//! A rate-limit-aware client core for a tiered HTTP API.
//!
//! The library tracks the inferred state of every API endpoint (region,
//! service and method tier), accounts for the rate-limit windows that the
//! server advertises in its response headers, decides whether a request may
//! be sent now, and folds each response back into that state.  Everything
//! here is plain computation on plain values; the HTTP transport, the clock
//! and the task runtime live outside and hand their readings in as arguments.

pub mod endpoint_id;
pub mod endpoint;
pub mod errors;
pub mod retry;
pub mod table;
pub mod admission;
pub mod headers;
pub mod datetime;
pub mod numfmt;
pub mod summoner_v4;
pub mod match_v4;
pub mod requests;
pub mod crawler;
