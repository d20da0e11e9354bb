//! Protocol core for a block-space bidding service: the outcome types a
//! backend can return for bid and bundle submissions, their canonical JSON
//! wire encoding and human-readable rendering, extraction of an optional
//! 256-bit auth token from a URL path, and the routing / response-mapping
//! rules that tie the HTTP surface to a backend.

pub mod codec;
pub mod decimal;
pub mod encoding;
pub mod responses;
pub mod router;
pub mod values;
