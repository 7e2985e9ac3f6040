//! Core logic of a small hypermedia homepage server: a time-to-live cache
//! that coalesces repeated outbound fetches, a per-client rate limiter,
//! cursor pagination over ordered collections, and the decision logic of
//! the request handlers, all with verified contracts.
use vstd::prelude::*;

pub mod cache;
pub mod clock;
pub mod encode;
pub mod form;
pub mod guestbook;
pub mod identity;
pub mod jsonval;
pub mod lastfm;
pub mod messages;
pub mod pagination;
pub mod pool;
pub mod projects;
pub mod ratelimiter;
pub mod routes;
pub mod spotify;
pub mod state;
pub mod strutil;
pub mod timefmt;

verus! {

/// Page size used by the paginated endpoints when a request names none.
pub const DEFAULT_PAGE_LIMIT: usize = 5;

} // verus!
