//! Service discovery on the local link: multicast DNS with DNS-SD records.
//!
//! The crate holds the rules of a discovery node: which names are valid
//! instance names, how a resource record maps to a cache entry, how a reply
//! is assembled and trimmed, and which step a query or a receive loop takes
//! next. Sockets, timers and the cache live with the caller.

pub mod api;
pub mod codec;
pub mod host;
pub mod instance;
pub mod listener;
pub mod querier;
pub mod record;
pub mod registry;
pub mod responder;
pub mod text;
pub mod tracker;
pub mod types;
