//! A resumable crawler core for a paginated dictionary search API.
//!
//! The crate verifies the query-enumeration engine that walks every
//! (keyword, page) combination of a remote dictionary: the sequencer that
//! computes the next query from the previous outcome, the crawl state
//! machine with its retry ceiling, the canonical byte encoding used as
//! storage keys and values, and the compressed key-value cache that makes
//! a crawl resumable after a stop.

pub mod alphabet;
pub mod codec;
pub mod crawl;
pub mod data;
pub mod decode;
pub mod gzip;
pub mod query;
pub mod sequencer;
pub mod store;
pub mod url;
