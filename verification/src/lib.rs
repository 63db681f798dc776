//! Fetch-and-cache engine for lists of named remote artifacts.
//!
//! The crate holds the rules of the engine: which entries of a list need a
//! download, what is written to the cache for each of them, how cached bytes
//! are sealed and read back, how a response body is put together from its
//! chunks, what a change of the configuration file leads to, and which files
//! a cache is exported to. Network traffic, the on-disk store and the file
//! system are left to the caller, who performs the operations that the
//! functions here hand out and reports back what came of them.

pub mod codec;
pub mod encryption;
pub mod error;
pub mod fetcher;
pub mod package;
pub mod pass;
pub mod prelude;
pub mod reader;
pub mod store;
pub mod traits;
pub mod val;
pub mod watcher;

pub use crate::fetcher::{FetchMethod, Fetcher, NotifyMethod, ResponseMethod};
