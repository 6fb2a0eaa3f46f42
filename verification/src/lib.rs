//! A website-change monitoring library.
//!
//! The engine fetches nothing itself: callers hand it page bodies, and it
//! extracts visible text, strips volatile boilerplate, hashes the result,
//! compares it with the last stored snapshot, and reports what changed.

pub mod crypto;
pub mod diffs;
pub mod extract;
pub mod filter;
pub mod hashing;
pub mod monitor;
pub mod scheduler;
pub mod site;
pub mod store;
pub mod text;
pub mod tui;

