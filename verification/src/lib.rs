//! Aggregation and ranked search over software-package metadata.
//!
//! Backends normalize external package systems into [`package::Package`]
//! records; the aggregator merges their installed lists into one naturally
//! sorted sequence; the search engine scans a read-only catalog of
//! locale-aware metadata and returns a weighted, naturally tie-broken ranking.

pub mod aggregate;
pub mod appdata;
pub mod catalog;
pub mod natural;
pub mod package;
pub mod search;
pub mod state;
