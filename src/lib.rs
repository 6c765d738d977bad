//! Merges domain and hosts-file blocklists into one deduplicated, sorted list of
//! blocked host names, honouring an allowlist that can clear whole domain chains.
pub mod host;
pub mod text;
pub mod host_set;
pub mod parse;
pub mod config;
pub mod filter;
pub mod fetch;
pub mod output;
pub mod pipeline;
