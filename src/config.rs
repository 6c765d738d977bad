//! The settings that drive a run: where the blocklists are, and what to allow.
use vstd::prelude::*;

verus! {

/// The sources of blocked hosts, by format.
pub struct Blocklists {
    /// Sources in the hosts-file format.
    pub hosts_file_blocklist_urls: Vec<String>,
    /// Sources that list one host per line.
    pub domain_blocklist_urls: Vec<String>,
}

/// Local adjustments to the merged blocklist.
pub struct Filters {
    /// Hosts never to block; a listed domain also clears its blocked parent domains.
    pub allowed_names: Option<Vec<String>>,
    /// Hosts to block in any case.
    pub blocked_names: Option<Vec<String>>,
}

/// A whole configuration.
pub struct Config {
    /// Where to fetch blocked hosts from.
    pub blocklists: Blocklists,
    /// What to change in the merged list, if anything.
    pub filters: Option<Filters>,
}

} // verus!
