//! The last steps of a run: the allowlist, then local additions, then the sorted result.
use vstd::prelude::*;

use crate::config::Filters;
use crate::filter::{allow_removes_all, allowed_views, filter_blocklist, outcome_of, AllowOutcome};
use crate::host_set::{is_sorted, views_of, HostSet};
use crate::parse::{domain_list_names, domainlist};

verus! {

/// The allowlist entries of optional filters.
pub open spec fn allowed_of(filters: Option<Filters>) -> Seq<Seq<char>> {
    match filters {
        Some(f) => allowed_views(f),
        None => seq![],
    }
}

/// The hosts that a run emits: the merged hosts less what the allowlist takes out, plus the
/// hosts of the local list, which the allowlist never takes out.
pub open spec fn emitted_names(
    merged: Set<Seq<char>>,
    allowed: Seq<Seq<char>>,
    custom: Option<Seq<char>>,
) -> Set<Seq<char>> {
    let kept = merged.difference(allow_removes_all(allowed));
    match custom {
        Some(text) => kept.union(domain_list_names(text)),
        None => kept,
    }
}

/// Applies the allowlist of `filters` to the merged hosts, adds those of the local list
/// `custom_blocked` (one host per line), and gives the result sorted, each host once, with
/// what each allowlist entry did.
pub fn build_blocklist(merged: HostSet, filters: &Option<Filters>, custom_blocked: Option<&str>) -> (r: (
    Vec<String>,
    Vec<AllowOutcome>,
))
    ensures
        views_of(r.0@).to_set() == emitted_names(
            merged@,
            allowed_of(*filters),
            match custom_blocked {
                Some(t) => Some(t@),
                None => None,
            },
        ),
        views_of(r.0@).no_duplicates(),
        is_sorted(views_of(r.0@)),
        r.1@.len() == allowed_of(*filters).len(),
        forall|k: int|
            0 <= k < r.1@.len() ==> outcome_of(
                merged@.difference(allow_removes_all(allowed_of(*filters).subrange(0, k))),
                allowed_of(*filters)[k],
                #[trigger] r.1@[k],
            ),
{
    let mut set = merged;
    let outcomes = match filters {
        Some(f) => filter_blocklist(&mut set, f),
        None => {
            assert(allow_removes_all(seq![]) =~= Set::empty());
            assert(set@ =~= merged@.difference(allow_removes_all(seq![])));
            Vec::new()
        },
    };
    match custom_blocked {
        Some(text) => domainlist(text, &mut set),
        None => {},
    }
    (set.into_sorted(), outcomes)
}

} // verus!
