//! Fetch outcomes: which failure a source met, and the merge of what the sources gave.
use vstd::prelude::*;

use crate::config::Blocklists;
use crate::host_set::HostSet;
use crate::parse::{domain_list_names, domainlist, hostfile, hosts_file_names};
use crate::text::append;

verus! {

/// Why fetching one source failed. Each carries the source's URL.
#[derive(Debug)]
pub enum AppError {
    /// The connection dropped before the whole body came.
    IncompleteBody { url: String },
    /// The body could not be read for another reason.
    FetchBody { url: String },
    /// The body could not be decoded as text.
    FetchParse { url: String },
    /// The request could not be sent: name resolution, connection or TLS failed.
    FetchRequest { url: String },
    /// Any other failure, such as a status outside the success range.
    Fetch { url: String },
}

/// The message of an error: the text before the URL and the text after it.
pub open spec fn message_parts(e: AppError) -> (Seq<char>, Seq<char>) {
    match e {
        AppError::IncompleteBody { .. } => (
            "Error fetching blocklist `"@,
            "`: only received part of the file.  The network connection may be unstable."@,
        ),
        AppError::FetchBody { .. } => (
            "Error fetching blocklist `"@,
            "`: no response data or incomplete data.  The network connection may be unstable."@,
        ),
        AppError::FetchParse { .. } => (
            "Error parsing fetched data for blocklist `"@,
            "`.  It might be worth retrying later."@,
        ),
        AppError::FetchRequest { .. } => (
            "Error fetching blocklist `"@,
            "`: error requesting data.  The URL might be invalid, or there might be a network issue."@,
        ),
        AppError::Fetch { .. } => (
            "Error fetching blocklist `"@,
            "`.  Check the URL is correct and the connection is up."@,
        ),
    }
}

/// The URL that an error is about.
pub open spec fn error_url(e: AppError) -> Seq<char> {
    match e {
        AppError::IncompleteBody { url } => url@,
        AppError::FetchBody { url } => url@,
        AppError::FetchParse { url } => url@,
        AppError::FetchRequest { url } => url@,
        AppError::Fetch { url } => url@,
    }
}

impl AppError {
    /// The URL of the source that failed.
    pub fn url(&self) -> (r: &str)
        ensures
            r@ == error_url(*self),
    {
        match self {
            AppError::IncompleteBody { url } => url.as_str(),
            AppError::FetchBody { url } => url.as_str(),
            AppError::FetchParse { url } => url.as_str(),
            AppError::FetchRequest { url } => url.as_str(),
            AppError::Fetch { url } => url.as_str(),
        }
    }

    /// The message to show a user.
    pub fn message(&self) -> (r: String)
        ensures
            r@ == message_parts(*self).0 + error_url(*self) + message_parts(*self).1,
    {
        let (head, tail) = match self {
            AppError::IncompleteBody { .. } => (
                "Error fetching blocklist `",
                "`: only received part of the file.  The network connection may be unstable.",
            ),
            AppError::FetchBody { .. } => (
                "Error fetching blocklist `",
                "`: no response data or incomplete data.  The network connection may be unstable.",
            ),
            AppError::FetchParse { .. } => (
                "Error parsing fetched data for blocklist `",
                "`.  It might be worth retrying later.",
            ),
            AppError::FetchRequest { .. } => (
                "Error fetching blocklist `",
                "`: error requesting data.  The URL might be invalid, or there might be a network issue.",
            ),
            AppError::Fetch { .. } => (
                "Error fetching blocklist `",
                "`.  Check the URL is correct and the connection is up.",
            ),
        };
        let mut r = String::new();
        append(&mut r, head);
        append(&mut r, self.url());
        append(&mut r, tail);
        r
    }
}

/// How a source lists its hosts.
#[derive(Clone, Copy, Debug, PartialEq, Eq)]
pub enum SourceType {
    /// One host per line.
    DomainList,
    /// `address host...` per line.
    HostsFile,
}

/// Where to fetch hosts from, and how to read them.
#[derive(Debug)]
pub struct Source<'a> {
    /// The URL to fetch.
    pub url: &'a str,
    /// The format of the body.
    pub source_type: SourceType,
}

/// Every source that `blocklists` names: the hosts files first, then the domain lists, each
/// in the order given.
pub fn sources_from_blocklists(blocklists: &Blocklists) -> (r: Vec<Source<'_>>)
    ensures
        r@.len() == blocklists.hosts_file_blocklist_urls@.len() + blocklists.domain_blocklist_urls@.len(),
        forall|k: int| 0 <= k < blocklists.hosts_file_blocklist_urls@.len() ==> {
            &&& (#[trigger] r@[k]).url@ == blocklists.hosts_file_blocklist_urls@[k]@
            &&& r@[k].source_type == SourceType::HostsFile
        },
        forall|k: int| 0 <= k < blocklists.domain_blocklist_urls@.len() ==> {
            let s = #[trigger] r@[blocklists.hosts_file_blocklist_urls@.len() + k];
            &&& s.url@ == blocklists.domain_blocklist_urls@[k]@
            &&& s.source_type == SourceType::DomainList
        },
{
    let hosts = &blocklists.hosts_file_blocklist_urls;
    let domains = &blocklists.domain_blocklist_urls;
    let mut result: Vec<Source> = Vec::new();
    let mut i: usize = 0;
    while i < hosts.len()
        invariant
            i <= hosts@.len(),
            result@.len() == i,
            forall|k: int| 0 <= k < i ==> {
                &&& (#[trigger] result@[k]).url@ == hosts@[k]@
                &&& result@[k].source_type == SourceType::HostsFile
            },
        decreases hosts@.len() - i,
    {
        result.push(Source { url: hosts[i].as_str(), source_type: SourceType::HostsFile });
        i = i + 1;
    }
    let mut j: usize = 0;
    while j < domains.len()
        invariant
            j <= domains@.len(),
            result@.len() == hosts@.len() + j,
            forall|k: int| 0 <= k < hosts@.len() ==> {
                &&& (#[trigger] result@[k]).url@ == hosts@[k]@
                &&& result@[k].source_type == SourceType::HostsFile
            },
            forall|k: int| 0 <= k < j ==> {
                let s = #[trigger] result@[hosts@.len() + k];
                &&& s.url@ == domains@[k]@
                &&& s.source_type == SourceType::DomainList
            },
        decreases domains@.len() - j,
    {
        result.push(Source { url: domains[j].as_str(), source_type: SourceType::DomainList });
        proof {
            assert(result@[hosts@.len() + j as int] == result@.last());
        }
        j = j + 1;
    }
    result
}

/// What a failed request tells of its cause.
#[derive(Clone, Copy, Debug, PartialEq, Eq)]
pub struct RequestFailure {
    /// The failure came while the body was read.
    pub is_body: bool,
    /// When the cause is an HTTP protocol error: whether it is a message that ended early.
    /// `None` when the cause is something else.
    pub incomplete_message: Option<bool>,
    /// The failure came while the request was sent.
    pub is_request: bool,
}

/// Which error a request failure is, for the source at `url`.
pub open spec fn request_error_spec(url: Seq<char>, f: RequestFailure, e: AppError) -> bool {
    &&& error_url(e) == url
    &&& if f.is_body && f.incomplete_message == Some(true) {
        e is IncompleteBody
    } else if f.is_body {
        e is FetchBody
    } else if f.is_request {
        e is FetchRequest
    } else {
        e is Fetch
    }
}

/// Classifies a failed request: a body cut short, a body unreadable for any other reason, a
/// request that could not be sent, or else a generic failure.
pub fn request_error(url: &str, failure: &RequestFailure) -> (r: AppError)
    ensures
        request_error_spec(url@, *failure, r),
{
    let url = url.to_owned();
    if failure.is_body {
        if failure.incomplete_message == Some(true) {
            AppError::IncompleteBody { url }
        } else {
            AppError::FetchBody { url }
        }
    } else if failure.is_request {
        AppError::FetchRequest { url }
    } else {
        AppError::Fetch { url }
    }
}

/// Whether an HTTP status means success.
pub open spec fn is_success(status: u16) -> bool {
    200 <= status <= 299
}

/// Accepts a response of a success status; any other is a `Fetch` failure of `url`.
pub fn check_status(url: &str, status: u16) -> (r: Result<(), AppError>)
    ensures
        r is Ok <==> is_success(status),
        r matches Err(e) ==> e is Fetch && error_url(e) == url@,
{
    if 200 <= status && status <= 299 {
        Ok(())
    } else {
        Err(AppError::Fetch { url: url.to_owned() })
    }
}

/// The hosts that a text in the given format lists.
pub open spec fn body_names(kind: SourceType, body: Seq<char>) -> Set<Seq<char>> {
    match kind {
        SourceType::DomainList => domain_list_names(body),
        SourceType::HostsFile => hosts_file_names(body),
    }
}

/// Which error a failed read of a body is, for the source at `url`: a failure of the body
/// itself is classified as [`request_error`] does (cut short, or unreadable); any other
/// failure means the body could not be decoded as text.
pub open spec fn body_error_spec(url: Seq<char>, f: RequestFailure, e: AppError) -> bool {
    if f.is_body {
        request_error_spec(url, f, e)
    } else {
        e is FetchParse && error_url(e) == url
    }
}

/// The hosts of a source's body, read in the source's format. When reading the body failed,
/// the failure is classified: a connection dropped mid-transfer, a body unreadable for
/// another reason, or a body that could not be decoded as text.
pub fn hosts_from_body(source: &Source, body: Result<String, RequestFailure>) -> (r: Result<HostSet, AppError>)
    ensures
        r is Ok <==> body is Ok,
        r matches Ok(set) ==> set@ == body_names(source.source_type, body->Ok_0@),
        r matches Err(e) ==> body_error_spec(source.url@, body->Err_0, e),
{
    match body {
        Ok(text) => {
            let mut set = HostSet::new();
            match source.source_type {
                SourceType::DomainList => domainlist(text.as_str(), &mut set),
                SourceType::HostsFile => hostfile(text.as_str(), &mut set),
            }
            assert(set@ =~= body_names(source.source_type, text@));
            Ok(set)
        },
        Err(failure) => {
            if failure.is_body {
                Err(request_error(source.url, &failure))
            } else {
                Err(AppError::FetchParse { url: source.url.to_owned() })
            }
        },
    }
}

/// `r` is a success that holds `n`.
pub open spec fn ok_has(r: Result<HostSet, AppError>, n: Seq<char>) -> bool {
    r matches Ok(s) && s@.contains(n)
}

/// The hosts of every source that succeeded.
pub open spec fn merged_names(rs: Seq<Result<HostSet, AppError>>) -> Set<Seq<char>> {
    Set::new(|n: Seq<char>| exists|k: int| 0 <= k < rs.len() && #[trigger] ok_has(rs[k], n))
}

/// The failures among `rs`, in order.
pub open spec fn failures(rs: Seq<Result<HostSet, AppError>>) -> Seq<AppError>
    decreases rs.len(),
{
    if rs.len() == 0 {
        seq![]
    } else {
        let before = failures(rs.drop_last());
        match rs.last() {
            Ok(_) => before,
            Err(e) => before.push(e),
        }
    }
}

/// Folds the outcome of every source into `set`: the hosts of each success are added, and
/// the failures are handed back, in order, without stopping the others.
pub fn merge_results(results: Vec<Result<HostSet, AppError>>, set: &mut HostSet) -> (r: Vec<AppError>)
    ensures
        final(set)@ == old(set)@.union(merged_names(results@)),
        r@ == failures(results@),
{
    let ghost all = results@;
    let ghost start = set@;
    let mut rest = results;
    let mut errors: Vec<AppError> = Vec::new();
    let total = rest.len();
    let mut i: usize = 0;
    assert(merged_names(all.subrange(0, 0)) =~= Set::empty());
    assert(set@ =~= start.union(merged_names(all.subrange(0, 0))));
    assert(all.subrange(0, 0) =~= seq![]);
    while rest.len() > 0
        invariant
            i <= all.len(),
            total == all.len(),
            rest@ == all.subrange(i as int, all.len() as int),
            set@ == start.union(merged_names(all.subrange(0, i as int))),
            errors@ == failures(all.subrange(0, i as int)),
        decreases rest@.len(),
    {
        let outcome = rest.remove(0);
        assert(outcome == all[i as int]);
        let ghost prefix = all.subrange(0, i as int);
        let ghost next = all.subrange(0, i + 1);
        assert(next.drop_last() =~= prefix);
        assert(next.last() == outcome);
        match outcome {
            Ok(hosts) => {
                let ghost got = hosts@;
                set.absorb(hosts);
                assert(merged_names(next) =~= merged_names(prefix).union(got)) by {
                    assert forall|n: Seq<char>| merged_names(next).contains(n) implies merged_names(prefix).contains(n) || got.contains(n) by {
                        let k = choose|k: int| 0 <= k < next.len() && #[trigger] ok_has(next[k], n);
                        if k < i {
                            assert(next[k] == prefix[k]);
                        }
                    }
                    assert forall|n: Seq<char>| merged_names(prefix).contains(n) implies merged_names(next).contains(n) by {
                        let k = choose|k: int| 0 <= k < prefix.len() && #[trigger] ok_has(prefix[k], n);
                        assert(next[k] == prefix[k]);
                    }
                    assert forall|n: Seq<char>| got.contains(n) implies merged_names(next).contains(n) by {
                        assert(next[i as int] == all[i as int]);
                        assert(ok_has(next[i as int], n));
                    }
                }
            },
            Err(e) => {
                errors.push(e);
                assert(merged_names(next) =~= merged_names(prefix)) by {
                    assert forall|n: Seq<char>| merged_names(next).contains(n) implies merged_names(prefix).contains(n) by {
                        let k = choose|k: int| 0 <= k < next.len() && #[trigger] ok_has(next[k], n);
                        assert(next[k] == prefix[k]);
                    }
                    assert forall|n: Seq<char>| merged_names(prefix).contains(n) implies merged_names(next).contains(n) by {
                        let k = choose|k: int| 0 <= k < prefix.len() && #[trigger] ok_has(prefix[k], n);
                        assert(next[k] == prefix[k]);
                    }
                }
            },
        }
        i = i + 1;
        assert(rest@ =~= all.subrange(i as int, all.len() as int));
    }
    assert(all.subrange(0, i as int) =~= all);
    errors
}

/// The merged hosts do not depend on the order in which the sources completed: any
/// reordering of the same outcomes gives the same union.
pub proof fn merge_ignores_order(a: Seq<Result<HostSet, AppError>>, b: Seq<Result<HostSet, AppError>>)
    requires
        a.to_multiset() == b.to_multiset(),
    ensures
        merged_names(a) == merged_names(b),
{
    broadcast use vstd::seq_lib::group_to_multiset_ensures;

    assert forall|n: Seq<char>| merged_names(a).contains(n) implies merged_names(b).contains(n) by {
        let k = choose|k: int| 0 <= k < a.len() && #[trigger] ok_has(a[k], n);
        assert(a.contains(a[k]));
        assert(a.to_multiset().count(a[k]) > 0);
        assert(b.to_multiset().count(a[k]) > 0);
        assert(b.contains(a[k]));
        let j = choose|j: int| 0 <= j < b.len() && b[j] == a[k];
        assert(ok_has(b[j], n));
    }
    assert forall|n: Seq<char>| merged_names(b).contains(n) implies merged_names(a).contains(n) by {
        let k = choose|k: int| 0 <= k < b.len() && #[trigger] ok_has(b[k], n);
        assert(b.contains(b[k]));
        assert(b.to_multiset().count(b[k]) > 0);
        assert(a.to_multiset().count(b[k]) > 0);
        assert(a.contains(b[k]));
        let j = choose|j: int| 0 <= j < a.len() && a[j] == b[k];
        assert(ok_has(a[j], n));
    }
    assert(merged_names(a) =~= merged_names(b));
}

} // verus!
