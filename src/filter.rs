//! The allowlist: removes allowed hosts, and the blocked parent domains of allowed domains.
use vstd::prelude::*;

use crate::config::Filters;
use crate::host::{host_of, parse_host, Host};
use crate::host_set::HostSet;
use crate::text::{chars_of, string_from};

verus! {

/// The length of the leftmost label of `d`: the characters before its first dot.
pub open spec fn label_len(d: Seq<char>) -> nat
    decreases d.len(),
{
    if d.len() == 0 || d[0] == '.' {
        0
    } else {
        1 + label_len(d.drop_first())
    }
}

/// The parent domains of the domain name `d`, nearest first: each one is what is left after
/// its leftmost label is cut off, as long as what is left still holds a dot. So the
/// second-level domain is the last one, and the top-level domain never is one.
pub open spec fn ancestors(d: Seq<char>) -> Seq<Seq<char>>
    decreases d.len(),
{
    let p = label_len(d);
    if p < d.len() {
        let rest = d.subrange(p + 1 as int, d.len() as int);
        if label_len(rest) < rest.len() {
            seq![rest] + ancestors(rest)
        } else {
            seq![]
        }
    } else {
        seq![]
    }
}

/// The names that the allowlist entry `e` takes out of a blocklist: the host it names and,
/// for a domain, its parent domains. An entry that is no valid host takes out nothing.
pub open spec fn allow_removes(e: Seq<char>) -> Set<Seq<char>> {
    match host_of(e) {
        Some(h) => if h.0 {
            ancestors(h.1).to_set().insert(h.1)
        } else {
            set![h.1]
        },
        None => Set::empty(),
    }
}

/// The names that the allowlist entries `es` take out of a blocklist.
pub open spec fn allow_removes_all(es: Seq<Seq<char>>) -> Set<Seq<char>> {
    Set::new(|n: Seq<char>| exists|k: int| 0 <= k < es.len() && #[trigger] allow_removes(es[k]).contains(n))
}

proof fn lemma_label_len(s: Seq<char>, from: int, r: int)
    requires
        0 <= from <= r <= s.len(),
        forall|k: int| from <= k < r ==> s[k] != '.',
        r < s.len() ==> s[r] == '.',
    ensures
        label_len(s.subrange(from, s.len() as int)) == r - from,
    decreases r - from,
{
    let t = s.subrange(from, s.len() as int);
    if from < r {
        assert(t.drop_first() =~= s.subrange(from + 1, s.len() as int));
        lemma_label_len(s, from + 1, r);
    }
}

proof fn lemma_ancestors_shorter(d: Seq<char>)
    ensures
        ancestors(d).no_duplicates(),
        forall|k: int| 0 <= k < ancestors(d).len() ==> (#[trigger] ancestors(d)[k]).len() < d.len(),
    decreases d.len(),
{
    let p = label_len(d);
    if p < d.len() {
        let rest = d.subrange(p + 1 as int, d.len() as int);
        if label_len(rest) < rest.len() {
            lemma_ancestors_shorter(rest);
            let a = ancestors(d);
            assert(a == seq![rest] + ancestors(rest));
            assert forall|k: int| 0 <= k < a.len() implies (#[trigger] a[k]).len() < d.len() by {
                if k > 0 {
                    assert(a[k] == ancestors(rest)[k - 1]);
                }
            }
            assert forall|x: int, y: int| 0 <= x < a.len() && 0 <= y < a.len() && x != y implies a[x] != a[y] by {
                if x > 0 && y > 0 {
                    assert(a[x] == ancestors(rest)[x - 1]);
                    assert(a[y] == ancestors(rest)[y - 1]);
                } else if x == 0 {
                    assert(a[y] == ancestors(rest)[y - 1]);
                } else {
                    assert(a[x] == ancestors(rest)[x - 1]);
                }
            }
        }
    }
}

/// The first index at or after `from` that holds a dot, or the length of `s`.
fn dot_from(s: &Vec<char>, from: usize) -> (r: usize)
    requires
        from <= s@.len(),
    ensures
        from <= r <= s@.len(),
        forall|k: int| from <= k < r ==> s@[k] != '.',
        r < s@.len() ==> s@[r as int] == '.',
{
    let mut r = from;
    while r < s.len() && s[r] != '.'
        invariant
            from <= r <= s@.len(),
            forall|k: int| from <= k < r ==> s@[k] != '.',
        decreases s@.len() - r,
    {
        r = r + 1;
    }
    r
}

/// The parent domains of a domain host, nearest first (see [`ancestors`]); `None` for an IP
/// literal, and for a domain without any, such as a top-level or second-level domain.
pub fn parent_domains(domain: &Host) -> (r: Option<Vec<Host>>)
    ensures
        r is None <==> !domain@.0 || ancestors(domain@.1).len() == 0,
        r matches Some(v) ==> v@.len() == ancestors(domain@.1).len() && forall|k: int|
            0 <= k < v@.len() ==> (#[trigger] v@[k])@ == (true, ancestors(domain@.1)[k]),
{
    if !domain.domain {
        return None;
    }
    let s = chars_of(domain.name.as_str());
    let ghost d = s@;
    let n = s.len();
    let mut result: Vec<Host> = Vec::new();
    let mut from: usize = 0;
    let mut q = dot_from(&s, 0);
    assert(s@.subrange(0, n as int) =~= d);
    proof {
        lemma_label_len(d, 0, q as int);
    }
    while q < n
        invariant
            n == d.len(),
            s@ == d,
            d == domain@.1,
            from <= q <= n,
            q == from + label_len(d.subrange(from as int, n as int)),
            result@.len() + ancestors(d.subrange(from as int, n as int)).len() == ancestors(d).len(),
            forall|k: int| 0 <= k < result@.len() ==> (#[trigger] result@[k])@ == (true, ancestors(d)[k]),
            forall|k: int| 0 <= k < ancestors(d.subrange(from as int, n as int)).len()
                ==> #[trigger] ancestors(d.subrange(from as int, n as int))[k] == ancestors(d)[result@.len() + k],
        decreases n - from,
    {
        let ghost cur = d.subrange(from as int, n as int);
        let r = dot_from(&s, q + 1);
        proof {
            lemma_label_len(d, q + 1, r as int);
            assert(cur.subrange(q - from + 1, cur.len() as int) =~= d.subrange(q + 1, n as int));
        }
        if r < n {
            let ghost rest = d.subrange(q + 1, n as int);
            assert(ancestors(cur) == seq![rest] + ancestors(rest));
            let ghost k0 = result@.len();
            assert(ancestors(cur)[0] == ancestors(d)[k0 as int]);
            result.push(Host::domain_from(string_from(&s, q + 1, n)));
            assert forall|k: int| 0 <= k < ancestors(rest).len() implies #[trigger] ancestors(rest)[k]
                == ancestors(d)[result@.len() + k] by {
                assert(ancestors(cur)[k + 1] == ancestors(rest)[k]);
            }
            from = q + 1;
            q = r;
        } else {
            assert(ancestors(cur) =~= seq![]);
            assert(d.subrange(n as int, n as int) =~= seq![]);
            from = n;
            q = n;
        }
    }
    assert(ancestors(d.subrange(from as int, n as int)) =~= seq![]);
    if result.len() == 0 {
        None
    } else {
        Some(result)
    }
}

/// What one allowlist entry did to a blocklist.
pub enum AllowOutcome {
    /// The entry is no valid host, and was ignored.
    Invalid,
    /// The entry named a host: the parent domains that were taken out, nearest first, and
    /// whether the host itself was taken out.
    Applied { parents_removed: Vec<String>, removed: bool },
}

/// The views of a vector of strings.
pub open spec fn string_views(v: Seq<String>) -> Seq<Seq<char>> {
    v.map_values(|x: String| x@)
}

/// What applying the allowlist entry `e` to a blocklist holding `before` reports: `Invalid`
/// exactly when `e` is no valid host; else the parent domains that were blocked, nearest
/// first, and whether the host itself was blocked.
pub open spec fn outcome_of(before: Set<Seq<char>>, e: Seq<char>, o: AllowOutcome) -> bool {
    &&& o is Invalid <==> host_of(e) is None
    &&& o matches AllowOutcome::Applied { parents_removed, removed } ==> {
        let h = host_of(e)->0;
        &&& removed == before.contains(h.1)
        &&& string_views(parents_removed@) == (if h.0 {
            ancestors(h.1)
        } else {
            seq![]
        }).filter(|a: Seq<char>| before.contains(a))
    }
}

/// Applies one allowlist entry to `blocklist`: removes the host that it names and, for a
/// domain, those of its parent domains that are blocked.
pub fn apply_allowed(blocklist: &mut HostSet, entry: &str) -> (r: AllowOutcome)
    ensures
        final(blocklist)@ == old(blocklist)@.difference(allow_removes(entry@)),
        outcome_of(old(blocklist)@, entry@, r),
{
    let value = match parse_host(entry) {
        Some(h) => h,
        None => {
            assert(final(blocklist)@ =~= old(blocklist)@.difference(allow_removes(entry@)));
            return AllowOutcome::Invalid;
        },
    };
    let ghost h = value@;
    let ghost start = blocklist@;
    let ghost anc: Seq<Seq<char>> = if h.0 {
        ancestors(h.1)
    } else {
        seq![]
    };
    let ghost keep = |a: Seq<char>| start.contains(a);
    proof {
        lemma_ancestors_shorter(h.1);
    }
    assert(forall|x: Seq<char>| #[trigger] keep(x) == start.contains(x));
    let mut parents_removed: Vec<String> = Vec::new();
    if let Some(parents) = parent_domains(&value) {
        let mut i: usize = 0;
        while i < parents.len()
            invariant
                i <= parents@.len(),
                h.0,
                anc == ancestors(h.1),
                anc.no_duplicates(),
                forall|x: Seq<char>| #[trigger] keep(x) == start.contains(x),
                parents@.len() == anc.len(),
                forall|k: int| 0 <= k < parents@.len() ==> (#[trigger] parents@[k])@ == (true, anc[k]),
                blocklist@ == start.difference(anc.subrange(0, i as int).to_set()),
                string_views(parents_removed@) == anc.subrange(0, i as int).filter(keep),
            decreases parents@.len() - i,
        {
            let ghost a = anc[i as int];
            assert(!anc.subrange(0, i as int).contains(a)) by {
                if anc.subrange(0, i as int).contains(a) {
                    let k = choose|k: int| 0 <= k < i && anc.subrange(0, i as int)[k] == a;
                    assert(anc[k] == anc[i as int]);
                }
            }
            assert(parents@[i as int]@ == (true, a));
            assert(!anc.subrange(0, i as int).to_set().contains(a));
            let present = blocklist.remove_name(parents[i].name.as_str());
            assert(anc.subrange(0, i + 1) == anc.subrange(0, i as int).push(a));
            let ghost before = string_views(parents_removed@);
            proof {
                reveal(Seq::filter);
                assert(anc.subrange(0, i + 1).drop_last() == anc.subrange(0, i as int));
                assert(anc.subrange(0, i + 1).last() == a);
                assert(present == start.contains(a));
                assert(keep(a) == start.contains(a));
                assert(anc.subrange(0, i + 1).filter(keep) == if keep(a) {
                    before.push(a)
                } else {
                    before
                });
            }
            if present {
                parents_removed.push(parents[i].name.clone());
                assert(string_views(parents_removed@) =~= before.push(a));
            }
            assert(blocklist@ =~= start.difference(anc.subrange(0, i + 1).to_set()));
            i = i + 1;
        }
        assert(anc.subrange(0, i as int) == anc);
    } else {
        assert(anc =~= seq![]);
        assert(anc.filter(keep) =~= seq![]) by {
            reveal(Seq::filter);
        }
        assert(blocklist@ =~= start.difference(anc.to_set()));
    }
    assert(!anc.contains(h.1)) by {
        if anc.contains(h.1) {
            let k = choose|k: int| 0 <= k < anc.len() && anc[k] == h.1;
            assert(anc[k].len() < h.1.len());
        }
    }
    let removed = blocklist.remove(&value);
    assert(final(blocklist)@ =~= old(blocklist)@.difference(allow_removes(entry@)));
    assert(string_views(parents_removed@) == anc.filter(keep));
    AllowOutcome::Applied { parents_removed, removed }
}

/// The allowlist entries of `filters`, as character sequences.
pub open spec fn allowed_views(filters: Filters) -> Seq<Seq<char>> {
    match filters.allowed_names {
        Some(v) => string_views(v@),
        None => seq![],
    }
}

/// Applies every allowlist entry of `filters` to `blocklist`, in order, and tells what each
/// one did.
pub fn filter_blocklist(blocklist: &mut HostSet, filters: &Filters) -> (r: Vec<AllowOutcome>)
    ensures
        final(blocklist)@ == old(blocklist)@.difference(allow_removes_all(allowed_views(*filters))),
        r@.len() == allowed_views(*filters).len(),
        forall|k: int|
            0 <= k < r@.len() ==> outcome_of(
                old(blocklist)@.difference(allow_removes_all(allowed_views(*filters).subrange(0, k))),
                allowed_views(*filters)[k],
                #[trigger] r@[k],
            ),
{
    let mut outcomes: Vec<AllowOutcome> = Vec::new();
    let ghost es = allowed_views(*filters);
    let ghost start = blocklist@;
    if let Some(names) = &filters.allowed_names {
        let mut i: usize = 0;
        assert(allow_removes_all(es.subrange(0, 0)) =~= Set::empty());
        assert(blocklist@ =~= start.difference(allow_removes_all(es.subrange(0, 0))));
        while i < names.len()
            invariant
                i <= names@.len(),
                es == string_views(names@),
                blocklist@ == start.difference(allow_removes_all(es.subrange(0, i as int))),
                outcomes@.len() == i,
                forall|k: int|
                    0 <= k < i ==> outcome_of(
                        start.difference(allow_removes_all(es.subrange(0, k))),
                        es[k],
                        #[trigger] outcomes@[k],
                    ),
            decreases names@.len() - i,
        {
            let outcome = apply_allowed(blocklist, names[i].as_str());
            outcomes.push(outcome);
            assert(outcomes@[i as int] == outcome);
            assert(es[i as int] == names@[i as int]@);
            assert(allow_removes_all(es.subrange(0, i + 1)) =~= allow_removes_all(es.subrange(0, i as int)).union(
                allow_removes(es[i as int]),
            )) by {
                assert forall|n: Seq<char>| allow_removes_all(es.subrange(0, i + 1)).contains(n) implies allow_removes_all(
                    es.subrange(0, i as int),
                ).contains(n) || allow_removes(es[i as int]).contains(n) by {
                    let k = choose|k: int| 0 <= k < i + 1 && #[trigger] allow_removes(es.subrange(0, i + 1)[k]).contains(n);
                    if k < i {
                        assert(es.subrange(0, i as int)[k] == es.subrange(0, i + 1)[k]);
                    }
                }
                assert forall|n: Seq<char>| allow_removes_all(es.subrange(0, i as int)).contains(n) implies allow_removes_all(
                    es.subrange(0, i + 1),
                ).contains(n) by {
                    let k = choose|k: int| 0 <= k < i && #[trigger] allow_removes(es.subrange(0, i as int)[k]).contains(n);
                    assert(es.subrange(0, i as int)[k] == es.subrange(0, i + 1)[k]);
                }
                assert forall|n: Seq<char>| allow_removes(es[i as int]).contains(n) implies allow_removes_all(
                    es.subrange(0, i + 1),
                ).contains(n) by {
                    assert(es.subrange(0, i + 1)[i as int] == es[i as int]);
                }
            }
            assert(blocklist@ =~= start.difference(allow_removes_all(es.subrange(0, i + 1))));
            i = i + 1;
        }
        assert(es.subrange(0, i as int) =~= es);
    } else {
        assert(allow_removes_all(es) =~= Set::empty());
        assert(blocklist@ =~= start.difference(allow_removes_all(es)));
    }
    outcomes
}

/// `m` is what is left of `d` once one or more leading labels are cut off, and it still holds
/// a dot.
pub open spec fn is_parent_of(m: Seq<char>, d: Seq<char>) -> bool {
    &&& exists|k: int| 0 < k < d.len() && d[k - 1] == '.' && m == #[trigger] d.subrange(k, d.len() as int)
    &&& m.contains('.')
}

proof fn lemma_label_len_dot(d: Seq<char>)
    ensures
        label_len(d) <= d.len(),
        label_len(d) < d.len() ==> d[label_len(d) as int] == '.',
    decreases d.len(),
{
    if d.len() > 0 && d[0] != '.' {
        lemma_label_len_dot(d.drop_first());
    }
}

proof fn lemma_ancestors_are_parents(d: Seq<char>)
    ensures
        forall|k: int| 0 <= k < ancestors(d).len() ==> is_parent_of(#[trigger] ancestors(d)[k], d),
    decreases d.len(),
{
    lemma_label_len_dot(d);
    let p = label_len(d);
    if p < d.len() {
        let rest = d.subrange(p + 1 as int, d.len() as int);
        lemma_label_len_dot(rest);
        if label_len(rest) < rest.len() {
            lemma_ancestors_are_parents(rest);
            let a = ancestors(d);
            assert(a == seq![rest] + ancestors(rest));
            assert(rest[label_len(rest) as int] == '.');
            assert(rest.contains('.'));
            assert forall|k: int| 0 <= k < a.len() implies is_parent_of(#[trigger] a[k], d) by {
                if k == 0 {
                    assert(d.subrange(p + 1 as int, d.len() as int) == rest);
                } else {
                    let m = ancestors(rest)[k - 1];
                    assert(a[k] == m);
                    assert(is_parent_of(m, rest));
                    let j = choose|j: int|
                        0 < j < rest.len() && rest[j - 1] == '.' && m == #[trigger] rest.subrange(j, rest.len() as int);
                    assert(d[p + j] == rest[j - 1]);
                    assert(m =~= d.subrange(p + 1 + j, d.len() as int));
                }
            }
        }
    }
}

/// An allowlist entry takes out nothing but the host it names and, for a domain, parents of
/// that domain: what is left of it once leading labels are cut off, never a top-level domain.
/// In particular no subdomain of an allowed domain is ever taken out.
pub proof fn allowlist_takes_out_only_entry_and_parents(e: Seq<char>, n: Seq<char>)
    requires
        allow_removes(e).contains(n),
    ensures
        host_of(e) is Some,
        n == (host_of(e)->0).1 || ((host_of(e)->0).0 && is_parent_of(n, (host_of(e)->0).1)),
{
    let h = host_of(e)->0;
    if h.0 && n != h.1 {
        lemma_ancestors_are_parents(h.1);
        assert(ancestors(h.1).contains(n));
    }
}

} // verus!
