//! The working set of blocked hosts, keyed by canonical name.
use std::collections::HashSet;
use vstd::prelude::*;

use crate::host::Host;

verus! {

#[verifier::external_type_specification]
#[verifier::external_body]
pub struct ExRandomState(ahash::RandomState);

/// The names that a hash set holds, as character sequences.
pub uninterp spec fn names_in(s: HashSet<String, ahash::RandomState>) -> Set<Seq<char>>;

/// Lexicographic order on character sequences, which is `String`'s `Ord`.
pub open spec fn lex_le(a: Seq<char>, b: Seq<char>) -> bool
    decreases a.len(),
{
    if a.len() == 0 {
        true
    } else if b.len() == 0 {
        false
    } else if a[0] != b[0] {
        a[0] < b[0]
    } else {
        lex_le(a.drop_first(), b.drop_first())
    }
}

/// The views of a vector of strings.
pub open spec fn views_of(v: Seq<String>) -> Seq<Seq<char>> {
    v.map_values(|s: String| s@)
}

/// Every name is at most the next one.
pub open spec fn is_sorted(v: Seq<Seq<char>>) -> bool {
    forall|i: int, j: int| 0 <= i < j < v.len() ==> lex_le(#[trigger] v[i], #[trigger] v[j])
}

/// Relies on `HashSet::default` with ahash's `RandomState`: a new set is empty.
#[verifier::external_body]
fn empty_names() -> (r: HashSet<String, ahash::RandomState>)
    ensures
        names_in(r) == Set::<Seq<char>>::empty(),
{
    HashSet::default()
}

/// Relies on `HashSet::insert`: adds `k`, and tells whether it was absent.
#[verifier::external_body]
fn insert_name(s: &mut HashSet<String, ahash::RandomState>, k: String) -> (r: bool)
    ensures
        names_in(*final(s)) == names_in(*old(s)).insert(k@),
        r == !names_in(*old(s)).contains(k@),
{
    s.insert(k)
}

/// Relies on `HashSet::remove`: takes `k` out, and tells whether it was present.
#[verifier::external_body]
fn remove_name(s: &mut HashSet<String, ahash::RandomState>, k: &str) -> (r: bool)
    ensures
        names_in(*final(s)) == names_in(*old(s)).remove(k@),
        r == names_in(*old(s)).contains(k@),
{
    s.remove(k)
}

/// Relies on `HashSet::contains`.
#[verifier::external_body]
fn contains_name(s: &HashSet<String, ahash::RandomState>, k: &str) -> (r: bool)
    ensures
        r == names_in(*s).contains(k@),
{
    s.contains(k)
}

/// Relies on `HashSet::len`: the number of names held.
#[verifier::external_body]
fn count_names(s: &HashSet<String, ahash::RandomState>) -> (r: usize)
    ensures
        r == names_in(*s).len(),
{
    s.len()
}

/// Relies on `HashSet::into_iter`: each name held, once, in some order.
#[verifier::external_body]
fn drain_names(s: HashSet<String, ahash::RandomState>) -> (r: Vec<String>)
    ensures
        views_of(r@).to_set() == names_in(s),
        views_of(r@).no_duplicates(),
{
    s.into_iter().collect()
}

/// Relies on `slice::sort` over `String`, whose order is lexicographic by character.
#[verifier::external_body]
fn sort_names(v: &mut Vec<String>)
    ensures
        views_of(final(v)@).to_multiset() == views_of(old(v)@).to_multiset(),
        is_sorted(views_of(final(v)@)),
{
    v.sort()
}

/// A set of hosts without duplicates: two hosts are the same when their canonical names are.
pub struct HostSet {
    names: HashSet<String, ahash::RandomState>,
}

impl View for HostSet {
    type V = Set<Seq<char>>;

    closed spec fn view(&self) -> Set<Seq<char>> {
        names_in(self.names)
    }
}

impl HostSet {
    /// An empty set.
    pub fn new() -> (r: HostSet)
        ensures
            r@ == Set::<Seq<char>>::empty(),
    {
        HostSet { names: empty_names() }
    }

    /// Adds a host; true when it was not there yet.
    pub fn insert(&mut self, host: Host) -> (r: bool)
        ensures
            final(self)@ == old(self)@.insert(host@.1),
            r == !old(self)@.contains(host@.1),
    {
        insert_name(&mut self.names, host.name)
    }

    /// Removes the host of canonical name `name`; true when it was there.
    pub fn remove_name(&mut self, name: &str) -> (r: bool)
        ensures
            final(self)@ == old(self)@.remove(name@),
            r == old(self)@.contains(name@),
    {
        remove_name(&mut self.names, name)
    }

    /// Removes a host; true when it was there.
    pub fn remove(&mut self, host: &Host) -> (r: bool)
        ensures
            final(self)@ == old(self)@.remove(host@.1),
            r == old(self)@.contains(host@.1),
    {
        remove_name(&mut self.names, host.name.as_str())
    }

    /// Whether the host is in the set.
    pub fn contains(&self, host: &Host) -> (r: bool)
        ensures
            r == self@.contains(host@.1),
    {
        contains_name(&self.names, host.name.as_str())
    }

    /// The number of hosts held.
    pub fn len(&self) -> (r: usize)
        ensures
            r == self@.len(),
    {
        count_names(&self.names)
    }

    /// Moves every host of `other` into this set, leaving `other` empty.
    pub fn absorb(&mut self, other: HostSet)
        ensures
            final(self)@ == old(self)@.union(other@),
    {
        let names = drain_names(other.names);
        let ghost start = self@;
        let ghost all = views_of(names@);
        let mut i: usize = 0;
        while i < names.len()
            invariant
                i <= names@.len(),
                all == views_of(names@),
                self@ == start.union(Set::new(|n: Seq<char>| exists|k: int| 0 <= k < i && all[k] == n)),
            decreases names@.len() - i,
        {
            let name = names[i].clone();
            insert_name(&mut self.names, name);
            i = i + 1;
            proof {
                assert(all[i - 1] == names@[i - 1]@);
                assert(self@ =~= start.union(Set::new(|n: Seq<char>| exists|k: int| 0 <= k < i && all[k] == n)));
            }
        }
        proof {
            assert forall|n: Seq<char>| all.to_set().contains(n) implies exists|k: int| 0 <= k < i && all[k] == n by {
                assert(all.contains(n));
            }
            assert forall|n: Seq<char>| (exists|k: int| 0 <= k < i && all[k] == n) implies all.to_set().contains(n) by {
                let k = choose|k: int| 0 <= k < i && all[k] == n;
                assert(all.contains(all[k]));
            }
            assert(self@ =~= start.union(other@));
        }
    }
    /// Consumes the set into its names, each once, in ascending order.
    pub fn into_sorted(self) -> (r: Vec<String>)
        ensures
            views_of(r@).to_set() == self@,
            views_of(r@).no_duplicates(),
            is_sorted(views_of(r@)),
    {
        let mut names = drain_names(self.names);
        let ghost before = views_of(names@);
        sort_names(&mut names);
        proof {
            let after = views_of(names@);
            before.lemma_multiset_has_no_duplicates();
            assert forall|x: Seq<char>| after.to_multiset().contains(x) implies after.to_multiset().count(x) == 1 by {
                assert(before.to_multiset().contains(x));
            }
            after.lemma_multiset_has_no_duplicates_conv();
            assert forall|x: Seq<char>| after.to_set().contains(x) == before.to_set().contains(x) by {
                broadcast use vstd::seq_lib::group_to_multiset_ensures;
                assert(after.contains(x) <==> after.to_multiset().count(x) > 0);
                assert(before.contains(x) <==> before.to_multiset().count(x) > 0);
            }
            assert(after.to_set() =~= before.to_set());
        }
        names
    }
}

} // verus!
