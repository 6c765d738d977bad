//! The two line formats of blocklists: one host per line, and hosts-file lines.
use vstd::prelude::*;

use crate::host::{host_of, parse_host};
use crate::host_set::HostSet;
use crate::text::{chars_of, char_is_space, is_space, string_from};

verus! {

/// `s[i..j]` is a whole line of `s`: bounded by newlines or by the ends of `s`.
pub open spec fn is_line(s: Seq<char>, i: int, j: int) -> bool {
    &&& 0 <= i <= j <= s.len()
    &&& i == 0 || s[i - 1] == '\n'
    &&& j == s.len() || s[j] == '\n'
    &&& forall|k: int| i <= k < j ==> s[k] != '\n'
}

/// `s[a..b]` is what is left of `s[i..j]` once blanks are trimmed from both ends, and it is
/// not empty.
pub open spec fn is_trim(s: Seq<char>, i: int, j: int, a: int, b: int) -> bool {
    &&& i <= a < b <= j
    &&& !is_space(s[a])
    &&& !is_space(s[b - 1])
    &&& forall|k: int| i <= k < a ==> is_space(s[k])
    &&& forall|k: int| b <= k < j ==> is_space(s[k])
}

/// `s[f]` is the first character of `s[i..j]` that is not blank.
pub open spec fn first_text(s: Seq<char>, i: int, j: int, f: int) -> bool {
    &&& i <= f < j
    &&& !is_space(s[f])
    &&& forall|k: int| i <= k < f ==> is_space(s[k])
}

/// `s[a..b]` is a word of `s[i..j]`: a longest run of characters that are not blank.
pub open spec fn is_word(s: Seq<char>, i: int, j: int, a: int, b: int) -> bool {
    &&& i <= a < b <= j
    &&& a == i || is_space(s[a - 1])
    &&& b == j || is_space(s[b])
    &&& forall|k: int| a <= k < b ==> !is_space(s[k])
}

/// `t` parses as a host whose canonical name is `n`.
pub open spec fn names_host(t: Seq<char>, n: Seq<char>) -> bool {
    host_of(t) is Some && (host_of(t)->0).1 == n
}

/// In the one-host-per-line format, the line `s[i..j]` lists `n`: trimmed, it is not empty,
/// does not start with `#`, and parses as a host named `n`.
pub open spec fn domain_entry(s: Seq<char>, i: int, j: int, n: Seq<char>) -> bool {
    exists|a: int, b: int|
        is_trim(s, i, j, a, b) && s[a] != '#' && names_host(#[trigger] s.subrange(a, b), n)
}

/// In the hosts-file format, the line `s[i..j]` lists `n`: the line is no comment, and a word
/// after its first one (the address) parses as a host named `n`.
pub open spec fn hosts_entry(s: Seq<char>, i: int, j: int, n: Seq<char>) -> bool {
    exists|f: int, a: int, b: int|
        #![trigger first_text(s, i, j, f), s.subrange(a, b)]
        first_text(s, i, j, f) && s[f] != '#' && is_word(s, i, j, a, b) && f < a && names_host(
            s.subrange(a, b),
            n,
        )
}

/// The line `s[i..j]` lists `n` in the given format.
pub open spec fn line_entry(s: Seq<char>, i: int, j: int, n: Seq<char>, hosts_format: bool) -> bool {
    if hosts_format {
        hosts_entry(s, i, j, n)
    } else {
        domain_entry(s, i, j, n)
    }
}

/// The names that some line of `s` lists in the given format.
pub open spec fn listed_names(s: Seq<char>, hosts_format: bool) -> Set<Seq<char>> {
    Set::new(|n: Seq<char>| exists|i: int, j: int| is_line(s, i, j) && line_entry(s, i, j, n, hosts_format))
}

/// The names listed by a text in the one-host-per-line format.
pub open spec fn domain_list_names(s: Seq<char>) -> Set<Seq<char>> {
    listed_names(s, false)
}

/// The names listed by a text in the hosts-file format.
pub open spec fn hosts_file_names(s: Seq<char>) -> Set<Seq<char>> {
    listed_names(s, true)
}

/// The first index in `from..to` whose character is not blank, or `to`.
fn skip_space(s: &Vec<char>, from: usize, to: usize) -> (r: usize)
    requires
        from <= to <= s@.len(),
    ensures
        from <= r <= to,
        forall|k: int| from <= k < r ==> is_space(s@[k]),
        r < to ==> !is_space(s@[r as int]),
{
    let mut r = from;
    while r < to && char_is_space(s[r])
        invariant
            from <= r <= to <= s@.len(),
            forall|k: int| from <= k < r ==> is_space(s@[k]),
        decreases to - r,
    {
        r = r + 1;
    }
    r
}

/// The end of the run of characters that are not blank starting at `from`.
fn word_end(s: &Vec<char>, from: usize, to: usize) -> (r: usize)
    requires
        from <= to <= s@.len(),
    ensures
        from <= r <= to,
        forall|k: int| from <= k < r ==> !is_space(s@[k]),
        r < to ==> is_space(s@[r as int]),
{
    let mut r = from;
    while r < to && !char_is_space(s[r])
        invariant
            from <= r <= to <= s@.len(),
            forall|k: int| from <= k < r ==> !is_space(s@[k]),
        decreases to - r,
    {
        r = r + 1;
    }
    r
}

/// One past the last character of `s[from..to]` that is not blank, given that `s[from]` is
/// not blank.
fn text_end(s: &Vec<char>, from: usize, to: usize) -> (r: usize)
    requires
        from < to <= s@.len(),
        !is_space(s@[from as int]),
    ensures
        from < r <= to,
        !is_space(s@[r - 1]),
        forall|k: int| r <= k < to ==> is_space(s@[k]),
{
    let mut r = to;
    while char_is_space(s[r - 1])
        invariant
            from < r <= to <= s@.len(),
            !is_space(s@[from as int]),
            forall|k: int| r <= k < to ==> is_space(s@[k]),
        decreases r,
    {
        r = r - 1;
    }
    r
}

/// Parses `s[a..b]` as a host and adds it to `set` when it is one.
fn add_parsed(s: &Vec<char>, a: usize, b: usize, set: &mut HostSet)
    requires
        a <= b <= s@.len(),
    ensures
        final(set)@ == old(set)@.union(
            Set::new(|n: Seq<char>| names_host(s@.subrange(a as int, b as int), n)),
        ),
{
    let t = string_from(s, a, b);
    match parse_host(t.as_str()) {
        Some(h) => {
            set.insert(h);
            assert(final(set)@ =~= old(set)@.union(
                Set::new(|n: Seq<char>| names_host(s@.subrange(a as int, b as int), n)),
            ));
        },
        None => {
            assert(final(set)@ =~= old(set)@.union(
                Set::new(|n: Seq<char>| names_host(s@.subrange(a as int, b as int), n)),
            ));
        },
    }
}

proof fn lemma_trim_unique(s: Seq<char>, i: int, j: int, a: int, b: int, c: int, d: int)
    requires
        is_trim(s, i, j, a, b),
        is_trim(s, i, j, c, d),
    ensures
        a == c && b == d,
{
    if a < c {
        assert(is_space(s[a]));
    }
    if c < a {
        assert(is_space(s[c]));
    }
    if b < d {
        assert(is_space(s[d - 1]));
    }
    if d < b {
        assert(is_space(s[b - 1]));
    }
}

/// Adds to `set` the host that the line `s[i..j]` lists in the one-host-per-line format.
fn domain_line(s: &Vec<char>, i: usize, j: usize, set: &mut HostSet)
    requires
        i <= j <= s@.len(),
    ensures
        final(set)@ == old(set)@.union(Set::new(|n: Seq<char>| domain_entry(s@, i as int, j as int, n))),
{
    let ghost listed = Set::new(|n: Seq<char>| domain_entry(s@, i as int, j as int, n));
    let a = skip_space(s, i, j);
    if a == j {
        assert(listed =~= Set::empty()) by {
            assert forall|n: Seq<char>| !domain_entry(s@, i as int, j as int, n) by {
                if domain_entry(s@, i as int, j as int, n) {
                    let (c, d) = choose|c: int, d: int|
                        is_trim(s@, i as int, j as int, c, d) && s@[c] != '#' && names_host(
                            #[trigger] s@.subrange(c, d),
                            n,
                        );
                    assert(is_space(s@[c]));
                }
            }
        }
        assert(final(set)@ =~= old(set)@.union(listed));
        return;
    }
    let b = text_end(s, a, j);
    assert(is_trim(s@, i as int, j as int, a as int, b as int));
    proof {
        assert forall|c: int, d: int| #[trigger] is_trim(s@, i as int, j as int, c, d) implies c == a && d == b by {
            lemma_trim_unique(s@, i as int, j as int, a as int, b as int, c, d);
        }
    }
    if s[a] == '#' {
        assert(listed =~= Set::empty());
        assert(final(set)@ =~= old(set)@.union(listed));
        return;
    }
    add_parsed(s, a, b, set);
    assert(listed =~= Set::new(|n: Seq<char>| names_host(s@.subrange(a as int, b as int), n)));
}

/// The names of the words of `s[i..j]` that start after `f` and end by `p`.
spec fn words_until(s: Seq<char>, i: int, j: int, f: int, p: int) -> Set<Seq<char>> {
    Set::new(
        |n: Seq<char>|
            exists|a: int, b: int|
                is_word(s, i, j, a, b) && f < a && b <= p && names_host(#[trigger] s.subrange(a, b), n),
    )
}

proof fn lemma_next_word(s: Seq<char>, i: int, j: int, p: int, a: int, b: int, c: int, d: int)
    requires
        i <= p < a < b <= j <= s.len(),
        is_space(s[p]),
        forall|k: int| p <= k < a ==> is_space(s[k]),
        forall|k: int| a <= k < b ==> !is_space(s[k]),
        b == j || is_space(s[b]),
        is_word(s, i, j, c, d),
        p < d <= b,
    ensures
        c == a && d == b,
{
    assert(!is_space(s[d - 1]));
    if d < b {
        assert(is_space(s[d]));
    }
    if c < a {
        assert(!is_space(s[a - 1]));
    }
    if c > a {
        assert(is_space(s[c - 1]));
    }
}

/// Adds to `set` the hosts that the line `s[i..j]` lists in the hosts-file format.
fn hosts_line(s: &Vec<char>, i: usize, j: usize, set: &mut HostSet)
    requires
        i <= j <= s@.len(),
    ensures
        final(set)@ == old(set)@.union(Set::new(|n: Seq<char>| hosts_entry(s@, i as int, j as int, n))),
{
    let ghost listed = Set::new(|n: Seq<char>| hosts_entry(s@, i as int, j as int, n));
    let f = skip_space(s, i, j);
    if f == j || s[f] == '#' {
        assert(listed =~= Set::empty()) by {
            assert forall|n: Seq<char>| !hosts_entry(s@, i as int, j as int, n) by {
                if hosts_entry(s@, i as int, j as int, n) {
                    let (g, c, d) = choose|g: int, c: int, d: int|
                        #![trigger first_text(s@, i as int, j as int, g), s@.subrange(c, d)]
                        first_text(s@, i as int, j as int, g) && s@[g] != '#' && is_word(
                            s@,
                            i as int,
                            j as int,
                            c,
                            d,
                        ) && g < c && names_host(s@.subrange(c, d), n);
                    assert(!is_space(s@[g]));
                    if g < f {
                        assert(is_space(s@[g]));
                    }
                    if f < g {
                        assert(is_space(s@[f as int]));
                    }
                }
            }
        }
        assert(final(set)@ =~= old(set)@.union(listed));
        return;
    }
    let first_end = word_end(s, f, j);
    let mut p = first_end;
    assert(words_until(s@, i as int, j as int, f as int, p as int) =~= Set::empty()) by {
        assert forall|n: Seq<char>| !words_until(s@, i as int, j as int, f as int, p as int).contains(n) by {
            if words_until(s@, i as int, j as int, f as int, p as int).contains(n) {
                let (c, d) = choose|c: int, d: int|
                    is_word(s@, i as int, j as int, c, d) && f < c && d <= p && names_host(
                        #[trigger] s@.subrange(c, d),
                        n,
                    );
                assert(is_space(s@[c - 1]));
            }
        }
    }
    assert(set@ =~= old(set)@.union(words_until(s@, i as int, j as int, f as int, p as int)));
    while p < j
        invariant
            i <= f < first_end <= p <= j <= s@.len(),
            first_text(s@, i as int, j as int, f as int),
            s@[f as int] != '#',
            p == j || is_space(s@[p as int]),
            set@ == old(set)@.union(words_until(s@, i as int, j as int, f as int, p as int)),
        decreases j - p,
    {
        let a = skip_space(s, p, j);
        if a == j {
            assert(words_until(s@, i as int, j as int, f as int, j as int) =~= words_until(
                s@,
                i as int,
                j as int,
                f as int,
                p as int,
            )) by {
                assert forall|c: int, d: int| #[trigger] is_word(s@, i as int, j as int, c, d) && p < d implies false by {
                    assert(!is_space(s@[d - 1]));
                }
            }
            p = j;
        } else {
            let b = word_end(s, a, j);
            add_parsed(s, a, b, set);
            assert(is_word(s@, i as int, j as int, a as int, b as int));
            assert(words_until(s@, i as int, j as int, f as int, b as int) =~= words_until(
                s@,
                i as int,
                j as int,
                f as int,
                p as int,
            ).union(Set::new(|n: Seq<char>| names_host(s@.subrange(a as int, b as int), n)))) by {
                assert forall|c: int, d: int| #[trigger] is_word(s@, i as int, j as int, c, d) && p < d && d <= b implies c == a && d == b by {
                    lemma_next_word(s@, i as int, j as int, p as int, a as int, b as int, c, d);
                }
            }
            p = b;
        }
    }
    assert(listed =~= words_until(s@, i as int, j as int, f as int, j as int)) by {
        assert forall|g: int| #[trigger] first_text(s@, i as int, j as int, g) implies g == f by {
            if g < f {
                assert(is_space(s@[g]));
            }
            if f < g {
                assert(is_space(s@[f as int]));
            }
        }
    }
}

/// The names listed by the lines of `s` that end before `e`.
spec fn listed_before(s: Seq<char>, e: int, hosts_format: bool) -> Set<Seq<char>> {
    Set::new(
        |n: Seq<char>|
            exists|i: int, j: int| #[trigger] is_line(s, i, j) && j < e && line_entry(s, i, j, n, hosts_format),
    )
}

proof fn lemma_line_unique(s: Seq<char>, start: int, k: int, i: int, j: int)
    requires
        0 <= start <= k <= s.len(),
        start == 0 || s[start - 1] == '\n',
        forall|q: int| start <= q < k ==> s[q] != '\n',
        k == s.len() || s[k] == '\n',
        is_line(s, i, j),
        start <= j <= k,
    ensures
        i == start && j == k,
{
    if j < k {
        assert(s[j] != '\n');
    }
    if i < start {
        assert(s[start - 1] != '\n');
    }
    if i > start {
        assert(s[i - 1] != '\n');
    }
}

/// Adds to `set` the hosts that the line `s[i..j]` lists in the given format.
fn scan_line(s: &Vec<char>, i: usize, j: usize, hosts_format: bool, set: &mut HostSet)
    requires
        i <= j <= s@.len(),
    ensures
        final(set)@ == old(set)@.union(
            Set::new(|n: Seq<char>| line_entry(s@, i as int, j as int, n, hosts_format)),
        ),
{
    if hosts_format {
        hosts_line(s, i, j, set);
        assert(final(set)@ =~= old(set)@.union(
            Set::new(|n: Seq<char>| line_entry(s@, i as int, j as int, n, hosts_format)),
        ));
    } else {
        domain_line(s, i, j, set);
        assert(final(set)@ =~= old(set)@.union(
            Set::new(|n: Seq<char>| line_entry(s@, i as int, j as int, n, hosts_format)),
        ));
    }
}

/// Adds to `set` every host that a line of `s` lists in the given format.
fn scan_lines(s: &Vec<char>, hosts_format: bool, set: &mut HostSet)
    ensures
        final(set)@ == old(set)@.union(listed_names(s@, hosts_format)),
{
    let n = s.len();
    let mut start: usize = 0;
    let mut k: usize = 0;
    assert(listed_before(s@, 0, hosts_format) =~= Set::empty());
    assert(set@ =~= old(set)@.union(listed_before(s@, 0, hosts_format)));
    while k < n
        invariant
            n == s@.len(),
            start <= k <= n,
            start == 0 || s@[start - 1] == '\n',
            forall|q: int| start <= q < k ==> s@[q] != '\n',
            set@ == old(set)@.union(listed_before(s@, start as int, hosts_format)),
        decreases n - k,
    {
        if s[k] == '\n' {
            let ghost before = set@;
            scan_line(s, start, k, hosts_format, set);
            assert(is_line(s@, start as int, k as int));
            assert(listed_before(s@, k + 1, hosts_format) =~= listed_before(s@, start as int, hosts_format).union(
                Set::new(|m: Seq<char>| line_entry(s@, start as int, k as int, m, hosts_format)),
            )) by {
                assert forall|i: int, j: int| #[trigger] is_line(s@, i, j) && start <= j <= k implies i == start && j == k by {
                    lemma_line_unique(s@, start as int, k as int, i, j);
                }
            }
            start = k + 1;
        }
        k = k + 1;
    }
    scan_line(s, start, n, hosts_format, set);
    assert(is_line(s@, start as int, n as int));
    assert(listed_names(s@, hosts_format) =~= listed_before(s@, start as int, hosts_format).union(
        Set::new(|m: Seq<char>| line_entry(s@, start as int, n as int, m, hosts_format)),
    )) by {
        assert forall|i: int, j: int| #[trigger] is_line(s@, i, j) && start <= j implies i == start && j == n by {
            lemma_line_unique(s@, start as int, n as int, i, j);
        }
    }
}

/// Adds to `set` every host of a text in the one-host-per-line format: blank lines and lines
/// starting with `#` are skipped, and so is a line that is no valid host.
pub fn domainlist(text: &str, set: &mut HostSet)
    ensures
        final(set)@ == old(set)@.union(domain_list_names(text@)),
{
    let s = chars_of(text);
    scan_lines(&s, false, set);
}

/// Adds to `set` every host of a text in the hosts-file format: on each line that is neither
/// blank nor a comment, each word after the address that is a valid host.
pub fn hostfile(text: &str, set: &mut HostSet)
    ensures
        final(set)@ == old(set)@.union(hosts_file_names(text@)),
{
    let s = chars_of(text);
    scan_lines(&s, true, set);
}

} // verus!
