//! The text of the three output formats, one entry per blocked host.
use vstd::prelude::*;

use crate::host_set::views_of;
use crate::text::append;

verus! {

/// The output formats.
#[derive(Clone, Copy, Debug, PartialEq, Eq)]
pub enum OutputFormat {
    /// One host per line.
    DomainList,
    /// Response-policy-zone records: the host and its subdomains answer with no data.
    Rpz,
    /// Resolver `local-zone` statements that answer with NXDOMAIN.
    UnboundLocalZone,
}

/// The entry of host `n` in format `f`.
pub open spec fn entry_text(f: OutputFormat, n: Seq<char>) -> Seq<char> {
    match f {
        OutputFormat::DomainList => n + "\n"@,
        OutputFormat::Rpz => n + "\tCNAME\t.\n*."@ + n + "\tCNAME\t.\n"@,
        OutputFormat::UnboundLocalZone => "local-zone: \""@ + n + "\" always_nxdomain\n"@,
    }
}

/// The entries of all of `names` in format `f`, in order.
pub open spec fn entries_text(f: OutputFormat, names: Seq<Seq<char>>) -> Seq<char>
    decreases names.len(),
{
    if names.len() == 0 {
        seq![]
    } else {
        entries_text(f, names.drop_last()) + entry_text(f, names.last())
    }
}

/// Appends the entry of host `name` in format `f` to `out`.
fn append_entry(out: &mut String, f: OutputFormat, name: &str)
    ensures
        final(out)@ == old(out)@ + entry_text(f, name@),
{
    match f {
        OutputFormat::DomainList => {
            append(out, name);
            append(out, "\n");
        },
        OutputFormat::Rpz => {
            append(out, name);
            append(out, "\tCNAME\t.\n*.");
            append(out, name);
            append(out, "\tCNAME\t.\n");
        },
        OutputFormat::UnboundLocalZone => {
            append(out, "local-zone: \"");
            append(out, name);
            append(out, "\" always_nxdomain\n");
        },
    }
    assert(final(out)@ =~= old(out)@ + entry_text(f, name@));
}

/// The two response-policy-zone records that block `name` and its subdomains.
pub fn domain_to_blocklist_rpz_domain(name: &str) -> (r: String)
    ensures
        r@ == entry_text(OutputFormat::Rpz, name@),
{
    let mut r = String::new();
    append_entry(&mut r, OutputFormat::Rpz, name);
    assert(r@ =~= entry_text(OutputFormat::Rpz, name@));
    r
}

/// The resolver statement that blocks `name`.
pub fn domain_to_unbound_local_zone(name: &str) -> (r: String)
    ensures
        r@ == entry_text(OutputFormat::UnboundLocalZone, name@),
{
    let mut r = String::new();
    append_entry(&mut r, OutputFormat::UnboundLocalZone, name);
    assert(r@ =~= entry_text(OutputFormat::UnboundLocalZone, name@));
    r
}

/// The entries of all of `names` in format `f`, in order.
pub fn render(f: OutputFormat, names: &Vec<String>) -> (r: String)
    ensures
        r@ == entries_text(f, views_of(names@)),
{
    let mut r = String::new();
    let mut i: usize = 0;
    while i < names.len()
        invariant
            i <= names@.len(),
            r@ == entries_text(f, views_of(names@).subrange(0, i as int)),
        decreases names@.len() - i,
    {
        append_entry(&mut r, f, names[i].as_str());
        proof {
            let next = views_of(names@).subrange(0, i + 1);
            assert(next.drop_last() =~= views_of(names@).subrange(0, i as int));
            assert(next.last() == names@[i as int]@);
        }
        i = i + 1;
    }
    assert(views_of(names@).subrange(0, i as int) =~= views_of(names@));
    r
}

} // verus!
