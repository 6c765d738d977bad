use blocklist_generator::host::Host;
use blocklist_generator::host_set::HostSet;
use blocklist_generator::parse::{domainlist, hostfile};

#[test]
fn domainlist_parses_hosts_and_skips_comments() {
    let mut set = HostSet::new();
    domainlist("# comment\n\nexample.com\nanother.example.com\n", &mut set);
    assert_eq!(set.len(), 2);
    assert!(set.contains(&Host::parse("example.com").unwrap()));
    assert!(set.contains(&Host::parse("another.example.com").unwrap()));
}

#[test]
fn domainlist_trims_lines_and_skips_invalid_ones() {
    let mut set = HostSet::new();
    domainlist("  Example.COM \r\n\t# indented comment\nnot a host\nlast.example.org", &mut set);
    assert_eq!(set.len(), 2);
    assert!(set.contains(&Host::parse("example.com").unwrap()));
    assert!(set.contains(&Host::parse("last.example.org").unwrap()));
}

#[test]
fn domainlist_keeps_what_the_set_held() {
    let mut set = HostSet::new();
    set.insert(Host::parse("kept.example.com").unwrap());
    domainlist("example.com\n", &mut set);
    assert_eq!(set.len(), 2);
    assert!(set.contains(&Host::parse("kept.example.com").unwrap()));
}

#[test]
fn hostfile_parses_address_and_host_lines() {
    let mut set = HostSet::new();
    hostfile("0.0.0.0 example.com\n0.0.0.0\tanother.example.com\n", &mut set);
    assert_eq!(set.len(), 2);
    assert!(set.contains(&Host::parse("example.com").unwrap()));
    assert!(set.contains(&Host::parse("another.example.com").unwrap()));
}

#[test]
fn hostfile_skips_lone_addresses_and_comments() {
    let mut set = HostSet::new();
    hostfile("# comment\n\n0.0.0.0\n   # 0.0.0.0 hidden.example.com\n127.0.0.1   \n", &mut set);
    assert_eq!(set.len(), 0);
}

#[test]
fn hostfile_takes_every_host_of_a_line() {
    let mut set = HostSet::new();
    hostfile("  0.0.0.0  a.example.com \t b.example.com c.example.com  \n", &mut set);
    assert_eq!(set.len(), 3);
    assert!(set.contains(&Host::parse("a.example.com").unwrap()));
    assert!(set.contains(&Host::parse("b.example.com").unwrap()));
    assert!(set.contains(&Host::parse("c.example.com").unwrap()));
    assert!(!set.contains(&Host::parse("0.0.0.0").unwrap()));
}

#[test]
fn host_parse_canonicalises_and_rejects() {
    let host = Host::parse("WWW.Example.COM").unwrap();
    assert_eq!(host.name, "www.example.com");
    assert!(host.domain);
    let address = Host::parse("127.0.0.1").unwrap();
    assert!(!address.domain);
    assert_eq!(address.name, "127.0.0.1");
    assert!(Host::parse("exa mple.com").is_err());
    assert!(Host::parse("").is_err());
}
