use blocklist_generator::config::Filters;
use blocklist_generator::filter::{apply_allowed, filter_blocklist, parent_domains, AllowOutcome};
use blocklist_generator::host::Host;
use blocklist_generator::host_set::HostSet;

fn set_of(names: &[&str]) -> HostSet {
    let mut set = HostSet::new();
    for name in names {
        set.insert(Host::parse(name).unwrap());
    }
    set
}

#[test]
fn filter_blocklist_removes_matches() {
    let filters = Filters {
        allowed_names: Some(vec![
            String::from("0.0.0.0"),
            String::from("127.0.0.1"),
            String::from("255.255.255.255"),
        ]),
        blocked_names: None,
    };
    let mut set = set_of(&["example.com", "another.example.com", "127.0.0.1", "255.255.255.255"]);

    filter_blocklist(&mut set, &filters);

    assert_eq!(set.len(), 2);
    assert!(!set.contains(&Host::parse("127.0.0.1").unwrap()));
    assert!(set.contains(&Host::parse("example.com").unwrap()));
    assert!(set.contains(&Host::parse("another.example.com").unwrap()));
}

#[test]
fn filter_blocklist_removes_matches_for_subdomains() {
    let filters = Filters {
        allowed_names: Some(vec![
            String::from("0.0.0.0"),
            String::from("127.0.0.1"),
            String::from("255.255.255.255"),
            String::from("some.example.com"),
        ]),
        blocked_names: None,
    };
    let mut set = set_of(&["example.com", "another.example.com", "127.0.0.1", "255.255.255.255"]);

    filter_blocklist(&mut set, &filters);

    assert_eq!(set.len(), 1);
    assert!(!set.contains(&Host::parse("127.0.0.1").unwrap()));
    assert!(!set.contains(&Host::parse("example.com").unwrap()));
    assert!(set.contains(&Host::parse("another.example.com").unwrap()));
}

#[test]
fn filter_blocklist_keeps_subdomains() {
    let filters = Filters {
        allowed_names: Some(vec![
            String::from("0.0.0.0"),
            String::from("127.0.0.1"),
            String::from("255.255.255.255"),
            String::from("example.com"),
        ]),
        blocked_names: None,
    };
    let mut set = set_of(&["example.com", "some.example.com", "127.0.0.1", "255.255.255.255"]);

    filter_blocklist(&mut set, &filters);

    assert_eq!(set.len(), 1);
    assert!(!set.contains(&Host::parse("127.0.0.1").unwrap()));
    assert!(!set.contains(&Host::parse("example.com").unwrap()));
    assert!(set.contains(&Host::parse("some.example.com").unwrap()));
}

#[test]
fn parent_domains_returns_none_for_tld() {
    let domain = Host::parse("com").unwrap();
    let outcome = parent_domains(&domain);
    assert!(outcome.is_none());
}

#[test]
fn parent_domains_returns_none_for_second_level_domain() {
    let domain = Host::parse("example.com").unwrap();
    let outcome = parent_domains(&domain);
    assert!(outcome.is_none());
}

#[test]
fn parent_domains_returns_parent_domains_as_expected() {
    let domain = Host::parse("another.some.example.com").unwrap();
    let outcome = parent_domains(&domain);
    assert_eq!(
        outcome,
        Some(vec![
            Host::parse("some.example.com").unwrap(),
            Host::parse("example.com").unwrap(),
        ])
    );

    let domain = Host::parse("some.example.com").unwrap();
    let outcome = parent_domains(&domain);
    assert_eq!(outcome, Some(vec![Host::parse("example.com").unwrap()]));
}

#[test]
fn parent_domains_is_none_for_ip_literals() {
    let address = Host::parse("10.1.2.3").unwrap();
    assert!(!address.domain);
    assert!(parent_domains(&address).is_none());
}

#[test]
fn filter_without_allowlist_changes_nothing() {
    let filters = Filters { allowed_names: None, blocked_names: None };
    let mut set = set_of(&["example.com", "127.0.0.1"]);
    let outcomes = filter_blocklist(&mut set, &filters);
    assert!(outcomes.is_empty());
    assert_eq!(set.len(), 2);
}

#[test]
fn apply_allowed_reports_each_removal() {
    let mut set = set_of(&["example.com", "some.example.com", "deep.some.example.com", "other.com"]);
    match apply_allowed(&mut set, "deep.some.example.com") {
        AllowOutcome::Applied { parents_removed, removed } => {
            assert_eq!(parents_removed, vec![String::from("some.example.com"), String::from("example.com")]);
            assert!(removed);
        }
        AllowOutcome::Invalid => panic!("a valid entry was reported invalid"),
    }
    assert_eq!(set.len(), 1);
    assert!(set.contains(&Host::parse("other.com").unwrap()));
}

#[test]
fn apply_allowed_reports_no_match() {
    let mut set = set_of(&["example.com"]);
    match apply_allowed(&mut set, "x.y.other.org") {
        AllowOutcome::Applied { parents_removed, removed } => {
            assert!(parents_removed.is_empty());
            assert!(!removed);
        }
        AllowOutcome::Invalid => panic!("a valid entry was reported invalid"),
    }
    assert_eq!(set.len(), 1);
}

#[test]
fn invalid_allowlist_entry_is_ignored() {
    let filters = Filters {
        allowed_names: Some(vec![String::from("exa mple.com"), String::from("example.com")]),
        blocked_names: None,
    };
    let mut set = set_of(&["example.com", "another.example.com"]);
    let outcomes = filter_blocklist(&mut set, &filters);
    assert_eq!(outcomes.len(), 2);
    assert!(matches!(outcomes[0], AllowOutcome::Invalid));
    assert!(matches!(outcomes[1], AllowOutcome::Applied { removed: true, .. }));
    assert_eq!(set.len(), 1);
    assert!(set.contains(&Host::parse("another.example.com").unwrap()));
}

#[test]
fn local_additions_survive_the_allowlist() {
    let filters = Some(Filters {
        allowed_names: Some(vec![String::from("ads.example.com")]),
        blocked_names: None,
    });
    let merged = set_of(&["example.com", "ads.example.com", "tracker.net"]);
    let (names, outcomes) = blocklist_generator::pipeline::build_blocklist(
        merged,
        &filters,
        Some("# local\nads.example.com\nzz.local.example\n"),
    );
    assert_eq!(outcomes.len(), 1);
    assert_eq!(names, vec!["ads.example.com", "tracker.net", "zz.local.example"]);
}

#[test]
fn build_blocklist_without_filters_or_local_list_sorts_the_merge() {
    let merged = set_of(&["b.example.com", "a.example.com"]);
    let (names, outcomes) = blocklist_generator::pipeline::build_blocklist(merged, &None, None);
    assert!(outcomes.is_empty());
    assert_eq!(names, vec!["a.example.com", "b.example.com"]);
}
