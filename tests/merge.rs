use blocklist_generator::config::Blocklists;
use blocklist_generator::fetch::{
    check_status, hosts_from_body, merge_results, request_error, sources_from_blocklists, AppError,
    RequestFailure, Source, SourceType,
};
use blocklist_generator::host::Host;
use blocklist_generator::host_set::HostSet;
use blocklist_generator::output::{
    domain_to_blocklist_rpz_domain, domain_to_unbound_local_zone, render, OutputFormat,
};

fn hosts_of(source_type: SourceType, body: &str) -> Result<HostSet, AppError> {
    let source = Source { url: "https://lists.example/list", source_type };
    hosts_from_body(&source, Ok(String::from(body)))
}

#[test]
fn merge_counts_a_repeated_host_once() {
    let results = vec![
        hosts_of(
            SourceType::HostsFile,
            "# comment\n\n0.0.0.0 example.com\n0.0.0.0\tanother.example.com\n",
        ),
        hosts_of(SourceType::DomainList, "# comment\nexample.com\nrepeat.example.com\n"),
        hosts_of(
            SourceType::HostsFile,
            "# comment\n\n0.0.0.0 yet.another.example.com\n0.0.0.0\trepeat.example.com\n",
        ),
    ];
    let mut set = HostSet::new();
    let failures = merge_results(results, &mut set);
    assert!(failures.is_empty());
    assert_eq!(set.len(), 4);
    for name in ["example.com", "another.example.com", "repeat.example.com", "yet.another.example.com"] {
        assert!(set.contains(&Host::parse(name).unwrap()));
    }
}

#[test]
fn merge_skips_failed_sources() {
    let not_found = check_status("https://lists.example/missing", 404).unwrap_err();
    let server_error = check_status("https://lists.example/broken", 500).unwrap_err();
    assert!(matches!(not_found, AppError::Fetch { .. }));
    assert!(matches!(server_error, AppError::Fetch { .. }));
    let results = vec![
        Err(not_found),
        hosts_of(SourceType::DomainList, "example.com\n"),
        Err(server_error),
    ];
    let mut set = HostSet::new();
    let failures = merge_results(results, &mut set);
    assert_eq!(failures.len(), 2);
    assert_eq!(failures[0].url(), "https://lists.example/missing");
    assert_eq!(failures[1].url(), "https://lists.example/broken");
    assert_eq!(set.len(), 1);
    assert!(set.contains(&Host::parse("example.com").unwrap()));
}

#[test]
fn check_status_accepts_only_success() {
    assert!(check_status("u", 200).is_ok());
    assert!(check_status("u", 299).is_ok());
    assert!(check_status("u", 199).is_err());
    assert!(check_status("u", 301).is_err());
}

#[test]
fn undecodable_body_is_a_parse_failure() {
    let source = Source { url: "https://lists.example/hosts", source_type: SourceType::HostsFile };
    let undecodable = RequestFailure { is_body: false, incomplete_message: None, is_request: false };
    let outcome = hosts_from_body(&source, Err(undecodable));
    assert!(matches!(outcome, Err(AppError::FetchParse { .. })));
}

#[test]
fn failed_body_reads_are_classified() {
    let source = Source { url: "https://lists.example/hosts", source_type: SourceType::HostsFile };
    let cut = RequestFailure { is_body: true, incomplete_message: Some(true), is_request: false };
    let other_protocol = RequestFailure { is_body: true, incomplete_message: Some(false), is_request: false };
    let other = RequestFailure { is_body: true, incomplete_message: None, is_request: false };
    let outcome = hosts_from_body(&source, Err(cut));
    assert!(matches!(outcome, Err(AppError::IncompleteBody { .. })));
    let outcome = hosts_from_body(&source, Err(other_protocol));
    assert!(matches!(outcome, Err(AppError::FetchBody { .. })));
    let outcome = hosts_from_body(&source, Err(other));
    match outcome {
        Err(error) => {
            assert!(matches!(error, AppError::FetchBody { .. }));
            assert_eq!(error.url(), "https://lists.example/hosts");
        }
        Ok(_) => panic!("a failed read gave hosts"),
    }
}

#[test]
fn request_failures_are_classified() {
    let url = "https://0.0.0.0/does-not-exist";
    let cut = RequestFailure { is_body: true, incomplete_message: Some(true), is_request: false };
    let body = RequestFailure { is_body: true, incomplete_message: None, is_request: false };
    let request = RequestFailure { is_body: false, incomplete_message: None, is_request: true };
    let other_body = RequestFailure { is_body: true, incomplete_message: Some(false), is_request: false };
    let other = RequestFailure { is_body: false, incomplete_message: None, is_request: false };
    assert!(matches!(request_error(url, &cut), AppError::IncompleteBody { .. }));
    assert!(matches!(request_error(url, &body), AppError::FetchBody { .. }));
    assert!(matches!(request_error(url, &request), AppError::FetchRequest { .. }));
    assert!(matches!(request_error(url, &other_body), AppError::FetchBody { .. }));
    assert!(matches!(request_error(url, &other), AppError::Fetch { .. }));
    assert_eq!(
        request_error(url, &request).message(),
        "Error fetching blocklist `https://0.0.0.0/does-not-exist`: error requesting data.  \
            The URL might be invalid, or there might be a network issue."
    );
}

#[test]
fn error_messages_name_the_url() {
    let url = String::from("http://127.0.0.1:9/domainlist");
    assert_eq!(
        AppError::Fetch { url: url.clone() }.message(),
        "Error fetching blocklist `http://127.0.0.1:9/domainlist`.  Check the URL is correct and the connection is up."
    );
    assert_eq!(
        AppError::FetchParse { url: url.clone() }.message(),
        "Error parsing fetched data for blocklist `http://127.0.0.1:9/domainlist`.  It might be worth retrying later."
    );
    assert_eq!(
        AppError::IncompleteBody { url: url.clone() }.message(),
        "Error fetching blocklist `http://127.0.0.1:9/domainlist`: only received part of the file.  The network connection may be unstable."
    );
    assert_eq!(
        AppError::FetchBody { url }.message(),
        "Error fetching blocklist `http://127.0.0.1:9/domainlist`: no response data or incomplete data.  The network connection may be unstable."
    );
}

#[test]
fn sources_list_hosts_files_then_domain_lists() {
    let blocklists = Blocklists {
        hosts_file_blocklist_urls: vec![String::from("h1"), String::from("h2")],
        domain_blocklist_urls: vec![String::from("d1")],
    };
    let sources = sources_from_blocklists(&blocklists);
    assert_eq!(sources.len(), 3);
    assert_eq!(sources[0].url, "h1");
    assert_eq!(sources[0].source_type, SourceType::HostsFile);
    assert_eq!(sources[1].url, "h2");
    assert_eq!(sources[1].source_type, SourceType::HostsFile);
    assert_eq!(sources[2].url, "d1");
    assert_eq!(sources[2].source_type, SourceType::DomainList);
}

#[test]
fn sorted_output_is_ordered_and_unique() {
    let mut set = HostSet::new();
    for name in ["b.example.com", "a.example.com", "127.0.0.1", "a.example.com", "z.org"] {
        set.insert(Host::parse(name).unwrap());
    }
    let names = set.into_sorted();
    assert_eq!(names, vec!["127.0.0.1", "a.example.com", "b.example.com", "z.org"]);
}

#[test]
fn output_formats_render_each_host() {
    let names = vec![String::from("a.example"), String::from("b.example")];
    assert_eq!(render(OutputFormat::DomainList, &names), "a.example\nb.example\n");
    assert_eq!(
        render(OutputFormat::Rpz, &names),
        "a.example\tCNAME\t.\n*.a.example\tCNAME\t.\nb.example\tCNAME\t.\n*.b.example\tCNAME\t.\n"
    );
    assert_eq!(
        render(OutputFormat::UnboundLocalZone, &names),
        "local-zone: \"a.example\" always_nxdomain\nlocal-zone: \"b.example\" always_nxdomain\n"
    );
    assert_eq!(domain_to_blocklist_rpz_domain("x.example"), "x.example\tCNAME\t.\n*.x.example\tCNAME\t.\n");
    assert_eq!(domain_to_unbound_local_zone("x.example"), "local-zone: \"x.example\" always_nxdomain\n");
    assert_eq!(render(OutputFormat::DomainList, &Vec::new()), "");
}
