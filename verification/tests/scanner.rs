use port_scanner::cli::Arguments;
use port_scanner::cli::CliError;
use port_scanner::cli::Command;
use port_scanner::cli::parse_u16;
use port_scanner::cli::str_eq;
use port_scanner::ports::worker_ports;
use port_scanner::report::build_report;
use port_scanner::scan::contains_port;
use port_scanner::scan::scan_outcome;
use port_scanner::scan::worker_discoveries;

fn args_of(parts: &[&str]) -> Vec<String> {
    parts.iter().map(|s| s.to_string()).collect()
}

/// Every port in [1, 65535] is visited by exactly one worker, for a spread of
/// worker counts.
#[test]
fn coverage_is_a_partition() {
    for &w in &[1u16, 2, 3, 4, 7, 100, 65534, 65535] {
        let mut visits = vec![0u8; 65536];
        for k in 0..w {
            for p in worker_ports(k, w) {
                visits[p as usize] += 1;
            }
        }
        assert_eq!(visits[0], 0, "port 0 must never be scanned (w = {})", w);
        for p in 1..=65535usize {
            assert_eq!(visits[p], 1, "port {} visited {} times (w = {})", p, visits[p], w);
        }
    }
}

#[test]
fn worker_zero_of_four_steps_by_stride() {
    let ports = worker_ports(0, 4);
    assert_eq!(ports[0], 1);
    assert_eq!(ports[1], 5);
    assert_eq!(ports[2], 9);
    assert_eq!(*ports.last().unwrap(), 65533);
}

#[test]
fn worker_last_of_four_reaches_the_top_port() {
    let ports = worker_ports(2, 4);
    assert_eq!(ports[0], 3);
    assert_eq!(*ports.last().unwrap(), 65535);
}

#[test]
fn single_worker_scans_everything_in_order() {
    let ports = worker_ports(0, 1);
    assert_eq!(ports.len(), 65535);
    assert_eq!(ports[0], 1);
    assert_eq!(ports[65534], 65535);
}

#[test]
fn maximal_worker_count_gives_one_port_each() {
    let first = worker_ports(0, 65535);
    assert_eq!(first, vec![1]);
    let last = worker_ports(65534, 65535);
    assert_eq!(last, vec![65535]);
}

#[test]
fn report_is_sorted_ascending() {
    let report = build_report(vec![8080, 22, 443]);
    assert_eq!(report, vec![22, 443, 8080]);
}

#[test]
fn report_keeps_every_result() {
    let report = build_report(vec![5, 5, 3]);
    assert_eq!(report, vec![3, 5, 5]);
}

#[test]
fn empty_results_give_an_empty_report() {
    let report = build_report(Vec::new());
    assert!(report.is_empty());
}

/// Scanning a host with no open ports yields an empty report.
#[test]
fn scan_with_no_open_ports_reports_nothing() {
    let report = scan_outcome(4, &Vec::new());
    assert!(report.is_empty());
}

/// With only port 8080 open and four workers, the report holds exactly 8080.
#[test]
fn scan_finds_exactly_the_open_port() {
    let report = scan_outcome(4, &vec![8080]);
    assert_eq!(report, vec![8080]);
}

/// The same discovery, composed by hand the way the orchestrator runs it:
/// one candidate list per worker, each filtered by openness, all collected
/// and sorted.
#[test]
fn orchestrated_workers_find_exactly_the_open_port() {
    let open = vec![8080u16];
    let mut collected = Vec::new();
    for k in 0..4 {
        let candidates = worker_ports(k, 4);
        let mut found = worker_discoveries(&candidates, &open);
        collected.append(&mut found);
    }
    assert_eq!(collected, vec![8080]);
    assert_eq!(build_report(collected), vec![8080]);
}

/// The report lists each open port once, strictly ascending, whatever order
/// and duplication the openness pattern has; port 0 is never probed.
#[test]
fn scan_report_is_strictly_ascending_without_duplicates() {
    let report = scan_outcome(7, &vec![80, 22, 80, 9999, 0]);
    assert_eq!(report, vec![22, 80, 9999]);
}

#[test]
fn help_flags_ask_for_usage() {
    let r = Arguments::new(&args_of(&["scanner", "-h"]));
    assert!(matches!(r, Ok(Command::Help)));
    let r = Arguments::new(&args_of(&["scanner", "-help"]));
    assert!(matches!(r, Ok(Command::Help)));
}

#[test]
fn single_address_defaults_to_four_workers() {
    let r = Arguments::new(&args_of(&["scanner", "127.0.0.1"]));
    match r {
        Ok(Command::Run(a)) => {
            assert_eq!(a.ip_text, "127.0.0.1");
            assert_eq!(a.threads, 4);
        }
        _ => panic!("expected a run with default workers"),
    }
}

/// Address validation belongs to the caller and comes after every other
/// check, so malformed address text passes through the parsing untouched.
#[test]
fn address_text_is_carried_through_unjudged() {
    let r = Arguments::new(&args_of(&["scanner", "999.999.999.999"]));
    match r {
        Ok(Command::Run(a)) => assert_eq!(a.ip_text, "999.999.999.999"),
        _ => panic!("expected the text to be carried through"),
    }
}

#[test]
fn flagged_shape_sets_the_worker_count() {
    let r = Arguments::new(&args_of(&["scanner", "-j", "100", "10.0.0.1"]));
    match r {
        Ok(Command::Run(a)) => {
            assert_eq!(a.ip_text, "10.0.0.1");
            assert_eq!(a.threads, 100);
        }
        _ => panic!("expected a run with 100 workers"),
    }
}

#[test]
fn non_numeric_worker_count_is_rejected() {
    let r = Arguments::new(&args_of(&["scanner", "-j", "abc", "127.0.0.1"]));
    match r {
        Err(e) => {
            assert!(matches!(e, CliError::InvalidThreadCount));
            assert_eq!(e.message(), "failed to parse thread count");
        }
        _ => panic!("expected a thread-count error"),
    }
}

#[test]
fn zero_workers_are_out_of_range() {
    let r = Arguments::new(&args_of(&["scanner", "-j", "0", "127.0.0.1"]));
    assert!(matches!(r, Err(CliError::InvalidThreadCount)));
}

#[test]
fn oversized_worker_count_is_rejected() {
    let r = Arguments::new(&args_of(&["scanner", "-j", "65536", "127.0.0.1"]));
    assert!(matches!(r, Err(CliError::InvalidThreadCount)));
}

#[test]
fn unknown_flag_is_rejected() {
    let r = Arguments::new(&args_of(&["scanner", "-x", "4", "127.0.0.1"]));
    match r {
        Err(e) => {
            assert!(matches!(e, CliError::UnknownFlag));
            assert_eq!(e.message(), "unknown flag");
        }
        _ => panic!("expected an unknown-flag error"),
    }
}

#[test]
fn wrong_argument_counts_are_rejected() {
    for parts in [
        &[][..],
        &["scanner"][..],
        &["scanner", "a", "b"][..],
        &["scanner", "-j", "4", "127.0.0.1", "extra"][..],
    ] {
        let r = Arguments::new(&args_of(parts));
        match r {
            Err(e) => {
                assert!(matches!(e, CliError::InvalidArgCount));
                assert_eq!(e.message(), "invalid number of arguments");
            }
            _ => panic!("expected an argument-count error for {:?}", parts),
        }
    }
}

#[test]
fn bad_address_message_matches_the_reported_line() {
    assert_eq!(CliError::InvalidIp.message(), "not a valid IP address");
}

#[test]
fn decimal_parsing_matches_the_numeral_grammar() {
    assert_eq!(parse_u16("0"), Some(0));
    assert_eq!(parse_u16("8080"), Some(8080));
    assert_eq!(parse_u16("65535"), Some(65535));
    assert_eq!(parse_u16("007"), Some(7));
    assert_eq!(parse_u16("+123"), Some(123));
    assert_eq!(parse_u16("65536"), None);
    assert_eq!(parse_u16(""), None);
    assert_eq!(parse_u16("+"), None);
    assert_eq!(parse_u16("12a"), None);
    assert_eq!(parse_u16("-1"), None);
    assert_eq!(parse_u16(" 7"), None);
}

#[test]
fn text_comparison_is_exact() {
    assert!(str_eq("-j", "-j"));
    assert!(!str_eq("-j", "-J"));
    assert!(!str_eq("-j", "-jj"));
    assert!(str_eq("", ""));
}

#[test]
fn openness_filter_keeps_probe_order() {
    let candidates = vec![1u16, 5, 9, 13];
    let open = vec![13u16, 1];
    assert_eq!(worker_discoveries(&candidates, &open), vec![1, 13]);
    assert!(contains_port(&open, 13));
    assert!(!contains_port(&open, 5));
}
