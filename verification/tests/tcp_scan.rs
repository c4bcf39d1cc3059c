use rmap::config::Config;
use rmap::prober::Prober;
use rmap::probe::parse_nmap_probes;
use rmap::scanner::Scanner;
use rmap::tcp::{
    classify_connect_outcome, run_scan, ConnectOutcome, PortState, Protocol, ScanScheduler,
    SynScanResult, TCPScanner,
};

#[test]
fn connect_classification_table() {
    assert_eq!(classify_connect_outcome(&ConnectOutcome::Connected), PortState::Open);
    assert_eq!(classify_connect_outcome(&ConnectOutcome::Refused), PortState::Closed);
    assert_eq!(classify_connect_outcome(&ConnectOutcome::DeadlineElapsed), PortState::Filtered);
    assert_eq!(classify_connect_outcome(&ConnectOutcome::TimedOutError), PortState::Filtered);
    assert_eq!(classify_connect_outcome(&ConnectOutcome::PermissionDenied), PortState::Filtered);
    assert_eq!(classify_connect_outcome(&ConnectOutcome::NetworkUnreachable), PortState::Filtered);
    assert_eq!(classify_connect_outcome(&ConnectOutcome::HostUnreachable), PortState::Filtered);
}

#[test]
fn connect_classification_message_heuristics() {
    let closed = ConnectOutcome::OtherError(b"Connection REFUSED by peer".to_vec());
    assert_eq!(classify_connect_outcome(&closed), PortState::Closed);
    let filtered = ConnectOutcome::OtherError(b"socket operation Timeout".to_vec());
    assert_eq!(classify_connect_outcome(&filtered), PortState::Filtered);
    let filtered = ConnectOutcome::OtherError(b"host UNREACHABLE".to_vec());
    assert_eq!(classify_connect_outcome(&filtered), PortState::Filtered);
    let filtered = ConnectOutcome::OtherError(b"packet filtered".to_vec());
    assert_eq!(classify_connect_outcome(&filtered), PortState::Filtered);
    // "refused" wins over the filtered keywords, and anything else is Closed.
    let both = ConnectOutcome::OtherError(b"refused after timeout".to_vec());
    assert_eq!(classify_connect_outcome(&both), PortState::Closed);
    let unknown = ConnectOutcome::OtherError(b"something odd".to_vec());
    assert_eq!(classify_connect_outcome(&unknown), PortState::Closed);
}

#[test]
fn scheduler_never_exceeds_permit_limit() {
    let ports: Vec<u16> = (1u16..=20).collect();
    let limit = 3usize;
    let mut sched = ScanScheduler::new(ports, limit);
    let mut max_in_flight = 0usize;
    while !sched.is_done() {
        // Fill the permit pool as far as it allows.
        while sched.can_start() {
            sched.start_next();
            max_in_flight = max_in_flight.max(sched.in_flight.len());
        }
        assert!(sched.in_flight.len() <= limit);
        // Resolve one attempt, releasing its permit.
        let port = sched.in_flight[0];
        sched.finish(port, &ConnectOutcome::Refused);
    }
    assert_eq!(max_in_flight, limit);
    assert_eq!(sched.results.len(), 20);
}

#[test]
fn scheduler_finish_records_classified_result() {
    let mut sched = ScanScheduler::new(vec![22], 1);
    let port = sched.start_next();
    assert_eq!(port, 22);
    sched.finish(port, &ConnectOutcome::Connected);
    assert!(sched.is_done());
    assert_eq!(sched.results.len(), 1);
    assert_eq!(sched.results[0].port, 22);
    assert_eq!(sched.results[0].state, PortState::Open);
    assert_eq!(sched.results[0].protocol, Protocol::Tcp);
    assert!(sched.results[0].service.is_none());
}

#[test]
fn end_to_end_scenario_ports_20_to_22() {
    let ports = TCPScanner::parse_ports("20-22");
    assert_eq!(ports, vec![20, 21, 22]);
    let outcomes = vec![
        ConnectOutcome::Refused,
        ConnectOutcome::Refused,
        ConnectOutcome::Connected,
    ];
    let results = run_scan(ports, &outcomes, 4);
    assert_eq!(results.len(), 3);
    assert_eq!((results[0].port, results[0].state), (20, PortState::Closed));
    assert_eq!((results[1].port, results[1].state), (21, PortState::Closed));
    assert_eq!((results[2].port, results[2].state), (22, PortState::Open));

    // With service detection enabled, the open port's response from a stub
    // SSH service carries the configured match rule's service.
    let db = parse_nmap_probes("Probe TCP NULL q||\nmatch ssh m/^SSH-([\\d.]+)-/ p/TestServer/ v/$1/\n");
    let prober = Prober::new();
    let si = prober.detect_service(b"SSH-2.0-TestServer\r\n", 22, &db).unwrap();
    assert_eq!(si.service, b"ssh".to_vec());
    assert_eq!(si.version, Some(b"2.0".to_vec()));
    assert_eq!(si.product, Some(b"TestServer".to_vec()));
    assert_eq!(si.confidence, 90);
}

#[test]
fn scanning_twice_is_idempotent() {
    let outcomes = vec![
        ConnectOutcome::Connected,
        ConnectOutcome::Refused,
        ConnectOutcome::DeadlineElapsed,
        ConnectOutcome::OtherError(b"no route".to_vec()),
    ];
    let first = run_scan(vec![1, 2, 3, 4], &outcomes, 2);
    let second = run_scan(vec![1, 2, 3, 4], &outcomes, 2);
    assert_eq!(first, second);
}

#[test]
fn syn_scan_result_groups_by_state() {
    let outcomes = vec![
        ConnectOutcome::Connected,
        ConnectOutcome::Refused,
        ConnectOutcome::DeadlineElapsed,
        ConnectOutcome::Connected,
    ];
    let results = run_scan(vec![10, 11, 12, 13], &outcomes, 1);
    let grouped = SynScanResult::from_results(results);
    let open: Vec<u16> = grouped.open_ports.iter().map(|r| r.port).collect();
    let closed: Vec<u16> = grouped.closed_ports.iter().map(|r| r.port).collect();
    let filtered: Vec<u16> = grouped.filtered_ports.iter().map(|r| r.port).collect();
    assert_eq!(open, vec![10, 13]);
    assert_eq!(closed, vec![11]);
    assert_eq!(filtered, vec![12]);
}

#[test]
fn scanner_mode_selection() {
    let mut config = Config::default();
    assert!(config.tcp && !config.udp);
    let scanner = Scanner::new(config.clone());
    assert_eq!(scanner.mode(), Some(Protocol::Tcp));

    config.udp = true;
    let scanner = Scanner::new(config.clone());
    assert_eq!(scanner.mode(), Some(Protocol::Udp));

    config.udp = false;
    config.tcp = false;
    let scanner = Scanner::new(config);
    assert_eq!(scanner.mode(), None);
}

#[test]
fn default_config_values() {
    let c = Config::default();
    assert!(c.target.is_empty());
    assert_eq!(c.ports, "1-1024");
    assert!(c.tcp);
    assert!(!c.udp);
    assert_eq!(c.timeout, 2000);
    assert!(c.threads >= 1);
    assert!(c.json.is_none());
    assert!(c.lua_script.is_none());
    assert!(!c.verbose);
    assert!(!c.ports_explicitly_specified);
}
