use rmap::config::Config;
use rmap::output::OutputHandler;
use rmap::tcp::{PortResult, PortState, Protocol};
use rmap::udp::{classify_udp_outcome, UdpOutcome, UdpPortState, UDPScanner};

fn result(port: u16, state: PortState) -> PortResult {
    PortResult { port, protocol: Protocol::Tcp, state, service: None }
}

#[test]
fn service_table_knows_well_known_ports() {
    assert_eq!(OutputHandler::get_service_for_port(22), "ssh");
    assert_eq!(OutputHandler::get_service_for_port(80), "http");
    assert_eq!(OutputHandler::get_service_for_port(443), "https");
    assert_eq!(OutputHandler::get_service_for_port(12345), "unknown");
}

#[test]
fn report_sorts_filters_and_counts() {
    let handler = OutputHandler::new();
    let results = vec![
        result(443, PortState::Open),
        result(80, PortState::Closed),
        result(22, PortState::Open),
        result(23, PortState::Filtered),
    ];
    let report = handler.out_results(results, Protocol::Tcp);
    // Only Open ports are displayed, sorted numerically.
    assert_eq!(report.rows.len(), 2);
    assert_eq!(report.rows[0].port_label, b"22/tcp".to_vec());
    assert_eq!(report.rows[0].state_label, b"open".to_vec());
    assert_eq!(report.rows[0].service, b"ssh".to_vec());
    assert_eq!(report.rows[1].port_label, b"443/tcp".to_vec());
    assert_eq!(report.rows[1].service, b"https".to_vec());
    // The summary counts every classified port.
    assert_eq!(report.open_count, 2);
    assert_eq!(report.closed_count, 1);
    assert_eq!(report.filtered_count, 1);
}

#[test]
fn report_shows_all_states_when_ports_were_explicit() {
    let handler = OutputHandler::new();
    let results = vec![result(80, PortState::Closed), result(22, PortState::Open)];
    let report = handler.out_results_with_ports_info(results, Protocol::Tcp, true);
    assert_eq!(report.rows.len(), 2);
    assert_eq!(report.rows[0].port_label, b"22/tcp".to_vec());
    assert_eq!(report.rows[1].port_label, b"80/tcp".to_vec());
    assert_eq!(report.rows[1].state_label, b"closed".to_vec());
}

#[test]
fn udp_open_displays_as_open_filtered() {
    let handler = OutputHandler::new();
    let results = vec![PortResult { port: 53, protocol: Protocol::Udp, state: PortState::Open, service: None }];
    let report = handler.out_results(results, Protocol::Udp);
    assert_eq!(report.rows[0].port_label, b"53/udp".to_vec());
    assert_eq!(report.rows[0].state_label, b"open|filtered".to_vec());
}

#[test]
fn udp_classification_table() {
    assert_eq!(classify_udp_outcome(UdpOutcome::Received), UdpPortState::Open);
    assert_eq!(classify_udp_outcome(UdpOutcome::TimedOut), UdpPortState::Open);
    assert_eq!(classify_udp_outcome(UdpOutcome::RecvError), UdpPortState::Closed);
    assert_eq!(classify_udp_outcome(UdpOutcome::BindError), UdpPortState::Closed);
    assert_eq!(classify_udp_outcome(UdpOutcome::ConnectError), UdpPortState::Closed);
    assert_eq!(classify_udp_outcome(UdpOutcome::SendError), UdpPortState::Closed);
}

#[test]
fn udp_probe_payloads_by_well_known_port() {
    let scanner = UDPScanner::new(Config::default());
    let dns = scanner.get_probe_data_for_port(53);
    assert_eq!(dns.len(), 28);
    assert_eq!(&dns[..4], &[0x12, 0x34, 0x01, 0x00]);
    assert_eq!(&dns[12..19], b"\x06google");

    let snmp = scanner.get_probe_data_for_port(161);
    assert_eq!(snmp.len(), 40);
    assert_eq!(&snmp[..2], &[0x30, 0x26]);
    assert_eq!(&snmp[7..13], b"public");

    let ntp = scanner.get_probe_data_for_port(123);
    assert_eq!(ntp.len(), 48);
    assert_eq!(ntp[0], 0x1b);
    assert!(ntp[1..].iter().all(|&b| b == 0));

    assert_eq!(scanner.get_probe_data_for_port(9999), Vec::<u8>::new());
}

#[test]
fn udp_sweep_classifies_each_port() {
    let scanner = UDPScanner::new(Config::default());
    let ports = vec![53, 161, 9999];
    let outcomes = vec![UdpOutcome::Received, UdpOutcome::TimedOut, UdpOutcome::SendError];
    let swept = scanner.classify_sweep(&ports, &outcomes);
    assert_eq!(
        swept,
        vec![
            (53, UdpPortState::Open),
            (161, UdpPortState::Open),
            (9999, UdpPortState::Closed),
        ]
    );
}
