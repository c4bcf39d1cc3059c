use rmap::tcp::TCPScanner;
use rmap::udp::UDPScanner;

#[test]
fn parse_ports_expands_list_and_range_in_order() {
    let ports = TCPScanner::parse_ports("80,443,1000-1002");
    assert_eq!(ports, vec![80, 443, 1000, 1001, 1002]);
}

#[test]
fn parse_ports_drops_reversed_range_and_garbage() {
    assert_eq!(TCPScanner::parse_ports("70-65"), Vec::<u16>::new());
    assert_eq!(TCPScanner::parse_ports("abc"), Vec::<u16>::new());
    assert_eq!(TCPScanner::parse_ports("70-65,abc,22"), vec![22]);
}

#[test]
fn parse_ports_empty_input_yields_empty_sequence() {
    assert_eq!(TCPScanner::parse_ports(""), Vec::<u16>::new());
}

#[test]
fn parse_ports_trims_tokens() {
    assert_eq!(TCPScanner::parse_ports(" 80 , 443 "), vec![80, 443]);
}

#[test]
fn parse_ports_boundaries() {
    assert_eq!(TCPScanner::parse_ports("65535"), vec![65535]);
    assert_eq!(TCPScanner::parse_ports("65536"), Vec::<u16>::new());
    assert_eq!(TCPScanner::parse_ports("+80"), vec![80]);
    assert_eq!(TCPScanner::parse_ports("0"), vec![0]);
}

#[test]
fn parse_ports_keeps_duplicates() {
    assert_eq!(TCPScanner::parse_ports("80,80,79-81"), vec![80, 80, 79, 80, 81]);
}

#[test]
fn parse_ports_rejects_three_part_ranges() {
    assert_eq!(TCPScanner::parse_ports("1-2-3"), Vec::<u16>::new());
}

#[test]
fn udp_parse_ports_matches_tcp_parse_ports() {
    assert_eq!(
        UDPScanner::parse_ports("53,161,123"),
        TCPScanner::parse_ports("53,161,123")
    );
}
