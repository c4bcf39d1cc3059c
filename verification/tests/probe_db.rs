use rmap::probe::{parse_match_line, parse_nmap_probes, parse_probe_string, parse_version_field,
    FieldTag};
use rmap::prober::Prober;

#[test]
fn decode_probe_string_resolves_escapes() {
    let prober = Prober::new();
    let decoded = prober.decode_probe_string("GET / HTTP/1.0\\r\\n\\r\\n");
    assert_eq!(decoded.len(), 18);
    assert_eq!(&decoded[decoded.len() - 4..], b"\r\n\r\n");
    assert_eq!(&decoded[..14], b"GET / HTTP/1.0");
}

#[test]
fn decode_probe_string_hex_escape() {
    let prober = Prober::new();
    assert_eq!(prober.decode_probe_string("\\x41"), vec![0x41]);
    assert_eq!(prober.decode_probe_string("\\0\\t"), vec![0u8, b'\t']);
    // A lone trailing backslash stands for itself.
    assert_eq!(prober.decode_probe_string("a\\"), vec![b'a', b'\\']);
    // An unknown escape keeps the backslash and reprocesses the next byte.
    assert_eq!(prober.decode_probe_string("\\q"), vec![b'\\', b'q']);
    // Missing hex digits default to zero; invalid digits drop the escape.
    assert_eq!(prober.decode_probe_string("\\x4"), vec![0x40]);
    assert_eq!(prober.decode_probe_string("\\xzz"), Vec::<u8>::new());
}

#[test]
fn parse_probe_string_extracts_delimited_content() {
    assert_eq!(parse_probe_string("q|abc|"), b"abc".to_vec());
    assert_eq!(parse_probe_string("q|GET / HTTP/1.0\\r\\n\\r\\n|"), b"GET / HTTP/1.0\\r\\n\\r\\n".to_vec());
    // Not of the q-delimited shape: kept whole.
    assert_eq!(parse_probe_string("plain"), b"plain".to_vec());
    assert_eq!(parse_probe_string("q|"), b"q|".to_vec());
}

#[test]
fn parse_version_field_tags_and_cpe() {
    let (tag, val) = parse_version_field("p/Pure-FTPd/").unwrap();
    assert_eq!(tag, FieldTag::Product);
    assert_eq!(val, b"Pure-FTPd".to_vec());

    let (tag, val) = parse_version_field("v/$1/").unwrap();
    assert_eq!(tag, FieldTag::Version);
    assert_eq!(val, b"$1".to_vec());

    // cpe keeps the rest of the token verbatim, delimiters included.
    let (tag, val) = parse_version_field("cpe:/a:pureftpd:pure-ftpd:$1/").unwrap();
    assert_eq!(tag, FieldTag::Cpe);
    assert_eq!(val, b"/a:pureftpd:pure-ftpd:$1/".to_vec());

    assert!(parse_version_field("zz/x/").is_none());
    assert!(parse_version_field("p/").is_none());
}

#[test]
fn parse_match_line_reads_service_pattern_and_fields() {
    let m = parse_match_line("match ssh m/^SSH-([\\d.]+)-/ p/OpenSSH/ v/$1/").unwrap();
    assert_eq!(m.service, b"ssh".to_vec());
    assert_eq!(m.pattern, b"^SSH-([\\d.]+)-".to_vec());
    assert_eq!(m.version_info.product, Some(b"OpenSSH".to_vec()));
    assert_eq!(m.version_info.version, Some(b"$1".to_vec()));
    assert_eq!(m.version_info.cpe, None);

    assert!(parse_match_line("match ssh").is_none());
}

#[test]
fn parse_match_line_drops_pattern_flags() {
    let m = parse_match_line("match http m/^HTTP/i p/httpd/").unwrap();
    assert_eq!(m.pattern, b"^HTTP".to_vec());
}

#[test]
fn parse_nmap_probes_builds_the_database() {
    let text = "\
# comment line

Exclude 10.0.0.0/8 192.168.0.0/16
Probe TCP NULL q||
match ssh m/^SSH-([\\d.]+)-/ p/OpenSSH/ v/$1/
softmatch ssh m/^SSH-/
ports 22,2222
sslports 443
totalwaitms 5000
tcpwrappedms 2000
rarity 1
fallback GenericLines
Probe UDP DNSStatusRequest q|\\0\\0\\x10\\0|
unknown directive is ignored
";
    let db = parse_nmap_probes(text);
    assert_eq!(db.excludes, vec![b"10.0.0.0/8 192.168.0.0/16".to_vec()]);
    assert_eq!(db.probes.len(), 2);

    let p = &db.probes[0];
    assert_eq!(p.protocol, b"TCP".to_vec());
    assert_eq!(p.name, b"NULL".to_vec());
    assert_eq!(p.probe_payload, Vec::<u8>::new());
    assert!(!p.no_payload);
    assert_eq!(p.matches.len(), 1);
    assert_eq!(p.matches[0].service, b"ssh".to_vec());
    assert_eq!(p.soft_matches.len(), 1);
    assert_eq!(p.ports, vec![b"22,2222".to_vec()]);
    assert_eq!(p.ssl_ports, vec![b"443".to_vec()]);
    assert_eq!(p.total_wait_ms, Some(5000));
    assert_eq!(p.tcp_wrapped_ms, Some(2000));
    assert_eq!(p.rarity, Some(1));
    assert_eq!(p.fallback, Some(b"GenericLines".to_vec()));

    let q = &db.probes[1];
    assert_eq!(q.protocol, b"UDP".to_vec());
    assert_eq!(q.name, b"DNSStatusRequest".to_vec());
    // The payload is escape-decoded at parse time.
    assert_eq!(q.probe_payload, vec![0u8, 0, 0x10, 0]);
}

#[test]
fn parse_nmap_probes_no_payload_and_short_probe_lines() {
    let text = "Probe TCP Junk\nmatch x m/y/\nProbe TCP Named q|a| no-payload\n";
    let db = parse_nmap_probes(text);
    // A Probe line with fewer than four tokens opens nothing, so the match
    // line had no probe to attach to.
    assert_eq!(db.probes.len(), 1);
    assert_eq!(db.probes[0].name, b"Named".to_vec());
    assert!(db.probes[0].no_payload);
    assert!(db.probes[0].matches.is_empty());
}

#[test]
fn parse_nmap_probes_non_numeric_timing_left_unset() {
    let text = "Probe TCP P q|x|\ntotalwaitms soon\nrarity high\n";
    let db = parse_nmap_probes(text);
    assert_eq!(db.probes[0].total_wait_ms, None);
    assert_eq!(db.probes[0].rarity, None);
}
