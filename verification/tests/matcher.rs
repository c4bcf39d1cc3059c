use rmap::probe::{MatchEntry, NmapProbes, ProbeEntry, VersionInfo};
use rmap::prober::Prober;

fn entry(service: &str, pattern: &str, version_template: Option<&str>) -> MatchEntry {
    let mut vi = VersionInfo::empty();
    vi.version = version_template.map(|t| t.as_bytes().to_vec());
    MatchEntry {
        service: service.as_bytes().to_vec(),
        pattern: pattern.as_bytes().to_vec(),
        version_info: vi,
    }
}

fn bare_probe(protocol: &str, name: &str) -> ProbeEntry {
    ProbeEntry {
        protocol: protocol.as_bytes().to_vec(),
        name: name.as_bytes().to_vec(),
        probe_payload: Vec::new(),
        no_payload: false,
        matches: Vec::new(),
        soft_matches: Vec::new(),
        ports: Vec::new(),
        ssl_ports: Vec::new(),
        total_wait_ms: None,
        tcp_wrapped_ms: None,
        rarity: None,
        fallback: None,
    }
}

#[test]
fn capture_substitution_fills_version_fields() {
    let prober = Prober::new();
    let e = entry("ssh", "^SSH-([\\d.]+)-", Some("$1"));
    let si = prober
        .match_response(b"SSH-2.0-OpenSSH_8.9", &e)
        .expect("the pattern matches");
    assert_eq!(si.service, b"ssh".to_vec());
    assert_eq!(si.version, Some(b"2.0".to_vec()));
    assert_eq!(si.confidence, 90);
}

#[test]
fn match_response_none_on_no_match_or_bad_pattern() {
    let prober = Prober::new();
    assert!(prober.match_response(b"HTTP/1.1 200 OK", &entry("ssh", "^SSH-", None)).is_none());
    assert!(prober.match_response(b"anything", &entry("x", "(unclosed", None)).is_none());
}

#[test]
fn unresolved_placeholders_beyond_group_count_stay_literal() {
    let prober = Prober::new();
    let e = entry("ssh", "^SSH-([\\d.]+)-", Some("$1 build $2"));
    let si = prober.match_response(b"SSH-2.0-X", &e).unwrap();
    assert_eq!(si.version, Some(b"2.0 build $2".to_vec()));
}

#[test]
fn non_participating_group_substitutes_empty() {
    let prober = Prober::new();
    let e = entry("svc", "^(a)|(b)", Some("[$1][$2]"));
    let si = prober.match_response(b"a", &e).unwrap();
    assert_eq!(si.version, Some(b"[a][]".to_vec()));
}

#[test]
fn match_precedence_hard_before_soft_first_wins() {
    let prober = Prober::new();
    let mut p = bare_probe("TCP", "NULL");
    p.matches.push(entry("service-a", "^SSH-", None));
    p.matches.push(entry("service-b", "^SSH-2", None));
    p.soft_matches.push(entry("service-c", "^SSH", None));

    // A response matching every rule takes the first hard match at 90.
    let si = prober.match_probe(b"SSH-2.0-X", &p).unwrap();
    assert_eq!(si.service, b"service-a".to_vec());
    assert_eq!(si.confidence, 90);

    // A response matching only the soft rule takes it at 50.
    let mut q = bare_probe("TCP", "NULL");
    q.matches.push(entry("service-a", "^AAA", None));
    q.matches.push(entry("service-b", "^BBB", None));
    q.soft_matches.push(entry("service-c", "^SSH", None));
    let si = prober.match_probe(b"SSH-2.0-X", &q).unwrap();
    assert_eq!(si.service, b"service-c".to_vec());
    assert_eq!(si.confidence, 50);
}

#[test]
fn relevant_probes_by_port_substring_with_fallback() {
    let prober = Prober::new();
    let mut ssh = bare_probe("TCP", "SSHProbe");
    ssh.ports.push(b"22,2222".to_vec());
    let mut http = bare_probe("TCP", "GetRequest");
    http.ports.push(b"80,8080".to_vec());
    let mut udp = bare_probe("UDP", "DNS");
    udp.ports.push(b"22".to_vec());
    let db = NmapProbes { excludes: Vec::new(), probes: vec![ssh, http, udp] };

    // Port 22 selects the TCP probe whose spec mentions it; the UDP probe
    // never qualifies.
    assert_eq!(prober.get_relevant_probes(&db, 22), vec![0]);
    // Port 9999 matches no spec, so the common fallbacks are used.
    assert_eq!(prober.get_relevant_probes(&db, 9999), vec![1]);
}

#[test]
fn detect_service_tries_null_probe_first_then_relevant() {
    let prober = Prober::new();
    let mut null_probe = bare_probe("TCP", "NULL");
    null_probe.matches.push(entry("ssh", "^SSH-([\\d.]+)-", Some("$1")));
    let mut web = bare_probe("TCP", "GetRequest");
    web.ports.push(b"80".to_vec());
    web.matches.push(entry("http", "^HTTP", None));
    let db = NmapProbes { excludes: Vec::new(), probes: vec![web, null_probe] };

    let si = prober.detect_service(b"SSH-2.0-TestServer\r\n", 80, &db).unwrap();
    assert_eq!(si.service, b"ssh".to_vec());
    assert_eq!(si.version, Some(b"2.0".to_vec()));

    let si = prober.detect_service(b"HTTP/1.1 200 OK", 80, &db).unwrap();
    assert_eq!(si.service, b"http".to_vec());

    assert!(prober.detect_service(b"garbage", 80, &db).is_none());
}

#[test]
fn prober_holds_timeout_and_database() {
    let mut prober = Prober::new();
    assert_eq!(prober.timeout_ms, 5000);
    assert!(prober.probes.is_none());
    prober.set_timeout(250);
    assert_eq!(prober.timeout_ms, 250);
    prober.set_probes(NmapProbes { excludes: Vec::new(), probes: Vec::new() });
    assert!(prober.probes.is_some());
}
