//! Result presentation, the computable part: the well-known-service table,
//! numeric sorting of port results, the display rows (port/protocol label,
//! state label, service guess) and the summary counts. Drawing the table and
//! printing are the embedding program's.

use vstd::prelude::*;

use crate::tcp::{PortResult, PortState, Protocol};
use crate::text::dec_digits;
use vstd::string::StringSliceAdditionalSpecFns;

verus! {

/// The most likely service for a well-known port, `unknown` otherwise.
pub open spec fn service_bytes_spec(port: u16) -> Seq<u8> {
    if port == 21 {
        ("ftp").spec_bytes()
    } else if port == 22 {
        ("ssh").spec_bytes()
    } else if port == 23 {
        ("telnet").spec_bytes()
    } else if port == 25 {
        ("smtp").spec_bytes()
    } else if port == 53 {
        ("dns").spec_bytes()
    } else if port == 80 {
        ("http").spec_bytes()
    } else if port == 110 {
        ("pop3").spec_bytes()
    } else if port == 115 {
        ("sftp").spec_bytes()
    } else if port == 135 {
        ("rpc").spec_bytes()
    } else if port == 139 {
        ("netbios").spec_bytes()
    } else if port == 143 {
        ("imap").spec_bytes()
    } else if port == 194 {
        ("irc").spec_bytes()
    } else if port == 443 {
        ("https").spec_bytes()
    } else if port == 445 {
        ("smb").spec_bytes()
    } else if port == 993 {
        ("imaps").spec_bytes()
    } else if port == 995 {
        ("pop3s").spec_bytes()
    } else if port == 1433 {
        ("mssql").spec_bytes()
    } else if port == 3306 {
        ("mysql").spec_bytes()
    } else if port == 3389 {
        ("rdp").spec_bytes()
    } else if port == 5432 {
        ("postgresql").spec_bytes()
    } else if port == 5632 {
        ("pcanywhere").spec_bytes()
    } else if port == 5900 {
        ("vnc").spec_bytes()
    } else if port == 25565 {
        ("minecraft").spec_bytes()
    } else if port == 27017 {
        ("mongodb").spec_bytes()
    } else if port == 6379 {
        ("redis").spec_bytes()
    } else if port == 5672 {
        ("rabbitmq").spec_bytes()
    } else if port == 8080 {
        ("http-proxy").spec_bytes()
    } else if port == 8443 {
        ("https-alt").spec_bytes()
    } else if port == 9200 {
        ("elasticsearch").spec_bytes()
    } else if port == 5601 {
        ("kibana").spec_bytes()
    } else if port == 2181 {
        ("zookeeper").spec_bytes()
    } else if port == 9092 {
        ("kafka").spec_bytes()
    } else if port == 11211 {
        ("memcached").spec_bytes()
    } else if port == 1521 {
        ("oracle").spec_bytes()
    } else if port == 5984 {
        ("couchdb").spec_bytes()
    } else if port == 7000 {
        ("cassandra").spec_bytes()
    } else if port == 8086 {
        ("influxdb").spec_bytes()
    } else if port == 9000 {
        ("sonarqube").spec_bytes()
    } else if port == 8888 {
        ("jupyter").spec_bytes()
    } else if port == 3000 {
        ("grafana").spec_bytes()
    } else if port == 9090 {
        ("prometheus").spec_bytes()
    } else if port == 4444 {
        ("selenium").spec_bytes()
    } else if port == 8081 {
        ("nexus").spec_bytes()
    } else if port == 8082 {
        ("sonatype").spec_bytes()
    } else if port == 9999 {
        ("abyss").spec_bytes()
    } else if port == 10000 {
        ("webmin").spec_bytes()
    } else {
        ("unknown").spec_bytes()
    }
}

/// One row of the result table, as raw text.
#[derive(Debug, Clone, PartialEq, Eq)]
pub struct PortRow {
    pub port_label: Vec<u8>,
    pub state_label: Vec<u8>,
    pub service: Vec<u8>,
}

/// The mathematical model of a row.
#[verifier::ext_equal]
pub struct PortRowModel {
    pub port_label: Seq<u8>,
    pub state_label: Seq<u8>,
    pub service: Seq<u8>,
}

impl PortRow {
    pub open spec fn model(self) -> PortRowModel {
        PortRowModel {
            port_label: self.port_label@,
            state_label: self.state_label@,
            service: self.service@,
        }
    }
}

/// A computed result table: the displayed rows and the summary counts over
/// all classified ports, displayed or not.
#[derive(Debug, Clone, PartialEq, Eq)]
pub struct ScanReport {
    pub rows: Vec<PortRow>,
    pub open_count: usize,
    pub closed_count: usize,
    pub filtered_count: usize,
}

/// The state column's text: Open on UDP reads `open|filtered`, since silence
/// was resolved toward Open.
pub open spec fn state_label_spec(st: PortState, proto: Protocol) -> Seq<u8> {
    match st {
        PortState::Open => if proto == Protocol::Udp {
            ("open|filtered").spec_bytes()
        } else {
            ("open").spec_bytes()
        },
        PortState::Closed => ("closed").spec_bytes(),
        PortState::Filtered => ("filtered").spec_bytes(),
    }
}

/// The protocol suffix of a port label.
pub open spec fn proto_suffix_spec(proto: Protocol) -> Seq<u8> {
    if proto == Protocol::Udp {
        ("/udp").spec_bytes()
    } else {
        ("/tcp").spec_bytes()
    }
}

/// The row one result displays as.
pub open spec fn row_of(r: PortResult, proto: Protocol) -> PortRowModel {
    PortRowModel {
        port_label: dec_digits(r.port as nat) + proto_suffix_spec(proto),
        state_label: state_label_spec(r.state, proto),
        service: service_bytes_spec(r.port),
    }
}

/// `x` inserted into `s` after every element whose port is not larger:
/// one step of a stable insertion sort by port number.
pub open spec fn insert_sorted(x: PortResult, s: Seq<PortResult>) -> Seq<PortResult>
    decreases s.len(),
{
    if s.len() == 0 {
        seq![x]
    } else if x.port < s[0].port {
        seq![x] + s
    } else {
        seq![s[0]] + insert_sorted(x, s.drop_first())
    }
}

/// The results sorted by port number, ascending and stable: what a stable
/// sort by the numeric port yields.
pub open spec fn sort_by_port(s: Seq<PortResult>) -> Seq<PortResult>
    decreases s.len(),
{
    if s.len() == 0 {
        Seq::empty()
    } else {
        insert_sorted(s.last(), sort_by_port(s.drop_last()))
    }
}

/// The rows a result list displays: every classified port when the ports
/// were given explicitly, only the Open ones otherwise, each rendered as a
/// row, in the order given.
pub open spec fn display_rows(s: Seq<PortResult>, proto: Protocol, show_all: bool) -> Seq<
    PortRowModel,
>
    decreases s.len(),
{
    if s.len() == 0 {
        Seq::empty()
    } else if show_all || s[0].state == PortState::Open {
        seq![row_of(s[0], proto)] + display_rows(s.drop_first(), proto, show_all)
    } else {
        display_rows(s.drop_first(), proto, show_all)
    }
}

/// How many results carry the given state.
pub open spec fn count_state(s: Seq<PortResult>, st: PortState) -> int
    decreases s.len(),
{
    if s.len() == 0 {
        0int
    } else if s[0].state == st {
        1 + count_state(s.drop_first(), st)
    } else {
        count_state(s.drop_first(), st)
    }
}

/// Renders and summarizes scan results.
pub struct OutputHandler;

impl OutputHandler {
    pub fn new() -> OutputHandler {
        OutputHandler
    }

    /// The most likely service for a well-known port.
    pub fn get_service_for_port(port: u16) -> (r: &'static str)
        ensures
            r.spec_bytes() == service_bytes_spec(port),
    {
        if port == 21 {
            "ftp"
        } else if port == 22 {
            "ssh"
        } else if port == 23 {
            "telnet"
        } else if port == 25 {
            "smtp"
        } else if port == 53 {
            "dns"
        } else if port == 80 {
            "http"
        } else if port == 110 {
            "pop3"
        } else if port == 115 {
            "sftp"
        } else if port == 135 {
            "rpc"
        } else if port == 139 {
            "netbios"
        } else if port == 143 {
            "imap"
        } else if port == 194 {
            "irc"
        } else if port == 443 {
            "https"
        } else if port == 445 {
            "smb"
        } else if port == 993 {
            "imaps"
        } else if port == 995 {
            "pop3s"
        } else if port == 1433 {
            "mssql"
        } else if port == 3306 {
            "mysql"
        } else if port == 3389 {
            "rdp"
        } else if port == 5432 {
            "postgresql"
        } else if port == 5632 {
            "pcanywhere"
        } else if port == 5900 {
            "vnc"
        } else if port == 25565 {
            "minecraft"
        } else if port == 27017 {
            "mongodb"
        } else if port == 6379 {
            "redis"
        } else if port == 5672 {
            "rabbitmq"
        } else if port == 8080 {
            "http-proxy"
        } else if port == 8443 {
            "https-alt"
        } else if port == 9200 {
            "elasticsearch"
        } else if port == 5601 {
            "kibana"
        } else if port == 2181 {
            "zookeeper"
        } else if port == 9092 {
            "kafka"
        } else if port == 11211 {
            "memcached"
        } else if port == 1521 {
            "oracle"
        } else if port == 5984 {
            "couchdb"
        } else if port == 7000 {
            "cassandra"
        } else if port == 8086 {
            "influxdb"
        } else if port == 9000 {
            "sonarqube"
        } else if port == 8888 {
            "jupyter"
        } else if port == 3000 {
            "grafana"
        } else if port == 9090 {
            "prometheus"
        } else if port == 4444 {
            "selenium"
        } else if port == 8081 {
            "nexus"
        } else if port == 8082 {
            "sonatype"
        } else if port == 9999 {
            "abyss"
        } else if port == 10000 {
            "webmin"
        } else {
            "unknown"
        }
    }

    /// Computes the result table with the default display filter: only Open
    /// ports are shown.
    pub fn out_results(&self, ports: Vec<PortResult>, protocol: Protocol) -> (r: ScanReport)
        ensures
            r.rows@.map_values(|x: PortRow| x.model()) == display_rows(
                sort_by_port(ports@),
                protocol,
                false,
            ),
            r.open_count == count_state(ports@, PortState::Open),
            r.closed_count == count_state(ports@, PortState::Closed),
            r.filtered_count == count_state(ports@, PortState::Filtered),
    {
        self.out_results_with_ports_info(ports, protocol, false)
    }

    /// Computes the result table: the results sorted by port number, the
    /// display filter applied (all states when the ports were given
    /// explicitly, only Open otherwise), each kept result rendered as a row,
    /// and the summary counts taken over all results.
    pub fn out_results_with_ports_info(
        &self,
        ports: Vec<PortResult>,
        protocol: Protocol,
        ports_specified: bool,
    ) -> (r: ScanReport)
        ensures
            r.rows@.map_values(|x: PortRow| x.model()) == display_rows(
                sort_by_port(ports@),
                protocol,
                ports_specified,
            ),
            r.open_count == count_state(ports@, PortState::Open),
            r.closed_count == count_state(ports@, PortState::Closed),
            r.filtered_count == count_state(ports@, PortState::Filtered),
    {
        let ghost orig = ports@;
        let mut open_count: usize = 0;
        let mut closed_count: usize = 0;
        let mut filtered_count: usize = 0;
        let mut i: usize = 0;
        proof {
            assert(orig.take(0) =~= Seq::<PortResult>::empty());
        }
        while i < ports.len()
            invariant
                0 <= i <= orig.len(),
                orig == ports@,
                open_count as int == count_state(orig.take(i as int), PortState::Open),
                closed_count as int == count_state(orig.take(i as int), PortState::Closed),
                filtered_count as int == count_state(orig.take(i as int), PortState::Filtered),
                open_count <= i && closed_count <= i && filtered_count <= i,
            decreases orig.len() - i,
        {
            proof {
                lemma_count_state_push(orig.take(i as int), orig[i as int], PortState::Open);
                lemma_count_state_push(orig.take(i as int), orig[i as int], PortState::Closed);
                lemma_count_state_push(orig.take(i as int), orig[i as int], PortState::Filtered);
                assert(orig.take(i + 1) =~= orig.take(i as int).push(orig[i as int]));
            }
            match ports[i].state {
                PortState::Open => {
                    open_count = open_count + 1;
                },
                PortState::Closed => {
                    closed_count = closed_count + 1;
                },
                PortState::Filtered => {
                    filtered_count = filtered_count + 1;
                },
            }
            i = i + 1;
        }
        proof {
            assert(orig.take(i as int) =~= orig);
        }
        let sorted = sort_results(ports);
        let mut rows: Vec<PortRow> = Vec::new();
        let ghost sv = sorted@;
        let mut k: usize = 0;
        proof {
            assert(rows@.map_values(|x: PortRow| x.model()) =~= Seq::<PortRowModel>::empty());
            assert(Seq::<PortRowModel>::empty() + display_rows(sv, protocol, ports_specified)
                =~= display_rows(sv, protocol, ports_specified));
            assert(sv.skip(0) =~= sv);
        }
        while k < sorted.len()
            invariant
                0 <= k <= sv.len(),
                sv == sorted@,
                display_rows(sv, protocol, ports_specified) == rows@.map_values(
                    |x: PortRow| x.model(),
                ) + display_rows(sv.skip(k as int), protocol, ports_specified),
            decreases sv.len() - k,
        {
            let ghost rm = rows@.map_values(|x: PortRow| x.model());
            proof {
                assert(sv.skip(k as int)[0] == sv[k as int]);
                assert(sv.skip(k as int).drop_first() =~= sv.skip(k + 1));
            }
            let keep = ports_specified || matches!(sorted[k].state, PortState::Open);
            if keep {
                let row = render_row(&sorted[k], protocol);
                rows.push(row);
                proof {
                    assert(rows@.map_values(|x: PortRow| x.model()) =~= rm.push(row.model()));
                    assert(rm + (seq![row_of(sv[k as int], protocol)] + display_rows(
                        sv.skip(k + 1),
                        protocol,
                        ports_specified,
                    )) =~= rm.push(row_of(sv[k as int], protocol)) + display_rows(
                        sv.skip(k + 1),
                        protocol,
                        ports_specified,
                    ));
                }
            }
            k = k + 1;
        }
        proof {
            assert(sv.skip(k as int) =~= Seq::<PortResult>::empty());
            assert(rows@.map_values(|x: PortRow| x.model()) + Seq::<PortRowModel>::empty()
                =~= rows@.map_values(|x: PortRow| x.model()));
        }
        ScanReport { rows, open_count, closed_count, filtered_count }
    }
}

proof fn lemma_count_state_push(s: Seq<PortResult>, x: PortResult, st: PortState)
    ensures
        count_state(s.push(x), st) == count_state(s, st) + (if x.state == st {
            1int
        } else {
            0int
        }),
    decreases s.len(),
{
    assert(s.push(x).len() != 0);
    assert(count_state(s.push(x), st) == (if s.push(x)[0].state == st {
        1int
    } else {
        0int
    }) + count_state(s.push(x).drop_first(), st));
    if s.len() == 0 {
        assert(s.push(x)[0] == x);
        assert(s.push(x).drop_first() =~= Seq::<PortResult>::empty());
        assert(count_state(Seq::<PortResult>::empty(), st) == 0);
        assert(count_state(s, st) == 0);
    } else {
        assert(s.push(x)[0] == s[0]);
        assert(s.push(x).drop_first() =~= s.drop_first().push(x));
        lemma_count_state_push(s.drop_first(), x, st);
    }
}

/// Renders one result as a row.
fn render_row(r: &PortResult, proto: Protocol) -> (row: PortRow)
    ensures
        row.model() == row_of(*r, proto),
{
    let mut port_label = crate::text::dec_bytes(r.port as u64);
    let suffix: &str = if matches!(proto, Protocol::Udp) {
        "/udp"
    } else {
        "/tcp"
    };
    crate::text::push_all(&mut port_label, suffix.as_bytes());
    let state_label: &str = match r.state {
        PortState::Open => if matches!(proto, Protocol::Udp) {
            "open|filtered"
        } else {
            "open"
        },
        PortState::Closed => "closed",
        PortState::Filtered => "filtered",
    };
    let service = OutputHandler::get_service_for_port(r.port);
    PortRow {
        port_label,
        state_label: vstd::slice::slice_to_vec(state_label.as_bytes()),
        service: vstd::slice::slice_to_vec(service.as_bytes()),
    }
}

/// Inserting into a sorted prefix at the first place whose port is larger is
/// the insertion-sort step.
proof fn lemma_insert_sorted_at(x: PortResult, s: Seq<PortResult>, idx: int)
    requires
        0 <= idx <= s.len(),
        forall|j: int| 0 <= j < idx ==> !(x.port < #[trigger] s[j].port),
        idx < s.len() ==> x.port < s[idx].port,
    ensures
        insert_sorted(x, s) == s.insert(idx, x),
    decreases idx,
{
    if s.len() == 0 {
        assert(s.insert(0, x) =~= seq![x]);
    } else if idx == 0 {
        assert(s.insert(0, x) =~= seq![x] + s);
    } else {
        lemma_insert_sorted_at(x, s.drop_first(), idx - 1);
        assert(s.drop_first().insert(idx - 1, x) =~= s.insert(idx, x).drop_first());
        assert(seq![s[0]] + insert_sorted(x, s.drop_first()) =~= s.insert(idx, x));
    }
}

/// Sorts the results by port number: a stable insertion sort, so results
/// with equal ports keep their order.
fn sort_results(results: Vec<PortResult>) -> (r: Vec<PortResult>)
    ensures
        r@ == sort_by_port(results@),
{
    let ghost orig = results@;
    let mut rest = results;
    let mut out: Vec<PortResult> = Vec::new();
    proof {
        assert(orig.take(0) =~= Seq::<PortResult>::empty());
    }
    let total = rest.len();
    let mut done: usize = 0;
    while done < total
        invariant
            0 <= done <= total,
            total == orig.len(),
            rest@ == orig.skip(done as int),
            out@ == sort_by_port(orig.take(done as int)),
        decreases total - done,
    {
        let ghost prevrest = rest@;
        let x = rest.remove(0);
        proof {
            assert(rest@ =~= prevrest.drop_first());
            assert(prevrest[0] == orig[done as int]);
            assert(rest@ =~= orig.skip(done + 1));
        }
        let mut idx: usize = 0;
        while idx < out.len() && !(x.port < out[idx].port)
            invariant
                0 <= idx <= out@.len(),
                forall|j: int| 0 <= j < idx ==> !(x.port < #[trigger] out@[j].port),
            decreases out@.len() - idx,
        {
            idx = idx + 1;
        }
        let ghost prevout = out@;
        out.insert(idx, x);
        proof {
            lemma_insert_sorted_at(x, prevout, idx as int);
            assert(orig.take(done + 1).drop_last() =~= orig.take(done as int));
            assert(orig.take(done + 1).last() == orig[done as int]);
        }
        done = done + 1;
    }
    proof {
        assert(orig.take(done as int) =~= orig);
    }
    out
}

} // verus!
