//! The TCP scan orchestrator's verified core: the classification of
//! connection outcomes into port states, the concurrency-bounded scheduler
//! that tracks pending, in-flight and finished attempts, and the grouping of
//! finished attempts into a scan result. The sockets themselves live with
//! the embedding program, which feeds outcomes back into the scheduler.

use vstd::prelude::*;

use crate::config::Config;
use crate::dns::DNSResolver;
use crate::ports::parse_ports_spec;
use crate::prober::ServiceInfo;
use crate::text::{contains_bytes, contains_seq, lower_of, to_lower_bytes};
use vstd::string::StringSliceAdditionalSpecFns;

verus! {

/// The transport a scan speaks.
#[derive(Debug, Clone, Copy, PartialEq, Eq, Structural)]
pub enum Protocol {
    Tcp,
    Udp,
}

/// The terminal classification of one TCP port.
#[derive(Debug, Clone, Copy, PartialEq, Eq, Structural)]
pub enum PortState {
    Open,
    Closed,
    Filtered,
}

/// How one connection attempt resolved, as the transport reported it. The
/// structured variants mirror the OS error categories the orchestrator
/// distinguishes; any other error carries its textual message, and
/// `DeadlineElapsed` is the orchestrator's own timeout, distinct from the
/// transport's.
#[derive(Debug, Clone, PartialEq, Eq)]
pub enum ConnectOutcome {
    Connected,
    Refused,
    TimedOutError,
    PermissionDenied,
    NetworkUnreachable,
    HostUnreachable,
    OtherError(Vec<u8>),
    DeadlineElapsed,
}

/// The classification of one scanned port.
#[derive(Debug, Clone, PartialEq, Eq)]
pub struct PortResult {
    pub port: u16,
    pub protocol: Protocol,
    pub state: PortState,
    pub service: Option<ServiceInfo>,
}

/// A finished scan's results, grouped by state.
#[derive(Debug, Clone, PartialEq, Eq)]
pub struct SynScanResult {
    pub open_ports: Vec<PortResult>,
    pub closed_ports: Vec<PortResult>,
    pub filtered_ports: Vec<PortResult>,
}

/// Classification of an unrecognized error by its lowercased message:
/// a message naming a refusal means Closed; one naming a timeout, an
/// unreachable network or host, or filtering means Filtered; anything
/// else defaults to Closed.
pub open spec fn classify_error_message(m: Seq<u8>) -> PortState {
    let low = lower_of(m);
    if contains_seq(low, ("refused").spec_bytes()) {
        PortState::Closed
    } else if contains_seq(low, ("timeout").spec_bytes()) || contains_seq(
        low,
        ("unreachable").spec_bytes(),
    ) || contains_seq(low, ("filtered").spec_bytes()) {
        PortState::Filtered
    } else {
        PortState::Closed
    }
}

/// The classification table of the orchestrator: success is Open, a refusal
/// is Closed, a timeout or unreachability — the transport's or the
/// orchestrator's own deadline — is Filtered, and an unrecognized error
/// falls back to its message text.
pub open spec fn classify_outcome_spec(o: ConnectOutcome) -> PortState {
    match o {
        ConnectOutcome::Connected => PortState::Open,
        ConnectOutcome::Refused => PortState::Closed,
        ConnectOutcome::TimedOutError => PortState::Filtered,
        ConnectOutcome::PermissionDenied => PortState::Filtered,
        ConnectOutcome::NetworkUnreachable => PortState::Filtered,
        ConnectOutcome::HostUnreachable => PortState::Filtered,
        ConnectOutcome::OtherError(m) => classify_error_message(m@),
        ConnectOutcome::DeadlineElapsed => PortState::Filtered,
    }
}

/// Classifies how a connection attempt resolved into the port's state.
pub fn classify_connect_outcome(o: &ConnectOutcome) -> (r: PortState)
    ensures
        r == classify_outcome_spec(*o),
{
    match o {
        ConnectOutcome::Connected => PortState::Open,
        ConnectOutcome::Refused => PortState::Closed,
        ConnectOutcome::TimedOutError => PortState::Filtered,
        ConnectOutcome::PermissionDenied => PortState::Filtered,
        ConnectOutcome::NetworkUnreachable => PortState::Filtered,
        ConnectOutcome::HostUnreachable => PortState::Filtered,
        ConnectOutcome::OtherError(m) => {
            let low = to_lower_bytes(m.as_slice());
            if contains_bytes(low.as_slice(), "refused".as_bytes()) {
                PortState::Closed
            } else if contains_bytes(low.as_slice(), "timeout".as_bytes()) || contains_bytes(
                low.as_slice(),
                "unreachable".as_bytes(),
            ) || contains_bytes(low.as_slice(), "filtered".as_bytes()) {
                PortState::Filtered
            } else {
                PortState::Closed
            }
        },
        ConnectOutcome::DeadlineElapsed => PortState::Filtered,
    }
}

/// A connection attempt that completed successfully is always Open; one that
/// ran into the orchestrator's deadline is always Filtered; a refusal by the
/// operating system is always Closed.
pub proof fn lemma_connect_classification()
    ensures
        classify_outcome_spec(ConnectOutcome::Connected) == PortState::Open,
        classify_outcome_spec(ConnectOutcome::DeadlineElapsed) == PortState::Filtered,
        classify_outcome_spec(ConnectOutcome::Refused) == PortState::Closed,
{
}

/// The result one finished attempt contributes: the port, classified, with
/// no service information yet.
pub open spec fn finished_result(port: u16, o: ConnectOutcome) -> PortResult {
    PortResult { port, protocol: Protocol::Tcp, state: classify_outcome_spec(o), service: None }
}

/// The scheduler of one scan: every port starts as pending, moves into the
/// in-flight set when a connection attempt is issued under a permit of the
/// shared pool, and ends as a classified result when the attempt resolves.
/// The number of in-flight attempts never exceeds the permit limit.
pub struct ScanScheduler {
    pub limit: usize,
    pub pending: Vec<u16>,
    pub in_flight: Vec<u16>,
    pub results: Vec<PortResult>,
}

impl ScanScheduler {
    /// The scheduler's invariant: a positive permit limit bounds the
    /// in-flight attempts.
    pub open spec fn wf(self) -> bool {
        1 <= self.limit && self.in_flight@.len() <= self.limit
    }

    /// A scheduler for one scan over `ports` with `limit` permits.
    pub fn new(ports: Vec<u16>, limit: usize) -> (s: ScanScheduler)
        requires
            limit >= 1,
        ensures
            s.wf(),
            s.limit == limit,
            s.pending == ports,
            s.in_flight@ == Seq::<u16>::empty(),
            s.results@ == Seq::<PortResult>::empty(),
    {
        let s = ScanScheduler { limit, pending: ports, in_flight: Vec::new(), results: Vec::new() };
        proof {
            assert(s.in_flight@ =~= Seq::<u16>::empty());
            assert(s.results@ =~= Seq::<PortResult>::empty());
        }
        s
    }

    /// Whether another attempt may be issued: a port is waiting and a permit
    /// is free.
    pub fn can_start(&self) -> (r: bool)
        ensures
            r == (self.pending@.len() > 0 && self.in_flight@.len() < self.limit),
    {
        self.pending.len() > 0 && self.in_flight.len() < self.limit
    }

    /// Whether every attempt has resolved.
    pub fn is_done(&self) -> (r: bool)
        ensures
            r == (self.pending@.len() == 0 && self.in_flight@.len() == 0),
    {
        self.pending.len() == 0 && self.in_flight.len() == 0
    }

    /// Issues the next pending port's attempt under a fresh permit.
    pub fn start_next(&mut self) -> (port: u16)
        requires
            old(self).wf(),
            old(self).pending@.len() > 0,
            old(self).in_flight@.len() < old(self).limit,
        ensures
            final(self).wf(),
            port == old(self).pending@[0],
            final(self).pending@ == old(self).pending@.drop_first(),
            final(self).in_flight@ == old(self).in_flight@.push(port),
            final(self).results == old(self).results,
            final(self).limit == old(self).limit,
    {
        let port = self.pending.remove(0);
        self.in_flight.push(port);
        proof {
            assert(self.pending@ =~= old(self).pending@.drop_first());
        }
        port
    }

    /// Resolves the attempt on `port`: the permit returns to the pool and the
    /// classified result is recorded.
    pub fn finish(&mut self, port: u16, outcome: &ConnectOutcome)
        requires
            old(self).wf(),
            old(self).in_flight@.contains(port),
        ensures
            final(self).wf(),
            final(self).limit == old(self).limit,
            final(self).pending == old(self).pending,
            final(self).in_flight@.len() == old(self).in_flight@.len() - 1,
            exists|k: int|
                0 <= k < old(self).in_flight@.len() && old(self).in_flight@[k] == port
                    && final(self).in_flight@ == old(self).in_flight@.remove(k),
            final(self).results@ == old(self).results@.push(finished_result(port, *outcome)),
    {
        let mut k: usize = 0;
        while k < self.in_flight.len() && self.in_flight[k] != port
            invariant
                0 <= k <= self.in_flight@.len(),
                forall|j: int| 0 <= j < k ==> self.in_flight@[j] != port,
                self == old(self),
            decreases self.in_flight@.len() - k,
        {
            k = k + 1;
        }
        proof {
            assert(old(self).in_flight@.contains(port));
            let w = choose|w: int|
                0 <= w < old(self).in_flight@.len() && old(self).in_flight@[w] == port;
            assert(k < self.in_flight@.len());
        }
        self.in_flight.remove(k);
        let state = classify_connect_outcome(outcome);
        self.results.push(PortResult { port, protocol: Protocol::Tcp, state, service: None });
    }

    /// Bounded concurrency: a well-formed scheduler never has more connection
    /// attempts in flight than the permit limit it was created with.
    pub proof fn lemma_in_flight_bounded(self)
        requires
            self.wf(),
        ensures
            self.in_flight@.len() <= self.limit,
    {
    }
}

/// The results of scanning `ports` when attempt `i` resolves as
/// `outcomes[i]`: one classified result per port, in order.
pub open spec fn scan_results_spec(ports: Seq<u16>, outcomes: Seq<ConnectOutcome>) -> Seq<
    PortResult,
>
    recommends
        ports.len() == outcomes.len(),
{
    Seq::new(ports.len(), |i: int| finished_result(ports[i], outcomes[i]))
}

/// Runs a whole scan through the scheduler, resolving attempt `i` with
/// `outcomes[i]`: the reference driver for the orchestrator's bookkeeping.
pub fn run_scan(ports: Vec<u16>, outcomes: &Vec<ConnectOutcome>, limit: usize) -> (r: Vec<
    PortResult,
>)
    requires
        limit >= 1,
        ports@.len() == outcomes@.len(),
    ensures
        r@ == scan_results_spec(ports@, outcomes@),
{
    let ghost all_ports = ports@;
    let total = ports.len();
    let mut sched = ScanScheduler::new(ports, limit);
    let mut k: usize = 0;
    proof {
        assert(sched.pending@ =~= all_ports.skip(0));
        assert(sched.results@ =~= scan_results_spec(all_ports, outcomes@).take(0));
    }
    while k < total
        invariant
            0 <= k <= total,
            total == all_ports.len() == outcomes@.len(),
            sched.wf(),
            sched.limit == limit,
            sched.pending@ == all_ports.skip(k as int),
            sched.in_flight@ == Seq::<u16>::empty(),
            sched.results@ == scan_results_spec(all_ports, outcomes@).take(k as int),
        decreases total - k,
    {
        let port = sched.start_next();
        proof {
            assert(all_ports.skip(k as int)[0] == all_ports[k as int]);
            assert(sched.in_flight@ == Seq::<u16>::empty().push(port));
            assert(sched.in_flight@[0] == port);
            assert(sched.in_flight@.contains(port));
        }
        sched.finish(port, &outcomes[k]);
        proof {
            assert(sched.in_flight@ =~= Seq::<u16>::empty());
            assert(all_ports.skip(k as int).drop_first() =~= all_ports.skip(k + 1));
            assert(scan_results_spec(all_ports, outcomes@).take(k + 1) =~= scan_results_spec(
                all_ports,
                outcomes@,
            ).take(k as int).push(finished_result(all_ports[k as int], outcomes@[k as int])));
        }
        k = k + 1;
    }
    proof {
        assert(scan_results_spec(all_ports, outcomes@).take(k as int) =~= scan_results_spec(
            all_ports,
            outcomes@,
        ));
    }
    sched.results
}

/// Determinism of a scan: the results of a run are a function of the port
/// list and of how each attempt resolved, so two runs over the same ports
/// against the same outcomes agree exactly, whatever else differed.
pub proof fn lemma_scan_deterministic(
    ports: Seq<u16>,
    outcomes: Seq<ConnectOutcome>,
    r1: Seq<PortResult>,
    r2: Seq<PortResult>,
)
    requires
        r1 == scan_results_spec(ports, outcomes),
        r2 == scan_results_spec(ports, outcomes),
    ensures
        r1 == r2,
{
}

/// The results of `rs` whose state is `st`, in order.
pub open spec fn with_state(rs: Seq<PortResult>, st: PortState) -> Seq<PortResult>
    decreases rs.len(),
{
    if rs.len() == 0 {
        Seq::empty()
    } else if rs[0].state == st {
        seq![rs[0]] + with_state(rs.drop_first(), st)
    } else {
        with_state(rs.drop_first(), st)
    }
}

impl SynScanResult {
    /// Groups finished attempts by their state, keeping each group's order.
    pub fn from_results(results: Vec<PortResult>) -> (s: SynScanResult)
        ensures
            s.open_ports@ == with_state(results@, PortState::Open),
            s.closed_ports@ == with_state(results@, PortState::Closed),
            s.filtered_ports@ == with_state(results@, PortState::Filtered),
    {
        let ghost orig = results@;
        let mut rest = results;
        let mut open_ports: Vec<PortResult> = Vec::new();
        let mut closed_ports: Vec<PortResult> = Vec::new();
        let mut filtered_ports: Vec<PortResult> = Vec::new();
        proof {
            assert(open_ports@ + with_state(rest@, PortState::Open) =~= with_state(
                orig,
                PortState::Open,
            ));
            assert(closed_ports@ + with_state(rest@, PortState::Closed) =~= with_state(
                orig,
                PortState::Closed,
            ));
            assert(filtered_ports@ + with_state(rest@, PortState::Filtered) =~= with_state(
                orig,
                PortState::Filtered,
            ));
        }
        while rest.len() > 0
            invariant
                with_state(orig, PortState::Open) == open_ports@ + with_state(
                    rest@,
                    PortState::Open,
                ),
                with_state(orig, PortState::Closed) == closed_ports@ + with_state(
                    rest@,
                    PortState::Closed,
                ),
                with_state(orig, PortState::Filtered) == filtered_ports@ + with_state(
                    rest@,
                    PortState::Filtered,
                ),
            decreases rest@.len(),
        {
            let ghost prev = rest@;
            let r = rest.remove(0);
            proof {
                assert(rest@ =~= prev.drop_first());
                assert(prev[0] == r);
            }
            let ghost ob = open_ports@;
            let ghost cb = closed_ports@;
            let ghost fb = filtered_ports@;
            match r.state {
                PortState::Open => {
                    open_ports.push(r);
                    proof {
                        assert(ob + (seq![prev[0]] + with_state(prev.drop_first(), PortState::Open))
                            =~= (ob + seq![prev[0]]) + with_state(
                            prev.drop_first(),
                            PortState::Open,
                        ));
                    }
                },
                PortState::Closed => {
                    closed_ports.push(r);
                    proof {
                        assert(cb + (seq![prev[0]] + with_state(
                            prev.drop_first(),
                            PortState::Closed,
                        )) =~= (cb + seq![prev[0]]) + with_state(
                            prev.drop_first(),
                            PortState::Closed,
                        ));
                    }
                },
                PortState::Filtered => {
                    filtered_ports.push(r);
                    proof {
                        assert(fb + (seq![prev[0]] + with_state(
                            prev.drop_first(),
                            PortState::Filtered,
                        )) =~= (fb + seq![prev[0]]) + with_state(
                            prev.drop_first(),
                            PortState::Filtered,
                        ));
                    }
                },
            }
        }
        proof {
            assert(rest@ =~= Seq::<PortResult>::empty());
            assert(open_ports@ + Seq::<PortResult>::empty() =~= open_ports@);
            assert(closed_ports@ + Seq::<PortResult>::empty() =~= closed_ports@);
            assert(filtered_ports@ + Seq::<PortResult>::empty() =~= filtered_ports@);
        }
        SynScanResult { open_ports, closed_ports, filtered_ports }
    }
}

/// The TCP scan orchestrator: holds the run's configuration and a resolver
/// handle. Socket work is the embedding program's; classification,
/// scheduling and result bookkeeping are here.
pub struct TCPScanner {
    pub config: Config,
    pub dns: DNSResolver,
}

impl TCPScanner {
    pub fn new(config: Config) -> (s: TCPScanner)
        ensures
            s.config == config,
    {
        TCPScanner { config, dns: DNSResolver::new() }
    }

    /// Parses a port specification into the ports to scan.
    pub fn parse_ports(ports_str: &str) -> (r: Vec<u16>)
        ensures
            r@ == parse_ports_spec(ports_str.spec_bytes()),
    {
        crate::ports::parse_port_bytes(ports_str.as_bytes())
    }
}

} // verus!
