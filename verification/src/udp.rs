//! The UDP scan orchestrator's verified core: the well-known probe payloads,
//! and the classification of datagram outcomes into port states. A response
//! means Open; a timeout also means Open, since silence cannot distinguish
//! an open-but-quiet service from a filtered one; socket errors mean Closed.

use vstd::prelude::*;

use crate::config::Config;
use crate::dns::DNSResolver;
use crate::ports::parse_ports_spec;
use vstd::string::StringSliceAdditionalSpecFns;

verus! {

/// The terminal classification of one UDP port. `Open` stands for
/// "open or filtered": no response is resolved toward Open.
#[derive(Debug, Clone, Copy, PartialEq, Eq, Structural)]
pub enum UdpPortState {
    Open,
    Closed,
}

/// How one UDP probe resolved, as the sockets reported it.
#[derive(Debug, Clone, Copy, PartialEq, Eq, Structural)]
pub enum UdpOutcome {
    /// The local socket could not be bound.
    BindError,
    /// The socket could not be associated with the destination.
    ConnectError,
    /// The probe datagram could not be sent.
    SendError,
    /// A response datagram arrived within the deadline.
    Received,
    /// Receiving failed with an error.
    RecvError,
    /// The deadline passed with no datagram.
    TimedOut,
}

/// The classification table of the UDP orchestrator: a response means Open,
/// a timeout means Open (open or filtered), and every socket error means
/// Closed.
pub open spec fn classify_udp_spec(o: UdpOutcome) -> UdpPortState {
    match o {
        UdpOutcome::BindError => UdpPortState::Closed,
        UdpOutcome::ConnectError => UdpPortState::Closed,
        UdpOutcome::SendError => UdpPortState::Closed,
        UdpOutcome::Received => UdpPortState::Open,
        UdpOutcome::RecvError => UdpPortState::Closed,
        UdpOutcome::TimedOut => UdpPortState::Open,
    }
}

/// Classifies how one UDP probe resolved into the port's state.
pub fn classify_udp_outcome(o: UdpOutcome) -> (r: UdpPortState)
    ensures
        r == classify_udp_spec(o),
{
    match o {
        UdpOutcome::BindError => UdpPortState::Closed,
        UdpOutcome::ConnectError => UdpPortState::Closed,
        UdpOutcome::SendError => UdpPortState::Closed,
        UdpOutcome::Received => UdpPortState::Open,
        UdpOutcome::RecvError => UdpPortState::Closed,
        UdpOutcome::TimedOut => UdpPortState::Open,
    }
}

/// The probe payload sent to a well-known UDP port: a DNS query for 53, an
/// SNMP GetRequest for 161, an NTP client request for 123, and an empty
/// datagram for every other port.
pub open spec fn udp_probe_spec(port: u16) -> Seq<u8> {
    if port == 53 {
        seq![
            0x12u8, 0x34, 0x01, 0x00, 0x00, 0x01, 0x00, 0x00, 0x00, 0x00, 0x00, 0x00, 0x06, 0x67,
            0x6f, 0x6f, 0x67, 0x6c, 0x65, 0x03, 0x63, 0x6f, 0x6d, 0x00, 0x00, 0x01, 0x00, 0x01,
        ]
    } else if port == 161 {
        seq![
            0x30u8, 0x26, 0x02, 0x01, 0x00, 0x04, 0x06, 0x70, 0x75, 0x62, 0x6c, 0x69, 0x63, 0xa0,
            0x19, 0x02, 0x01, 0x01, 0x02, 0x01, 0x00, 0x02, 0x01, 0x00, 0x30, 0x0e, 0x30, 0x0c,
            0x06, 0x08, 0x2b, 0x06, 0x01, 0x02, 0x01, 0x01, 0x01, 0x00, 0x05, 0x00,
        ]
    } else if port == 123 {
        seq![0x1bu8] + Seq::new(47, |i: int| 0u8)
    } else {
        Seq::empty()
    }
}

/// The UDP scan orchestrator: holds the run's configuration and a resolver
/// handle. Socket work is the embedding program's.
pub struct UDPScanner {
    pub config: Config,
    pub dns: DNSResolver,
}

impl UDPScanner {
    pub fn new(config: Config) -> (s: UDPScanner)
        ensures
            s.config == config,
    {
        UDPScanner { config, dns: DNSResolver::new() }
    }

    /// Parses a port specification into the ports to scan.
    pub fn parse_ports(ports_str: &str) -> (r: Vec<u16>)
        ensures
            r@ == parse_ports_spec(ports_str.spec_bytes()),
    {
        crate::ports::parse_port_bytes(ports_str.as_bytes())
    }

    /// The probe payload for one port, chosen by well-known port number.
    pub fn get_probe_data_for_port(&self, port: u16) -> (r: Vec<u8>)
        ensures
            r@ == udp_probe_spec(port),
    {
        if port == 53 {
            let v: Vec<u8> = vec![
                0x12u8, 0x34, 0x01, 0x00, 0x00, 0x01, 0x00, 0x00, 0x00, 0x00, 0x00, 0x00, 0x06,
                0x67, 0x6f, 0x6f, 0x67, 0x6c, 0x65, 0x03, 0x63, 0x6f, 0x6d, 0x00, 0x00, 0x01,
                0x00, 0x01,
            ];
            proof {
                assert(v@ =~= udp_probe_spec(port));
            }
            v
        } else if port == 161 {
            let v: Vec<u8> = vec![
                0x30u8, 0x26, 0x02, 0x01, 0x00, 0x04, 0x06, 0x70, 0x75, 0x62, 0x6c, 0x69, 0x63,
                0xa0, 0x19, 0x02, 0x01, 0x01, 0x02, 0x01, 0x00, 0x02, 0x01, 0x00, 0x30, 0x0e,
                0x30, 0x0c, 0x06, 0x08, 0x2b, 0x06, 0x01, 0x02, 0x01, 0x01, 0x01, 0x00, 0x05,
                0x00,
            ];
            proof {
                assert(v@ =~= udp_probe_spec(port));
            }
            v
        } else if port == 123 {
            let mut v: Vec<u8> = Vec::new();
            v.push(0x1b);
            let mut i: usize = 0;
            while i < 47
                invariant
                    0 <= i <= 47,
                    v@.len() == i + 1,
                    v@[0] == 0x1bu8,
                    forall|k: int| 1 <= k < v@.len() ==> v@[k] == 0u8,
                decreases 47 - i,
            {
                v.push(0);
                i = i + 1;
            }
            proof {
                assert(v@ =~= udp_probe_spec(port));
            }
            v
        } else {
            let v: Vec<u8> = Vec::new();
            proof {
                assert(v@ =~= udp_probe_spec(port));
            }
            v
        }
    }

    /// Classifies a whole sequential UDP sweep, resolving port `i`'s probe
    /// with `outcomes[i]`: the reference driver for the orchestrator's
    /// bookkeeping.
    pub fn classify_sweep(&self, ports: &Vec<u16>, outcomes: &Vec<UdpOutcome>) -> (r: Vec<
        (u16, UdpPortState),
    >)
        requires
            ports@.len() == outcomes@.len(),
        ensures
            r@.len() == ports@.len(),
            forall|i: int|
                0 <= i < r@.len() ==> #[trigger] r@[i] == (
                ports@[i],
                classify_udp_spec(outcomes@[i]),
                ),
    {
        let mut out: Vec<(u16, UdpPortState)> = Vec::new();
        let mut i: usize = 0;
        while i < ports.len()
            invariant
                0 <= i <= ports@.len(),
                ports@.len() == outcomes@.len(),
                out@.len() == i,
                forall|k: int|
                    0 <= k < i ==> #[trigger] out@[k] == (
                    ports@[k],
                    classify_udp_spec(outcomes@[k]),
                    ),
            decreases ports@.len() - i,
        {
            let st = classify_udp_outcome(outcomes[i]);
            out.push((ports[i], st));
            i = i + 1;
        }
        out
    }
}

} // verus!
