//! A network port scanner library: port-spec parsing, an nmap-style probe
//! database, service detection by response matching, and the classification
//! and scheduling rules of the TCP and UDP scan orchestrators.
//!
//! The library holds every decision of a scan — what to scan, how an attempt
//! is classified, which probe to try next, what a response means, what the
//! result table says. The embedding program owns the sockets, the files and
//! the terminal, and feeds their outcomes back as plain values.

pub mod config;
pub mod dns;
pub mod output;
pub mod ports;
pub mod probe;
pub mod prober;
pub mod scanner;
pub mod script;
pub mod tcp;
pub mod text;
pub mod udp;
