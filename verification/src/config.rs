//! The configuration surface the scanners consume: targets, port
//! specification, protocol selection, timing and concurrency. How these
//! values are produced (command line, configuration file) is a collaborator's
//! business; the library only states what the defaults are.

use vstd::prelude::*;
use vstd::string::StringExecFns;

verus! {

/// A scan run's configuration, as plain values.
#[derive(Debug, Clone)]
pub struct Config {
    /// Targets as the user named them: IP literals or hostnames.
    pub target: Vec<String>,
    /// The textual port specification, e.g. `"80,443,1000-2000"`.
    pub ports: String,
    /// Whether TCP scanning is enabled.
    pub tcp: bool,
    /// Whether UDP scanning is enabled; it takes precedence over TCP.
    pub udp: bool,
    /// Per-attempt timeout in milliseconds.
    pub timeout: u64,
    /// Size of the shared concurrency permit pool.
    pub threads: u64,
    /// JSON output file, when JSON output was requested.
    pub json: Option<String>,
    /// Post-scan script to run, when one was requested.
    pub lua_script: Option<String>,
    /// Whether verbose logging is enabled.
    pub verbose: bool,
    /// Whether the user gave the port list explicitly, which affects how
    /// results are filtered for display.
    pub ports_explicitly_specified: bool,
}

/// The command-line surface, as plain values: what the embedding program's
/// argument parser hands over before it is merged into a `Config`.
#[derive(Debug, Clone)]
pub struct Args {
    /// Configuration file path; command-line values override the file's.
    pub config: Option<String>,
    /// Target IP addresses or hostnames.
    pub target: Vec<String>,
    /// Ports or port ranges, e.g. `80,443,1-1024`.
    pub ports: String,
    /// Whether TCP scanning is enabled.
    pub tcp: bool,
    /// Whether UDP scanning is enabled.
    pub udp: bool,
    /// Timeout per probe in milliseconds.
    pub timeout: u64,
    /// Number of concurrent tasks.
    pub threads: usize,
    /// JSON output file, when requested.
    pub json: Option<String>,
    /// Post-scan script to run, when requested.
    pub lua_script: Option<String>,
    /// Whether verbose logging is enabled.
    pub verbose: bool,
}

/// Relies on `num_cpus::get`: the number of logical CPUs of this machine,
/// documented to always be at least 1.
#[verifier::external_body]
fn cpu_count() -> (n: usize)
    ensures
        n >= 1,
{
    num_cpus::get()
}

impl Default for Config {
    /// The defaults of a run that nothing overrode: TCP only, the well-known
    /// port range, a two-second timeout, and one permit per logical CPU.
    fn default() -> (c: Config)
        ensures
            c.target@.len() == 0,
            c.ports@ == "1-1024"@,
            c.tcp,
            !c.udp,
            c.timeout == 2000,
            c.threads >= 1,
            c.json is None,
            c.lua_script is None,
            !c.verbose,
            !c.ports_explicitly_specified,
    {
        Config {
            target: Vec::new(),
            ports: String::from_str("1-1024"),
            tcp: true,
            udp: false,
            timeout: 2000,
            threads: cpu_count() as u64,
            json: None,
            lua_script: None,
            verbose: false,
            ports_explicitly_specified: false,
        }
    }
}

} // verus!
