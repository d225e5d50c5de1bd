//! Run configuration: the values the command line hands to the probe engine.

use vstd::prelude::*;

verus! {

/// Configuration of one ping run. Immutable once constructed; the probe
/// loop owns it for the whole run.
pub struct Args {
    /// Target address or hostname to ping.
    pub target_addr: String,
    /// Number of ping packets to send.
    pub amount: u32,
    /// Per-probe timeout in seconds.
    pub timeout: u64,
    /// ICMP payload size in bytes.
    pub data_size: usize,
    /// Interval between pings in milliseconds.
    pub interval: u64,
}

impl Args {
    /// Builds a configuration with the standard defaults for everything but
    /// the target: 4 probes, 5 s timeout, 32 payload bytes, 1000 ms interval.
    pub fn nova(target_addr: String) -> (r: Args)
        ensures
            r.target_addr == target_addr,
            r.amount == 4u32,
            r.timeout == 5u64,
            r.data_size == 32usize,
            r.interval == 1000u64,
    {
        Args { target_addr, amount: 4, timeout: 5, data_size: 32, interval: 1000 }
    }
}

} // verus!
