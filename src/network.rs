//! Addresses and placeholder answers for the `network.scan` built-in.
//!
//! Probing hosts is I/O and belongs to the host application; what is decided
//! here is which addresses a scan covers and what the placeholder lookups say.

use crate::text::{decimal_string, nat_decimal};
use vstd::prelude::*;
use vstd::string::StringExecFns;

verus! {

/// The host part of the last address a scan covers.
pub const LAST_HOST: u64 = 254;

/// `subnet.host`, the address of one host.
pub open spec fn host_address(subnet: Seq<char>, host: nat) -> Seq<char> {
    subnet + seq!['.'] + nat_decimal(host)
}

/// The address of one host of `subnet`.
fn address(subnet: &str, host: u64) -> (r: String)
    requires
        host <= LAST_HOST,
    ensures
        r@ == host_address(subnet@, host as nat),
{
    let dotted = subnet.to_owned().concat(".");
    proof {
        reveal_strlit(".");
    }
    let digits = decimal_string(host as i64);
    assert(digits@ == nat_decimal(host as nat));
    dotted.concat(digits.as_str())
}

pub struct NetworkStack;

impl NetworkStack {
    pub fn new() -> (r: NetworkStack) {
        NetworkStack
    }

    /// Every address a scan of `subnet` probes: hosts 1 to 254, in order.
    pub fn host_addresses(&self, subnet: &str) -> (r: Vec<String>)
        ensures
            r@.len() == LAST_HOST,
            forall|k: int| 0 <= k < LAST_HOST ==> #[trigger] r@[k]@ == host_address(subnet@, (k + 1) as nat),
    {
        let mut out: Vec<String> = Vec::new();
        let mut host: u64 = 1;
        while host <= LAST_HOST
            invariant
                1 <= host <= LAST_HOST + 1,
                out@.len() == host - 1,
                forall|k: int| 0 <= k < out@.len() ==> #[trigger] out@[k]@ == host_address(subnet@, (k + 1) as nat),
            decreases LAST_HOST + 1 - host,
        {
            out.push(address(subnet, host));
            host = host + 1;
        }
        out
    }

    /// The simulated scan: every tenth host of `subnet` answers.
    pub fn scan(&self, subnet: &str) -> (r: Vec<String>)
        ensures
            r@.len() == 25,
            forall|k: int| 0 <= k < 25 ==> #[trigger] r@[k]@ == host_address(subnet@, (10 * (k + 1)) as nat),
    {
        let mut out: Vec<String> = Vec::new();
        let mut host: u64 = 1;
        while host <= LAST_HOST
            invariant
                1 <= host <= LAST_HOST + 1,
                out@.len() == (host - 1) / 10,
                forall|k: int| 0 <= k < out@.len() ==> #[trigger] out@[k]@ == host_address(subnet@, (10 * (k + 1)) as nat),
            decreases LAST_HOST + 1 - host,
        {
            if host % 10 == 0 {
                out.push(address(subnet, host));
            }
            host = host + 1;
        }
        out
    }

    /// The placeholder MAC address reported for `ip`.
    pub fn get_mac(&self, ip: &str) -> (r: String)
        ensures
            r@ == "00:14:22:xx:xx:xx (ARP placeholder for "@ + ip@ + ")"@,
    {
        "00:14:22:xx:xx:xx (ARP placeholder for ".to_owned().concat(ip).concat(")")
    }

    /// The placeholder answer of an ARP lookup of `ip`.
    pub fn arp_lookup(&self, ip: &str) -> (r: String)
        ensures
            r@ == "00:14:22:xx:xx:xx (ARP lookup placeholder for "@ + ip@ + ")"@,
    {
        "00:14:22:xx:xx:xx (ARP lookup placeholder for ".to_owned().concat(ip).concat(")")
    }
}

} // verus!
