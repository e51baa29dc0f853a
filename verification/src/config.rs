use vstd::prelude::*;

use crate::strutil::{dec_digits, u16_to_dec};

verus! {

/// Static settings of one proxy instance. Each instance serves exactly one
/// network; durations are whole seconds. Reading these from the process
/// environment happens outside the library, which only consumes the values.
pub struct Config {
    pub network: String,
    pub proxy_addr: String,
    pub proxy_namespace: String,
    pub proxy_tiers_path: String,
    pub proxy_tiers_poll_interval_secs: u64,
    pub prometheus_addr: String,
    pub ssl_crt_path: String,
    pub ssl_key_path: String,
    pub kupo_port: u16,
    pub kupo_dns: String,
    pub health_endpoint: String,
    pub health_poll_interval_secs: u64,
    pub private_endpoint: String,
}

/// The upstream target for this configuration and the given variant:
/// `kupo-{network}[-pruned].{dns}:{port}`.
pub open spec fn spec_instance(network: Seq<char>, dns: Seq<char>, port: u16, pruned: bool) -> Seq<
    char,
> {
    "kupo-"@ + network + (if pruned {
        "-pruned"@
    } else {
        Seq::<char>::empty()
    }) + "."@ + dns + ":"@ + dec_digits(port as nat)
}

impl Config {
    /// Address of the backend serving this configuration's network, in the
    /// pruned or the full variant.
    pub fn instance(&self, pruned: bool) -> (r: String)
        ensures
            r@ == spec_instance(self.network@, self.kupo_dns@, self.kupo_port, pruned),
    {
        let mut s = String::new();
        s.append("kupo-");
        s.append(self.network.as_str());
        if pruned {
            s.append("-pruned");
        }
        s.append(".");
        s.append(self.kupo_dns.as_str());
        s.append(":");
        let port = u16_to_dec(self.kupo_port);
        s.append(port.as_str());
        proof {
            assert(s@ =~= spec_instance(self.network@, self.kupo_dns@, self.kupo_port, pruned));
        }
        s
    }
}

} // verus!
