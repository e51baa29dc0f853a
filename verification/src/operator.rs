use vstd::prelude::*;

verus! {

/// What a tenant asks for: one indexer port on a network, pruned or full,
/// throttled by a named throughput tier. The external reconciliation process
/// turns one of these into a Tenant Directory entry; the dataplane only ever
/// consumes that entry.
#[derive(Clone, Debug)]
pub struct KupoPortSpec {
    pub operator_version: String,
    pub network: String,
    pub prune_utxo: bool,
    pub throughput_tier: String,
}

/// What provisioning reports back for one tenant: the public endpoint, the
/// key-bearing endpoint, and the minted API key.
#[derive(Debug)]
pub struct KupoPortStatus {
    pub endpoint_url: String,
    pub endpoint_key_url: String,
    pub auth_token: String,
}

/// The status published after a reconcile pass: both hostnames made into
/// `https://` URLs, and the minted key verbatim.
pub fn port_status(hostname: &str, hostname_key: &str, key: &str) -> (r: KupoPortStatus)
    ensures
        r.endpoint_url@ == "https://"@ + hostname@,
        r.endpoint_key_url@ == "https://"@ + hostname_key@,
        r.auth_token@ == key@,
{
    let mut endpoint_url = String::new();
    endpoint_url.append("https://");
    endpoint_url.append(hostname);
    let mut endpoint_key_url = String::new();
    endpoint_key_url.append("https://");
    endpoint_key_url.append(hostname_key);
    KupoPortStatus { endpoint_url, endpoint_key_url, auth_token: key.to_owned() }
}

/// Settings of the reconciliation process. It needs none beyond what its
/// environment supplies, so this carries nothing.
pub struct Config {}

impl Config {
    pub fn new() -> (r: Config) {
        Config {  }
    }
}

impl Default for Config {
    fn default() -> (r: Config) {
        Config::new()
    }
}

} // verus!
