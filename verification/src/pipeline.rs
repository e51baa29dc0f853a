use vstd::prelude::*;

use crate::config::{Config, spec_instance};
use crate::consumer::{Consumer, spec_lookup};
use crate::limiter::{effective_counters, slot_of, spec_entry, spec_limited};
use crate::pattern::{Pattern, regex_match};
use crate::state::State;
use crate::strutil::str_eq;
use crate::tier::spec_find_tier;

verus! {

/// What the pipeline reads of an inbound request: the HTTP method, the URI
/// path, the `Host` header if one came and was readable, and the value of
/// the dedicated credential header if one came and was readable.
pub struct Request {
    pub method: String,
    pub path: String,
    pub host: Option<String>,
    pub api_key: Option<String>,
}

/// The mathematical image of a request.
pub struct RequestView {
    pub method: Seq<char>,
    pub path: Seq<char>,
    pub host: Option<Seq<char>>,
    pub api_key: Option<Seq<char>>,
}

impl View for Request {
    type V = RequestView;

    open spec fn view(&self) -> RequestView {
        RequestView {
            method: self.method@,
            path: self.path@,
            host: match self.host {
                Some(h) => Some(h@),
                None => None,
            },
            api_key: match self.api_key {
                Some(k) => Some(k@),
                None => None,
            },
        }
    }
}

/// A character that may appear in a credential parsed out of a host name:
/// a letter, a digit, an underscore or a hyphen.
pub open spec fn is_key_char(c: char) -> bool {
    ('a' <= c && c <= 'z') || ('A' <= c && c <= 'Z') || ('0' <= c && c <= '9') || c == '_' || c
        == '-'
}

/// The credential encoded in a host name, subdomain-style: its leading run
/// of key characters, which ends at the first dot (or other separator); a
/// host that starts with none yields the empty credential.
pub open spec fn spec_host_key(host: Seq<char>) -> Seq<char>
    decreases host.len(),
{
    if host.len() == 0 || !is_key_char(host[0]) {
        Seq::<char>::empty()
    } else {
        seq![host[0]] + spec_host_key(host.drop_first())
    }
}

/// The credential a request presents: the dedicated header when it came,
/// otherwise the leading label of the `Host` header, otherwise empty — an
/// empty credential is a valid, failing one.
pub open spec fn spec_extract_key(req: RequestView) -> Seq<char> {
    match req.api_key {
        Some(k) => k,
        None => match req.host {
            Some(h) => spec_host_key(h),
            None => Seq::<char>::empty(),
        },
    }
}

fn is_key_char_x(c: char) -> (r: bool)
    ensures
        r == is_key_char(c),
{
    ('a' <= c && c <= 'z') || ('A' <= c && c <= 'Z') || ('0' <= c && c <= '9') || c == '_' || c
        == '-'
}

proof fn lemma_host_key_take(host: Seq<char>, i: int)
    requires
        0 <= i <= host.len(),
        forall|j: int| 0 <= j < i ==> is_key_char(host[j]),
        i < host.len() ==> !is_key_char(host[i]),
    ensures
        spec_host_key(host) == host.take(i),
    decreases host.len(),
{
    if i == 0 {
        assert(host.take(0) =~= Seq::<char>::empty());
    } else {
        lemma_host_key_take(host.drop_first(), i - 1);
        assert(host.take(i) =~= seq![host[0]] + host.drop_first().take(i - 1));
    }
}

/// The leading credential label of a host name.
pub fn host_key(host: &str) -> (r: String)
    ensures
        r@ == spec_host_key(host@),
{
    let n = host.unicode_len();
    let mut i: usize = 0;
    let mut going = true;
    while going
        invariant
            0 <= i <= n,
            n == host@.len(),
            forall|j: int| 0 <= j < i ==> is_key_char(host@[j]),
            !going ==> (i == n || !is_key_char(host@[i as int])),
        decreases n - i + (if going {
            1int
        } else {
            0int
        }),
    {
        if i < n {
            let c = host.get_char(i);
            if is_key_char_x(c) {
                i = i + 1;
            } else {
                going = false;
            }
        } else {
            going = false;
        }
    }
    proof {
        lemma_host_key_take(host@, i as int);
    }
    let label = host.substring_char(0, i);
    proof {
        assert(label@ =~= host@.take(i as int));
    }
    label.to_owned()
}

/// The credential a request presents, per the extraction order documented on
/// `spec_extract_key`.
pub fn extract_key(req: &Request) -> (r: String)
    ensures
        r@ == spec_extract_key(req@),
{
    match &req.api_key {
        Some(k) => k.clone(),
        None => match &req.host {
            Some(h) => host_key(h.as_str()),
            None => String::new(),
        },
    }
}

/// Where the pipeline left a request: short-circuited with a response, or
/// cleared for forwarding to a chosen upstream instance.
#[derive(Debug)]
pub enum Decision {
    /// The dedicated health endpoint was asked: respond immediately, skip
    /// metrics, close the connection.
    Health { healthy: bool },
    /// `{method}{path}` matched the private-endpoint pattern: 401, whatever
    /// credential came along.
    Blocked,
    /// Unknown credential, or a key provisioned for another network: 401.
    Unauthorized,
    /// Some rule of the consumer's tier went over its limit: 429. The
    /// resolved consumer and its instance still label the response's metrics.
    RateLimited { consumer: Consumer, instance: String },
    /// Authenticated, on the right network, within its rates: forward to the
    /// instance serving this consumer's variant.
    Forward { consumer: Consumer, instance: String },
}

/// Status code and body of the dedicated health endpoint's response:
/// `200 "OK"` while the upstream is healthy, `500 "UNHEALTHY"` otherwise.
pub fn health_response(healthy: bool) -> (r: (u16, &'static str))
    ensures
        healthy ==> r == (200u16, "OK"),
        !healthy ==> r == (500u16, "UNHEALTHY"),
{
    if healthy {
        (200, "OK")
    } else {
        (500, "UNHEALTHY")
    }
}

/// Status code and body sent for a blocked private endpoint.
pub fn unauthorized_response() -> (r: (u16, &'static str))
    ensures
        r.0 == 401,
        r.1@ == "unauthorized to request the endpoint"@,
{
    (401, "unauthorized to request the endpoint")
}

/// The per-request decision sequence, in its fixed order, first match wins:
/// health short-circuit, private-endpoint block, credential extraction,
/// consumer resolution, network match, rate limit, forward. Only the
/// rate-limit step writes anything — one observation on each of the matched
/// consumer's counters — and it is reached only by requests that carry a
/// known credential of this proxy's network.
pub fn request_filter(
    config: &Config,
    private_pattern: &Pattern,
    state: &mut State,
    req: &Request,
    now: u64,
) -> (d: Decision)
    ensures
        ({
            let health = req@.path == config.health_endpoint@;
            let private = regex_match(private_pattern.src(), req@.method + req@.path);
            let key = spec_extract_key(req@);
            let found = spec_lookup(old(state).consumers@, key);
            if health {
                d == (Decision::Health { healthy: old(state).upstream_health }) && *final(state)
                    == *old(state)
            } else if private {
                d == Decision::Blocked && *final(state) == *old(state)
            } else {
                match found {
                    None => d == Decision::Unauthorized && *final(state) == *old(state),
                    Some(c) => if c.network != config.network@ {
                        d == Decision::Unauthorized && *final(state) == *old(state)
                    } else {
                        let limited = spec_limited(old(state).limiter@, old(state).tiers@, c, now);
                        &&& limited ==> (d matches Decision::RateLimited { consumer, instance }
                            && consumer@ == c && instance@ == spec_instance(
                            config.network@,
                            config.kupo_dns@,
                            config.kupo_port,
                            c.pruned,
                        ))
                        &&& !limited ==> (d matches Decision::Forward { consumer, instance }
                            && consumer@ == c && instance@ == spec_instance(
                            config.network@,
                            config.kupo_dns@,
                            config.kupo_port,
                            c.pruned,
                        ))
                        &&& final(state).consumers@ == old(state).consumers@
                        &&& final(state).tiers@ == old(state).tiers@
                        &&& final(state).upstream_health == old(state).upstream_health
                        &&& match spec_find_tier(old(state).tiers@, c.tier) {
                            None => final(state).limiter@ == old(state).limiter@,
                            Some(t) => spec_entry(final(state).limiter@, c.key) == Some(
                                effective_counters(
                                    slot_of(old(state).limiter@, c.key),
                                    t.rates,
                                    now,
                                ),
                            ),
                        }
                        &&& forall|k2: Seq<char>|
                            k2 != c.key ==> spec_entry(final(state).limiter@, k2) == spec_entry(
                                old(state).limiter@,
                                k2,
                            )
                    },
                }
            }
        }),
{
    if str_eq(req.path.as_str(), config.health_endpoint.as_str()) {
        return Decision::Health { healthy: state.upstream_health };
    }
    let mut probe = String::new();
    probe.append(req.method.as_str());
    probe.append(req.path.as_str());
    if private_pattern.is_match(probe.as_str()) {
        return Decision::Blocked;
    }
    let key = extract_key(req);
    let consumer = match state.consumers.lookup_consumer(key.as_str()) {
        None => {
            return Decision::Unauthorized;
        },
        Some(c) => c,
    };
    if !str_eq(consumer.network.as_str(), config.network.as_str()) {
        return Decision::Unauthorized;
    }
    let instance = config.instance(consumer.pruned);
    let limited = state.limiter.limiter(&state.tiers, &consumer, now);
    if limited {
        return Decision::RateLimited { consumer, instance };
    }
    Decision::Forward { consumer, instance }
}

/// What the post-response hook records for a request: nothing for a health
/// probe — those are excluded from metrics and logging — and one counter
/// sample, labeled by consumer, namespace and upstream instance, for
/// everything else.
pub struct MetricEvent {
    pub consumer_key: String,
    pub namespace: String,
    pub instance: String,
    pub status: u16,
}

/// The metrics decision of the post-response hook: a health request yields
/// no sample; any other yields exactly one, carrying the labels as given.
pub fn log_event(
    is_health_request: bool,
    consumer: &Consumer,
    namespace: &str,
    instance: &str,
    status: u16,
) -> (r: Option<MetricEvent>)
    ensures
        is_health_request <==> r is None,
        r matches Some(e) ==> e.consumer_key@ == consumer@.key && e.namespace@ == namespace@
            && e.instance@ == instance@ && e.status == status,
{
    if is_health_request {
        None
    } else {
        Some(
            MetricEvent {
                consumer_key: consumer.key.clone(),
                namespace: namespace.to_owned(),
                instance: instance.to_owned(),
                status,
            },
        )
    }
}

} // verus!
