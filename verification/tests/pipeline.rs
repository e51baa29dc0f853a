use kupo_proxy::config::Config;
use kupo_proxy::consumer::Consumer;
use kupo_proxy::pattern::Pattern;
use kupo_proxy::pipeline::{
    Decision, Request, extract_key, health_response, host_key, log_event, request_filter,
    unauthorized_response,
};
use kupo_proxy::state::State;
use kupo_proxy::tier::{RateRule, Tier};

fn test_config() -> Config {
    Config {
        network: "mainnet".to_string(),
        proxy_addr: "0.0.0.0:8080".to_string(),
        proxy_namespace: "ftr-kupo-v1".to_string(),
        proxy_tiers_path: "/etc/tiers.json".to_string(),
        proxy_tiers_poll_interval_secs: 2,
        prometheus_addr: "0.0.0.0:9187".to_string(),
        ssl_crt_path: "/certs/tls.crt".to_string(),
        ssl_key_path: "/certs/tls.key".to_string(),
        kupo_port: 1442,
        kupo_dns: "ftr-kupo-v1.svc.cluster.local".to_string(),
        health_endpoint: "/dmtr_health".to_string(),
        health_poll_interval_secs: 10,
        private_endpoint: r"^PUT/patterns(?:/.*)?$".to_string(),
    }
}

fn private_pattern(config: &Config) -> Pattern {
    Pattern::compile(&config.private_endpoint).unwrap()
}

fn test_state() -> State {
    let mut state = State::new();
    state.replace_consumers(vec![Consumer {
        key: "abc".to_string(),
        network: "mainnet".to_string(),
        pruned: false,
        tier: "free".to_string(),
    }]);
    state.apply_tier_refresh(Some(vec![Tier {
        name: "free".to_string(),
        rates: vec![RateRule { interval_ms: 60_000, limit: 2 }],
    }]));
    state.set_upstream_health(true);
    state
}

fn request(method: &str, path: &str, api_key: Option<&str>) -> Request {
    Request {
        method: method.to_string(),
        path: path.to_string(),
        host: Some("abc.mainnet.kupo.example.com".to_string()),
        api_key: api_key.map(|k| k.to_string()),
    }
}

#[test]
fn health_endpoint_reports_the_flag() {
    let config = test_config();
    let pattern = private_pattern(&config);
    let mut state = test_state();
    let req = request("GET", "/dmtr_health", None);
    match request_filter(&config, &pattern, &mut state, &req, 0) {
        Decision::Health { healthy } => assert!(healthy),
        other => panic!("expected a health decision, got {other:?}"),
    }
    state.set_upstream_health(false);
    match request_filter(&config, &pattern, &mut state, &req, 0) {
        Decision::Health { healthy } => assert!(!healthy),
        other => panic!("expected a health decision, got {other:?}"),
    }
    // The health answer does not depend on the credential presented.
    let bad_key = request("GET", "/dmtr_health", Some("nope"));
    assert!(matches!(
        request_filter(&config, &pattern, &mut state, &bad_key, 0),
        Decision::Health { healthy: false }
    ));
}

#[test]
fn health_responses_are_exact() {
    assert_eq!(health_response(true), (200, "OK"));
    assert_eq!(health_response(false), (500, "UNHEALTHY"));
}

#[test]
fn health_request_is_excluded_from_metrics() {
    let consumer = Consumer::default();
    assert!(log_event(true, &consumer, "ns", "inst", 200).is_none());
    let event = log_event(false, &consumer, "ns", "inst", 429).unwrap();
    assert_eq!(event.namespace, "ns");
    assert_eq!(event.instance, "inst");
    assert_eq!(event.status, 429);
}

#[test]
fn private_endpoint_is_blocked_with_and_without_credential() {
    let config = test_config();
    let pattern = private_pattern(&config);
    let mut state = test_state();
    let with_key = request("PUT", "/patterns/addr1", Some("abc"));
    assert!(matches!(
        request_filter(&config, &pattern, &mut state, &with_key, 0),
        Decision::Blocked
    ));
    let without_key = request("PUT", "/patterns", None);
    assert!(matches!(
        request_filter(&config, &pattern, &mut state, &without_key, 0),
        Decision::Blocked
    ));
    // A read of the same path passes the guard (and here authenticates).
    let get = request("GET", "/patterns", Some("abc"));
    assert!(matches!(
        request_filter(&config, &pattern, &mut state, &get, 0),
        Decision::Forward { .. }
    ));
}

#[test]
fn blocked_response_is_exact() {
    let (code, body) = unauthorized_response();
    assert_eq!(code, 401);
    assert_eq!(body, "unauthorized to request the endpoint");
}

#[test]
fn unknown_credential_is_unauthorized_and_reaches_no_counter() {
    let config = test_config();
    let pattern = private_pattern(&config);
    let mut state = test_state();
    let req = request("GET", "/matches", Some("nope"));
    assert!(matches!(
        request_filter(&config, &pattern, &mut state, &req, 0),
        Decision::Unauthorized
    ));
    // The rate-limit stage was never reached: no slot was created.
    assert!(!state.limiter.has_limiter("nope"));
}

#[test]
fn wrong_network_is_unauthorized() {
    let config = test_config();
    let pattern = private_pattern(&config);
    let mut state = test_state();
    state.replace_consumers(vec![Consumer {
        key: "abc".to_string(),
        network: "preprod".to_string(),
        pruned: false,
        tier: "free".to_string(),
    }]);
    let req = request("GET", "/matches", Some("abc"));
    assert!(matches!(
        request_filter(&config, &pattern, &mut state, &req, 0),
        Decision::Unauthorized
    ));
    assert!(!state.limiter.has_limiter("abc"));
}

#[test]
fn free_tier_scenario_forwards_twice_then_limits() {
    // Consumer abc on mainnet, full variant, tier "free" with one rule of
    // two requests per minute: three quick requests forward, forward, limit.
    let config = test_config();
    let pattern = private_pattern(&config);
    let mut state = test_state();
    let req = request("GET", "/matches/addr1", Some("abc"));
    for expected_forward in [true, true, false] {
        match request_filter(&config, &pattern, &mut state, &req, 5) {
            Decision::Forward { consumer, instance } => {
                assert!(expected_forward);
                assert_eq!(consumer.key, "abc");
                assert!(!consumer.pruned);
                assert_eq!(instance, "kupo-mainnet.ftr-kupo-v1.svc.cluster.local:1442");
            }
            Decision::RateLimited { consumer, instance } => {
                assert!(!expected_forward);
                // The rejected request still carries its labels.
                assert_eq!(consumer.key, "abc");
                assert_eq!(instance, "kupo-mainnet.ftr-kupo-v1.svc.cluster.local:1442");
            }
            other => panic!("unexpected decision {other:?}"),
        }
    }
}

#[test]
fn pruned_consumer_forwards_to_pruned_instance() {
    let config = test_config();
    let pattern = private_pattern(&config);
    let mut state = test_state();
    state.replace_consumers(vec![Consumer {
        key: "abc".to_string(),
        network: "mainnet".to_string(),
        pruned: true,
        tier: "free".to_string(),
    }]);
    let req = request("GET", "/matches", Some("abc"));
    match request_filter(&config, &pattern, &mut state, &req, 0) {
        Decision::Forward { instance, .. } => {
            assert_eq!(instance, "kupo-mainnet-pruned.ftr-kupo-v1.svc.cluster.local:1442");
        }
        other => panic!("unexpected decision {other:?}"),
    }
}

#[test]
fn consumer_without_catalog_tier_is_not_limited() {
    let config = test_config();
    let pattern = private_pattern(&config);
    let mut state = test_state();
    state.replace_consumers(vec![Consumer {
        key: "abc".to_string(),
        network: "mainnet".to_string(),
        pruned: false,
        tier: String::new(),
    }]);
    let req = request("GET", "/matches", Some("abc"));
    for _ in 0..10 {
        assert!(matches!(
            request_filter(&config, &pattern, &mut state, &req, 0),
            Decision::Forward { .. }
        ));
    }
}

#[test]
fn credential_header_wins_over_host() {
    let req = Request {
        method: "GET".to_string(),
        path: "/".to_string(),
        host: Some("fromhost.example.com".to_string()),
        api_key: Some("fromheader".to_string()),
    };
    assert_eq!(extract_key(&req), "fromheader");
}

#[test]
fn credential_falls_back_to_host_label() {
    let req = Request {
        method: "GET".to_string(),
        path: "/".to_string(),
        host: Some("dmtr_abc123.mainnet.example.com".to_string()),
        api_key: None,
    };
    assert_eq!(extract_key(&req), "dmtr_abc123");
}

#[test]
fn missing_credential_is_empty() {
    let req = Request {
        method: "GET".to_string(),
        path: "/".to_string(),
        host: None,
        api_key: None,
    };
    assert_eq!(extract_key(&req), "");
}

#[test]
fn host_label_stops_at_the_first_separator() {
    assert_eq!(host_key("abc.example.com"), "abc");
    assert_eq!(host_key("abc-1_b.example.com"), "abc-1_b");
    assert_eq!(host_key(".example.com"), "");
    assert_eq!(host_key(""), "");
    assert_eq!(host_key("bare"), "bare");
    assert_eq!(host_key("label:443"), "label");
}

#[test]
fn pattern_matching_follows_the_pattern() {
    // The compiled matcher really consults the pattern: it must accept and
    // reject according to it, not echo its input.
    let p = Pattern::compile(r"^PUT/patterns(?:/.*)?$").unwrap();
    assert!(p.is_match("PUT/patterns"));
    assert!(p.is_match("PUT/patterns/addr1"));
    assert!(!p.is_match("GET/patterns"));
    assert!(!p.is_match("PUT/matches"));
    assert!(!p.is_match("xPUT/patterns"));
}

#[test]
fn ill_formed_pattern_is_refused() {
    assert!(Pattern::compile("(unclosed").is_none());
}
