use kupo_proxy::config::Config;
use kupo_proxy::consumer::Consumer;
use kupo_proxy::operator::port_status;
use kupo_proxy::state::State;
use kupo_proxy::strutil::u16_to_dec;
use kupo_proxy::tier::{Catalog, RateRule, Tier};

fn tier(name: &str, interval_ms: u64, limit: u64) -> Tier {
    Tier { name: name.to_string(), rates: vec![RateRule { interval_ms, limit }] }
}

#[test]
fn catalog_replacement_is_all_or_nothing() {
    let mut state = State::new();
    state.apply_tier_refresh(Some(vec![tier("free", 60_000, 2), tier("paid", 60_000, 50)]));
    assert_eq!(state.tiers.find_tier("free").unwrap().rates[0].limit, 2);
    assert_eq!(state.tiers.find_tier("paid").unwrap().rates[0].limit, 50);

    // A successful poll swaps the whole catalog: the new rule set is there
    // in full and nothing of the old one is left.
    state.apply_tier_refresh(Some(vec![tier("free", 1000, 5)]));
    let free = state.tiers.find_tier("free").unwrap();
    assert_eq!(free.rates[0].interval_ms, 1000);
    assert_eq!(free.rates[0].limit, 5);
    assert!(state.tiers.find_tier("paid").is_none());
}

#[test]
fn failed_refresh_keeps_the_last_known_good_catalog() {
    let mut state = State::new();
    state.apply_tier_refresh(Some(vec![tier("free", 60_000, 2)]));
    state.apply_tier_refresh(None);
    assert_eq!(state.tiers.find_tier("free").unwrap().rates[0].limit, 2);
}

#[test]
fn snapshot_is_insulated_from_replacement() {
    let mut state = State::new();
    state.apply_tier_refresh(Some(vec![tier("free", 60_000, 2)]));
    let snapshot = state.current_tiers();
    state.apply_tier_refresh(Some(vec![tier("free", 1000, 9)]));
    // The reader's snapshot still shows the full old rule set.
    assert_eq!(snapshot.find_tier("free").unwrap().rates[0].limit, 2);
    assert_eq!(state.tiers.find_tier("free").unwrap().rates[0].limit, 9);
}

#[test]
fn directory_lookup_finds_only_known_keys() {
    let mut state = State::new();
    assert!(state.get_consumer("abc").is_none());
    state.replace_consumers(vec![Consumer {
        key: "abc".to_string(),
        network: "mainnet".to_string(),
        pruned: true,
        tier: "free".to_string(),
    }]);
    let c = state.get_consumer("abc").unwrap();
    assert_eq!(c.network, "mainnet");
    assert!(c.pruned);
    assert_eq!(c.tier, "free");
    assert!(state.get_consumer("abd").is_none());
    assert!(state.get_consumer("").is_none());
}

#[test]
fn health_flag_follows_the_last_probe() {
    let mut state = State::new();
    assert!(!state.upstream_health);
    state.set_upstream_health(true);
    assert!(state.upstream_health);
    state.set_upstream_health(false);
    assert!(!state.upstream_health);
}

#[test]
fn instance_names_both_variants() {
    let config = Config {
        network: "preprod".to_string(),
        proxy_addr: String::new(),
        proxy_namespace: String::new(),
        proxy_tiers_path: String::new(),
        proxy_tiers_poll_interval_secs: 2,
        prometheus_addr: String::new(),
        ssl_crt_path: String::new(),
        ssl_key_path: String::new(),
        kupo_port: 1442,
        kupo_dns: "svc.local".to_string(),
        health_endpoint: "/dmtr_health".to_string(),
        health_poll_interval_secs: 10,
        private_endpoint: String::new(),
    };
    assert_eq!(config.instance(false), "kupo-preprod.svc.local:1442");
    assert_eq!(config.instance(true), "kupo-preprod-pruned.svc.local:1442");
}

#[test]
fn decimal_rendering_is_exact() {
    assert_eq!(u16_to_dec(0), "0");
    assert_eq!(u16_to_dec(7), "7");
    assert_eq!(u16_to_dec(10), "10");
    assert_eq!(u16_to_dec(1442), "1442");
    assert_eq!(u16_to_dec(65535), "65535");
}

#[test]
fn port_status_builds_https_urls() {
    let status = port_status("abc.kupo.example.com", "abc-key.kupo.example.com", "dmtr_abc");
    assert_eq!(status.endpoint_url, "https://abc.kupo.example.com");
    assert_eq!(status.endpoint_key_url, "https://abc-key.kupo.example.com");
    assert_eq!(status.auth_token, "dmtr_abc");
}

#[test]
fn default_consumer_is_the_unauthenticated_sentinel() {
    let c = Consumer::default();
    assert_eq!(c.key, "");
    assert_eq!(c.network, "");
    assert!(!c.pruned);
    assert_eq!(c.tier, "");
}

#[test]
fn catalog_lookup_is_by_exact_name() {
    let mut catalog = Catalog::new();
    catalog.replace(vec![tier("free", 60_000, 2)]);
    assert!(catalog.find_tier("free").is_some());
    assert!(catalog.find_tier("fre").is_none());
    assert!(catalog.find_tier("freee").is_none());
    assert!(catalog.find_tier("").is_none());
}
