use zdns::config::{DEFAULT_ACCESS_FEE, DEFAULT_ROUTING_REWARDS};
use zdns::types::MAX_CLOCK_SECS;
use zdns::{MeshNodeSelection, Timestamp, ZdnsConfig};

#[test]
fn default_config_values() {
    let c = ZdnsConfig::default();
    assert_eq!(c.port, 5353);
    assert_eq!(c.max_query_time, 30);
    assert!(c.cache_config.enabled);
    assert_eq!(c.cache_config.max_size, 10000);
    assert_eq!(c.cache_config.default_ttl, 300);
    assert_eq!(c.cache_config.cleanup_interval, 60);
    assert!(c.cache_config.distributed);
    assert_eq!(f64::from_bits(c.economic_config.access_fee), 0.01);
    assert_eq!(f64::from_bits(c.economic_config.owner_share), 0.2);
    assert_eq!(f64::from_bits(c.economic_config.ubi_share), 0.4);
    assert_eq!(f64::from_bits(c.economic_config.network_share), 0.3);
    assert_eq!(f64::from_bits(c.economic_config.hosting_reward), 0.1);
    assert!(c.security_config.require_zk_proofs);
    assert!(c.security_config.require_dao_fees);
    assert!(c.security_config.enable_pq_signatures);
    assert_eq!(c.security_config.max_query_rate, 100);
    assert!(c.security_config.enable_query_logging);
    assert!(c.mesh_config.enabled);
    assert_eq!(c.mesh_config.max_hops, 5);
    assert_eq!(c.mesh_config.node_selection, MeshNodeSelection::LoadBalance);
    assert_eq!(f64::from_bits(c.mesh_config.routing_rewards), 0.005);
    assert!(c.mesh_config.enable_isp_bypass);
    assert_eq!(DEFAULT_ACCESS_FEE, 0.01f64.to_bits());
    assert_eq!(DEFAULT_ROUTING_REWARDS, 0.005f64.to_bits());
}

#[test]
fn default_node_ids_are_random_uuids() {
    let a = ZdnsConfig::default().node_id;
    let b = ZdnsConfig::default().node_id;
    assert_ne!(a, b);
    assert!(a.starts_with("zdns_"));
    assert_eq!(a.len(), 41);
    let u = &a[5..];
    for (i, c) in u.chars().enumerate() {
        if i == 8 || i == 13 || i == 18 || i == 23 {
            assert_eq!(c, '-');
        } else {
            assert!(c.is_ascii_hexdigit() && !c.is_ascii_uppercase());
        }
    }
    assert_eq!(u.as_bytes()[14], b'4');
}

#[test]
fn clock_range_matches_calendar() {
    assert_eq!(MAX_CLOCK_SECS, chrono::DateTime::<chrono::Utc>::MAX_UTC.timestamp());
}

#[test]
fn timestamps() {
    let t = Timestamp { secs: 10, nanos: 5 };
    assert_eq!(t.plus_seconds(300), Timestamp { secs: 310, nanos: 5 });
    assert!(t.plus_seconds(1).is_later_than(&t));
    assert!(!t.is_later_than(&t));
    assert!(Timestamp { secs: 10, nanos: 6 }.is_later_than(&t));
    assert!(!Timestamp { secs: 9, nanos: 999_999_999 }.is_later_than(&t));
}
