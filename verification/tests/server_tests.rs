use std::time::Instant;
use zdns::{
    cache_key, dao_fee_amount, FeeShares, ProtocolError, Timestamp, ZdnsConfig, ZdnsQuery, ZdnsRecord,
    ZdnsRecordMetadata, ZdnsRecordType, ZdnsServer,
};

fn at(secs: i64) -> Timestamp {
    Timestamp { secs, nanos: 0 }
}

fn record(name: &str, t: ZdnsRecordType, value: &str, owner: &str) -> ZdnsRecord {
    ZdnsRecord {
        name: name.to_string(),
        record_type: t,
        value: value.to_string(),
        ttl: 300,
        ownership_proof: "a".repeat(64),
        pq_signature: "b".repeat(128),
        dao_fee_proof: "c".repeat(32),
        priority: None,
        weight: None,
        port: None,
        target: None,
        metadata: ZdnsRecordMetadata {
            created_at: at(1_700_000_000),
            updated_at: at(1_700_000_000),
            owner_id: owner.to_string(),
            version: 1,
            economic_config: None,
            access_policy: None,
            content_hash: None,
        },
    }
}

fn query(name: &str, t: ZdnsRecordType) -> ZdnsQuery {
    ZdnsQuery {
        name: name.to_string(),
        record_type: t,
        class: 1,
        id: 7,
        recursion_desired: true,
        dnssec_ok: false,
        query_proof: Some("query_proof".to_string()),
        dao_fee: None,
        client_id: None,
    }
}

fn fee() -> FeeShares {
    FeeShares {
        ubi_contribution: 0.004f64.to_bits(),
        network_fee: 0.003f64.to_bits(),
        owner_payment: 0.002f64.to_bits(),
        hosting_reward: 0.001f64.to_bits(),
    }
}

fn ratio() -> u64 {
    0.5f64.to_bits()
}

fn message(e: &ProtocolError) -> (&'static str, String) {
    match e {
        ProtocolError::InvalidRequest(m) => ("InvalidRequest", m.clone()),
        ProtocolError::AccessDenied(m) => ("AccessDenied", m.clone()),
        ProtocolError::ZkProofError(m) => ("ZkProofError", m.clone()),
        ProtocolError::DaoFeeError(m) => ("DaoFeeError", m.clone()),
        ProtocolError::InternalError(m) => ("InternalError", m.clone()),
    }
}

fn expect_err<T>(r: Result<T, ProtocolError>, kind: &str, text: &str) {
    match r {
        Ok(_) => panic!("expected {kind}: {text}"),
        Err(e) => {
            let (k, m) = message(&e);
            assert_eq!(k, kind);
            assert_eq!(m, text);
        }
    }
}

fn server() -> ZdnsServer {
    ZdnsServer::new(ZdnsConfig::default())
}

#[test]
fn register_then_resolve_gives_the_record() {
    let mut s = server();
    assert!(s.register_record(record("a.zhtp", ZdnsRecordType::A, "1.1.1.1", "o")).is_ok());
    let found = s.resolve_records("a.zhtp", &ZdnsRecordType::A).unwrap();
    assert_eq!(found.len(), 1);
    assert_eq!(found[0].value, "1.1.1.1");
    assert_eq!(found[0].metadata.owner_id, "o");
}

#[test]
fn register_replaces_record_of_same_type() {
    let mut s = server();
    s.register_record(record("a.zhtp", ZdnsRecordType::A, "1.1.1.1", "o")).unwrap();
    s.register_record(record("a.zhtp", ZdnsRecordType::TXT, "hello", "o")).unwrap();
    s.register_record(record("a.zhtp", ZdnsRecordType::A, "2.2.2.2", "p")).unwrap();
    let found = s.resolve_records("a.zhtp", &ZdnsRecordType::A).unwrap();
    assert_eq!(found.len(), 1);
    assert_eq!(found[0].value, "2.2.2.2");
    let txt = s.resolve_records("a.zhtp", &ZdnsRecordType::TXT).unwrap();
    assert_eq!(txt[0].value, "hello");
}

#[test]
fn register_twice_is_like_once() {
    let mut s = server();
    let r = record("a.zhtp", ZdnsRecordType::A, "1.1.1.1", "o");
    s.register_record(r.clone()).unwrap();
    s.register_record(r).unwrap();
    assert_eq!(s.resolve_records("a.zhtp", &ZdnsRecordType::A).unwrap().len(), 1);
}

#[test]
fn register_then_delete_restores_store() {
    let mut s = server();
    s.register_record(record("a.zhtp", ZdnsRecordType::A, "1.1.1.1", "o")).unwrap();
    assert!(s.delete_record("a.zhtp", &ZdnsRecordType::A, "o").is_ok());
    expect_err(s.resolve_records("a.zhtp", &ZdnsRecordType::A), "InvalidRequest", "Domain not found");
}

#[test]
fn delete_keeps_other_records_of_domain() {
    let mut s = server();
    s.register_record(record("a.zhtp", ZdnsRecordType::A, "1.1.1.1", "o")).unwrap();
    s.register_record(record("a.zhtp", ZdnsRecordType::TXT, "t", "o")).unwrap();
    s.delete_record("a.zhtp", &ZdnsRecordType::A, "o").unwrap();
    expect_err(s.resolve_records("a.zhtp", &ZdnsRecordType::A), "InvalidRequest", "No records found");
    assert_eq!(s.resolve_records("a.zhtp", &ZdnsRecordType::TXT).unwrap().len(), 1);
}

#[test]
fn delete_errors() {
    let mut s = server();
    expect_err(s.delete_record("a.zhtp", &ZdnsRecordType::A, "o"), "InvalidRequest", "Domain not found");
    s.register_record(record("a.zhtp", ZdnsRecordType::A, "1.1.1.1", "o")).unwrap();
    expect_err(
        s.delete_record("a.zhtp", &ZdnsRecordType::A, "intruder"),
        "AccessDenied",
        "Record not found or access denied",
    );
    expect_err(
        s.delete_record("a.zhtp", &ZdnsRecordType::MX, "o"),
        "AccessDenied",
        "Record not found or access denied",
    );
    assert_eq!(s.resolve_records("a.zhtp", &ZdnsRecordType::A).unwrap().len(), 1);
}

#[test]
fn update_rules() {
    let mut s = server();
    expect_err(
        s.update_record(record("a.zhtp", ZdnsRecordType::A, "1.1.1.1", "o")),
        "InvalidRequest",
        "Domain not found",
    );
    s.register_record(record("a.zhtp", ZdnsRecordType::A, "1.1.1.1", "o")).unwrap();
    expect_err(
        s.update_record(record("a.zhtp", ZdnsRecordType::TXT, "x", "o")),
        "InvalidRequest",
        "Record not found",
    );
    expect_err(
        s.update_record(record("a.zhtp", ZdnsRecordType::A, "9.9.9.9", "other")),
        "AccessDenied",
        "Ownership mismatch",
    );
    expect_err(
        s.update_record(record("a.zhtp", ZdnsRecordType::A, "9.9.9", "o")),
        "InvalidRequest",
        "Invalid IPv4 address",
    );
    assert!(s.update_record(record("a.zhtp", ZdnsRecordType::A, "9.9.9.9", "o")).is_ok());
    let found = s.resolve_records("a.zhtp", &ZdnsRecordType::A).unwrap();
    assert_eq!(found[0].value, "9.9.9.9");
    assert_eq!(found[0].metadata.owner_id, "o");
}

#[test]
fn registration_errors() {
    let mut s = server();
    let mut r = record("", ZdnsRecordType::A, "1.1.1.1", "o");
    expect_err(s.register_record(r.clone()), "InvalidRequest", "Record name cannot be empty");
    r = record("a.zhtp", ZdnsRecordType::TXT, "", "o");
    expect_err(s.register_record(r), "InvalidRequest", "Record value cannot be empty");
    r = record("a.zhtp", ZdnsRecordType::A, "::1", "o");
    expect_err(s.register_record(r), "InvalidRequest", "Invalid IPv4 address");
    r = record("a.zhtp", ZdnsRecordType::AAAA, "1.2.3.4", "o");
    expect_err(s.register_record(r), "InvalidRequest", "Invalid IPv6 address");
    r = record("a.zhtp", ZdnsRecordType::MX, "mail.a.zhtp", "o");
    expect_err(s.register_record(r.clone()), "InvalidRequest", "MX record requires priority");
    r.priority = Some(10);
    assert!(s.register_record(r).is_ok());
    r = record("a.zhtp", ZdnsRecordType::SRV, "svc.a.zhtp", "o");
    r.priority = Some(1);
    r.port = Some(80);
    expect_err(
        s.register_record(r.clone()),
        "InvalidRequest",
        "SRV record requires priority, weight, and port",
    );
    r.weight = Some(5);
    assert!(s.register_record(r).is_ok());
    r = record("a.zhtp", ZdnsRecordType::AAAA, "::1", "o");
    r.ownership_proof = "a".repeat(63);
    expect_err(s.register_record(r.clone()), "ZkProofError", "Ownership proof too short");
    r.ownership_proof = "é".repeat(32);
    r.dao_fee_proof = "c".repeat(31);
    expect_err(s.register_record(r.clone()), "DaoFeeError", "DAO fee proof too short");
    r.dao_fee_proof = "c".repeat(32);
    assert!(s.register_record(r).is_ok());
}

#[test]
fn query_format_rules() {
    let s = server();
    expect_err(s.validate_query(&query("", ZdnsRecordType::A)), "InvalidRequest", "Domain name cannot be empty");
    expect_err(s.validate_query(&query("localhost", ZdnsRecordType::A)), "InvalidRequest", "Invalid domain format");
    assert!(s.validate_query(&query("example.zhtp", ZdnsRecordType::A)).is_ok());
    assert!(s.validate_query(&query("a.b", ZdnsRecordType::A)).is_ok());
}

#[test]
fn query_counts_and_cache() {
    let mut config = ZdnsConfig::default();
    config.node_id = "node-1".to_string();
    let mut s = ZdnsServer::new(config);
    s.register_record(record("a.zhtp", ZdnsRecordType::A, "1.1.1.1", "o")).unwrap();
    let t = at(1_700_000_000);
    let first = s.process_query_at(query("a.zhtp", ZdnsRecordType::A), fee(), ratio(), t, &Instant::now()).unwrap();
    assert!(first.flags.aa);
    assert!(first.flags.qr && first.flags.ra && first.flags.rd);
    assert!(first.flags.zk && first.flags.dao);
    assert!(first.metadata.cache_info.is_none());
    assert_eq!(first.metadata.timestamp, t);
    let tx = first.metadata.economic_details.as_ref().unwrap();
    assert!(tx.tx_id.starts_with("zdns_") && tx.tx_id.len() == 41);
    assert_eq!(f64::from_bits(tx.dao_fee_paid), 0.01);
    assert_eq!(tx.ubi_contribution, 0.004f64.to_bits());
    assert_eq!(tx.network_fee, 0.003f64.to_bits());
    assert_eq!(tx.owner_payment, 0.002f64.to_bits());
    assert_eq!(tx.hosting_rewards, vec![("node-1".to_string(), 0.001f64.to_bits())]);
    assert_eq!(first.questions.len(), 1);
    assert_eq!(first.questions[0].id, 7);
    assert_eq!(first.id, 7);

    let later = at(1_700_000_100);
    let second = s.process_query_at(query("a.zhtp", ZdnsRecordType::A), fee(), ratio(), later, &Instant::now()).unwrap();
    assert!(!second.flags.aa && !second.flags.zk && !second.flags.dao);
    assert_eq!(second.metadata.processing_time_ms, 1);
    assert!(second.metadata.economic_details.is_none());
    let info = second.metadata.cache_info.as_ref().unwrap();
    assert!(info.cached);
    assert_eq!(f64::from_bits(info.hit_ratio), 0.5);
    assert_eq!(info.expires_at, at(1_700_000_400));
    assert_eq!(info.cache_nodes, vec!["node-1".to_string()]);
    assert_eq!(second.metadata.server_node_id, "node-1");
    assert_eq!(first.metadata.server_node_id, "node-1");
    assert_eq!(second.answers[0].value, "1.1.1.1");

    let stats = s.get_stats();
    assert_eq!(stats.total_queries, 2);
    assert_eq!(stats.cache_hits, 1);
    assert_eq!(stats.cache_misses, 1);
    assert_eq!(stats.zk_validations, 0);

    // past the record's TTL the answer comes from the store again
    let expired = at(1_700_000_300);
    let third = s.process_query_at(query("a.zhtp", ZdnsRecordType::A), fee(), ratio(), expired, &Instant::now()).unwrap();
    assert!(third.flags.aa);
    assert_eq!(s.get_stats().cache_misses, 2);

    // a refused query is still counted
    assert!(s.process_query_at(query("nodot", ZdnsRecordType::A), fee(), ratio(), expired, &Instant::now()).is_err());
    assert_eq!(s.get_stats().total_queries, 4);
    assert_eq!(s.get_stats().cache_misses, 2);
}

#[test]
fn query_errors() {
    let mut s = server();
    let t = at(1_700_000_000);
    let r = s.process_query_at(query("a.zhtp", ZdnsRecordType::A), fee(), ratio(), t, &Instant::now());
    expect_err(r, "InvalidRequest", "Domain not found");
    s.register_record(record("a.zhtp", ZdnsRecordType::A, "1.1.1.1", "o")).unwrap();
    let r = s.process_query_at(query("a.zhtp", ZdnsRecordType::MX), fee(), ratio(), t, &Instant::now());
    expect_err(r, "InvalidRequest", "No records found");
    let r = s.process_query_at(query("", ZdnsRecordType::MX), fee(), ratio(), t, &Instant::now());
    expect_err(r, "InvalidRequest", "Domain name cannot be empty");
    assert_eq!(s.get_stats().cache_misses, 2);
    assert_eq!(s.get_stats().total_queries, 3);
}

#[test]
fn zero_ttl_is_never_cached() {
    let mut s = server();
    let mut r = record("a.zhtp", ZdnsRecordType::A, "1.1.1.1", "o");
    r.ttl = 0;
    s.register_record(r).unwrap();
    let t = at(1_700_000_000);
    s.process_query_at(query("a.zhtp", ZdnsRecordType::A), fee(), ratio(), t, &Instant::now()).unwrap();
    s.process_query_at(query("a.zhtp", ZdnsRecordType::A), fee(), ratio(), t, &Instant::now()).unwrap();
    assert_eq!(s.get_stats().cache_hits, 0);
    assert_eq!(s.get_stats().cache_misses, 2);
}

#[test]
fn settings_steer_answers() {
    let mut config = ZdnsConfig::default();
    config.cache_config.enabled = false;
    config.security_config.require_dao_fees = false;
    config.security_config.require_zk_proofs = false;
    let mut s = ZdnsServer::new(config);
    s.register_record(record("a.zhtp", ZdnsRecordType::A, "1.1.1.1", "o")).unwrap();
    let t = at(1_700_000_000);
    let a = s.process_query_at(query("a.zhtp", ZdnsRecordType::A), fee(), ratio(), t, &Instant::now()).unwrap();
    assert!(!a.flags.zk && !a.flags.dao);
    assert!(a.metadata.economic_details.is_none());
    s.process_query_at(query("a.zhtp", ZdnsRecordType::A), fee(), ratio(), t, &Instant::now()).unwrap();
    assert_eq!(s.get_stats().cache_hits, 0);
}

#[test]
fn live_query_uses_the_clock() {
    let mut s = server();
    s.register_record(record("a.zhtp", ZdnsRecordType::A, "1.1.1.1", "o")).unwrap();
    let before = chrono::Utc::now().timestamp();
    let r = s.process_query(query("a.zhtp", ZdnsRecordType::A), fee(), ratio()).unwrap();
    let after = chrono::Utc::now().timestamp();
    assert!(before <= r.metadata.timestamp.secs && r.metadata.timestamp.secs <= after);
    assert!(r.metadata.timestamp.nanos < 1_000_000_000);
}

#[test]
fn cache_keys_name_the_type() {
    let types = [
        ZdnsRecordType::A, ZdnsRecordType::AAAA, ZdnsRecordType::CNAME, ZdnsRecordType::MX,
        ZdnsRecordType::TXT, ZdnsRecordType::SRV, ZdnsRecordType::MESH, ZdnsRecordType::ZK,
        ZdnsRecordType::DAO, ZdnsRecordType::ECON, ZdnsRecordType::ID, ZdnsRecordType::CONTENT,
        ZdnsRecordType::MULTISIG, ZdnsRecordType::PQS,
    ];
    for t in types {
        assert_eq!(cache_key("example.zhtp", t), format!("{}:{:?}", "example.zhtp", t));
    }
}

#[test]
fn query_fee_defaults_to_a_cent() {
    let mut q = query("a.zhtp", ZdnsRecordType::A);
    assert_eq!(f64::from_bits(dao_fee_amount(&q)), 0.01);
    q.dao_fee = Some(0.25f64.to_bits());
    assert_eq!(f64::from_bits(dao_fee_amount(&q)), 0.25);
    let s = server();
    let tx = s.process_dao_fee(&q, fee());
    assert_eq!(f64::from_bits(tx.dao_fee_paid), 0.25);
    assert_eq!(tx.hosting_rewards.len(), 1);
}

#[test]
fn pq_signature_required_when_enabled() {
    let mut s = server();
    let mut r = record("a.zhtp", ZdnsRecordType::A, "1.1.1.1", "o");
    r.pq_signature = String::new();
    expect_err(s.register_record(r.clone()), "InvalidRequest", "Post-quantum signature required");
    let mut config = ZdnsConfig::default();
    config.security_config.enable_pq_signatures = false;
    let mut relaxed = ZdnsServer::new(config);
    assert!(relaxed.register_record(r).is_ok());
}

#[test]
fn clients_over_their_rate_are_refused() {
    let mut config = ZdnsConfig::default();
    config.security_config.max_query_rate = 2;
    let mut s = ZdnsServer::new(config);
    s.register_record(record("a.zhtp", ZdnsRecordType::A, "1.1.1.1", "o")).unwrap();
    let mut q = query("a.zhtp", ZdnsRecordType::A);
    q.client_id = Some("c".to_string());
    let t = 1_700_000_000;
    assert!(s.process_query_at(q.clone(), fee(), ratio(), at(t), &Instant::now()).is_ok());
    assert!(s.process_query_at(q.clone(), fee(), ratio(), at(t + 10), &Instant::now()).is_ok());
    let r = s.process_query_at(q.clone(), fee(), ratio(), at(t + 20), &Instant::now());
    expect_err(r, "AccessDenied", "Query rate limit exceeded");
    // another client, and queries naming no client, are not held back
    let mut other = q.clone();
    other.client_id = Some("d".to_string());
    assert!(s.process_query_at(other, fee(), ratio(), at(t + 20), &Instant::now()).is_ok());
    assert!(s.process_query_at(query("a.zhtp", ZdnsRecordType::A), fee(), ratio(), at(t + 20), &Instant::now()).is_ok());
    // a minute after the first two, the client may ask again
    assert!(s.process_query_at(q, fee(), ratio(), at(t + 81), &Instant::now()).is_ok());
    assert_eq!(s.get_stats().total_queries, 6);
}

#[test]
fn cache_keeps_at_most_max_size_answers() {
    let mut config = ZdnsConfig::default();
    config.cache_config.max_size = 1;
    let mut s = ZdnsServer::new(config);
    s.register_record(record("a.zhtp", ZdnsRecordType::A, "1.1.1.1", "o")).unwrap();
    s.register_record(record("b.zhtp", ZdnsRecordType::A, "2.2.2.2", "o")).unwrap();
    let t = at(1_700_000_000);
    s.process_query_at(query("a.zhtp", ZdnsRecordType::A), fee(), ratio(), t, &Instant::now()).unwrap();
    s.process_query_at(query("b.zhtp", ZdnsRecordType::A), fee(), ratio(), t, &Instant::now()).unwrap();
    // b's answer pushed a's out
    let a = s.process_query_at(query("a.zhtp", ZdnsRecordType::A), fee(), ratio(), t, &Instant::now()).unwrap();
    assert!(a.flags.aa);
    let b = s.process_query_at(query("a.zhtp", ZdnsRecordType::A), fee(), ratio(), t, &Instant::now()).unwrap();
    assert!(!b.flags.aa);
    assert_eq!(s.get_stats().cache_hits, 1);

    let mut config = ZdnsConfig::default();
    config.cache_config.max_size = 0;
    let mut none = ZdnsServer::new(config);
    none.register_record(record("a.zhtp", ZdnsRecordType::A, "1.1.1.1", "o")).unwrap();
    none.process_query_at(query("a.zhtp", ZdnsRecordType::A), fee(), ratio(), t, &Instant::now()).unwrap();
    none.process_query_at(query("a.zhtp", ZdnsRecordType::A), fee(), ratio(), t, &Instant::now()).unwrap();
    assert_eq!(none.get_stats().cache_hits, 0);
}

#[test]
fn queries_without_proof_are_refused_when_proofs_required() {
    let mut s = server();
    s.register_record(record("a.zhtp", ZdnsRecordType::A, "1.1.1.1", "o")).unwrap();
    let t = at(1_700_000_000);
    let mut q = query("a.zhtp", ZdnsRecordType::A);
    q.query_proof = None;
    expect_err(s.validate_query_proof(&q), "ZkProofError", "Query proof required");
    let r = s.process_query_at(q.clone(), fee(), ratio(), t, &Instant::now());
    expect_err(r, "ZkProofError", "Query proof required");
    q.query_proof = Some(String::new());
    let r = s.process_query_at(q.clone(), fee(), ratio(), t, &Instant::now());
    expect_err(r, "ZkProofError", "Query proof required");
    // refused queries are counted but neither hit nor miss the cache
    let stats = s.get_stats();
    assert_eq!(stats.total_queries, 2);
    assert_eq!(stats.cache_hits + stats.cache_misses, 0);
    q.query_proof = Some("proof".to_string());
    assert!(s.process_query_at(q.clone(), fee(), ratio(), t, &Instant::now()).is_ok());

    let mut config = ZdnsConfig::default();
    config.security_config.require_zk_proofs = false;
    let mut relaxed = ZdnsServer::new(config);
    relaxed.register_record(record("a.zhtp", ZdnsRecordType::A, "1.1.1.1", "o")).unwrap();
    q.query_proof = None;
    assert!(relaxed.validate_query_proof(&q).is_ok());
    assert!(relaxed.process_query_at(q, fee(), ratio(), t, &Instant::now()).is_ok());
}

#[test]
fn cached_answer_outlives_other_queries_and_record_changes() {
    let mut s = server();
    s.register_record(record("a.zhtp", ZdnsRecordType::A, "1.1.1.1", "o")).unwrap();
    s.register_record(record("b.zhtp", ZdnsRecordType::A, "2.2.2.2", "o")).unwrap();
    let t = 1_700_000_000;
    let first = s.process_query_at(query("a.zhtp", ZdnsRecordType::A), fee(), ratio(), at(t), &Instant::now()).unwrap();
    assert!(first.flags.aa);
    s.process_query_at(query("b.zhtp", ZdnsRecordType::A), fee(), ratio(), at(t + 5), &Instant::now()).unwrap();
    s.delete_record("a.zhtp", &ZdnsRecordType::A, "o").unwrap();
    let again = s.process_query_at(query("a.zhtp", ZdnsRecordType::A), fee(), ratio(), at(t + 299), &Instant::now()).unwrap();
    assert!(!again.flags.aa);
    assert_eq!(again.answers.len(), 1);
    assert_eq!(again.answers[0].value, "1.1.1.1");
    // once the TTL has run out the deleted record is gone
    let gone = s.process_query_at(query("a.zhtp", ZdnsRecordType::A), fee(), ratio(), at(t + 300), &Instant::now());
    assert!(gone.is_err());
}
