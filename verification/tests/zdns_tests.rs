use zdns::{
    EconomicConfig, FeeShares, Timestamp, ZdnsConfig, ZdnsQuery, ZdnsRecord,
    ZdnsRecordMetadata, ZdnsRecordType, ZdnsServer,
};

fn now() -> Timestamp {
    let t = chrono::Utc::now();
    Timestamp { secs: t.timestamp(), nanos: t.timestamp_subsec_nanos() }
}

fn shares_of(fee: f64) -> FeeShares {
    FeeShares {
        ubi_contribution: (fee * 0.4).to_bits(),
        network_fee: (fee * 0.3).to_bits(),
        owner_payment: (fee * 0.2).to_bits(),
        hosting_reward: (fee * 0.1).to_bits(),
    }
}

#[test]
fn test_zdns_query_processing() {
    let config = ZdnsConfig::default();
    let mut server = ZdnsServer::new(config);

    // Register a test record
    let record = ZdnsRecord {
        name: "example.zhtp".to_string(),
        record_type: ZdnsRecordType::A,
        value: "192.168.1.1".to_string(),
        ttl: 300,
        ownership_proof: "a".repeat(64),
        pq_signature: "b".repeat(128),
        dao_fee_proof: "c".repeat(32),
        priority: None,
        weight: None,
        port: None,
        target: None,
        metadata: ZdnsRecordMetadata {
            created_at: now(),
            updated_at: now(),
            owner_id: "test_owner".to_string(),
            version: 1,
            economic_config: None,
            access_policy: None,
            content_hash: None,
        },
    };

    assert!(server.register_record(record).is_ok());

    // Query the record
    let query = ZdnsQuery {
        name: "example.zhtp".to_string(),
        record_type: ZdnsRecordType::A,
        class: 1,
        id: 12345,
        recursion_desired: true,
        dnssec_ok: false,
        query_proof: Some("query_proof".to_string()),
        dao_fee: Some(0.01f64.to_bits()),
        client_id: Some("test_client".to_string()),
    };

    let response = server.process_query(query, shares_of(0.01), 0.0f64.to_bits());
    assert!(response.is_ok());

    let response = response.unwrap();
    assert_eq!(response.answers.len(), 1);
    assert_eq!(response.answers[0].value, "192.168.1.1");
}

#[test]
fn test_record_validation() {
    let config = ZdnsConfig::default();
    let server = ZdnsServer::new(config);

    // Valid A record
    let valid_record = ZdnsRecord {
        name: "test.zhtp".to_string(),
        record_type: ZdnsRecordType::A,
        value: "1.2.3.4".to_string(),
        ttl: 300,
        ownership_proof: "a".repeat(64),
        pq_signature: "b".repeat(128),
        dao_fee_proof: "c".repeat(32),
        priority: None,
        weight: None,
        port: None,
        target: None,
        metadata: ZdnsRecordMetadata {
            created_at: now(),
            updated_at: now(),
            owner_id: "test_owner".to_string(),
            version: 1,
            economic_config: None,
            access_policy: None,
            content_hash: None,
        },
    };

    assert!(server.validate_record(&valid_record).is_ok());

    // Invalid A record (bad IP)
    let mut invalid_record = valid_record.clone();
    invalid_record.value = "invalid_ip".to_string();
    assert!(server.validate_record(&invalid_record).is_err());
}

#[test]
fn test_economic_config() {
    let config = EconomicConfig {
        access_fee: 0.02f64.to_bits(),
        owner_share: 0.25f64.to_bits(),
        ubi_share: 0.35f64.to_bits(),
        network_share: 0.25f64.to_bits(),
        hosting_reward: 0.15f64.to_bits(),
    };

    // Verify shares add up to 100%
    let total = f64::from_bits(config.owner_share)
        + f64::from_bits(config.ubi_share)
        + f64::from_bits(config.network_share)
        + f64::from_bits(config.hosting_reward);
    assert!((total - 1.0).abs() < 0.001);
}
