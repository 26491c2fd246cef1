use seal_node::exposition::{
    committee_key_persisted, health_status, health_word, metrics_exposition, push_node_gauges, BridgeGauges, HealthStatus, NodeGauges,
    TokenSupply,
};
use seal_node::rpc::RpcConfig;

fn node() -> NodeGauges {
    NodeGauges {
        height: 42,
        uptime_secs: 7,
        leases_active: 3,
        account_count: 5,
        total_supply: 1_000,
        tokens_registered: 2,
        frozen_accounts: 1,
        frozen_tokens: 0,
    }
}

#[test]
fn node_gauges_render_help_type_and_sample() {
    let mut out = String::new();
    push_node_gauges(&mut out, &node());
    assert!(out.starts_with(
        "# HELP seal_chain_height Current chain height\n# TYPE seal_chain_height gauge\nseal_chain_height 42\n"
    ));
    assert!(out.contains("\nseal_uptime_seconds 7\n"));
    assert!(out.contains("\nseal_total_supply_micro 1000\n"));
    assert!(out.ends_with("seal_frozen_tokens 0\n"));
    assert_eq!(out.matches("# TYPE ").count(), 8);
}

#[test]
fn metrics_page_in_order() {
    let bridge = BridgeGauges {
        committee_key_set: true,
        paused_chains: 1,
        deposits_total: 9,
        deposits_pending: 2,
        withdrawals_total: 4,
        key_fingerprint: Some(vec![0xab, 0x01]),
        key_persisted: false,
        invariant_violated: false,
        tokens: vec![
            TokenSupply { symbol: "wSOL".to_string(), locked: 10, minted: 8 },
            TokenSupply { symbol: "wETH".to_string(), locked: 5, minted: 5 },
        ],
    };
    let mut config = RpcConfig::default();
    config.admin_addresses.insert("seal1a".to_string());
    config.admin_threshold = 1;
    let page = metrics_exposition("counters\n".to_string(), &node(), &[0x12, 0x34], &[0xff], &bridge, &config);
    assert!(page.starts_with("counters\n# HELP seal_chain_height"));
    assert!(page.contains("seal_balance_state_root{root_hex=\"1234\"} 1\n"));
    assert!(page.contains("seal_token_state_root{root_hex=\"ff\"} 1\n"));
    assert!(page.contains("seal_bridge_committee_key_set 1\n"));
    assert!(page.contains("seal_bridge_committee_key_fingerprint{sha2_hex=\"ab01\"} 1\n"));
    assert!(page.contains("seal_bridge_committee_key_persisted 0\n"));
    assert!(page.contains("seal_bridge_invariant_violated 0\n"));
    assert!(page.contains(
        "seal_bridge_total_locked{token=\"wSOL\"} 10\nseal_bridge_total_minted{token=\"wSOL\"} 8\n\
         seal_bridge_total_locked{token=\"wETH\"} 5\nseal_bridge_total_minted{token=\"wETH\"} 5\n"
    ));
    assert!(page.contains("seal_admin_addresses_count 1\n"));
    assert!(page.ends_with(
        "seal_rpc_rate_limit_per_minute{group=\"default\"} 120\n\
         seal_rpc_rate_limit_per_minute{group=\"expensive\"} 20\n\
         seal_rpc_rate_limit_per_minute{group=\"admin\"} 5\n"
    ));
}

#[test]
fn fingerprint_label_empty_without_key() {
    let bridge = BridgeGauges {
        committee_key_set: false,
        paused_chains: 0,
        deposits_total: 0,
        deposits_pending: 0,
        withdrawals_total: 0,
        key_fingerprint: None,
        key_persisted: false,
        invariant_violated: true,
        tokens: vec![],
    };
    let page = metrics_exposition(String::new(), &node(), &[], &[], &bridge, &RpcConfig::default());
    assert!(page.contains("seal_bridge_committee_key_fingerprint{sha2_hex=\"\"} 0\n"));
    assert!(page.contains("seal_bridge_invariant_violated 1\n"));
    assert!(page.contains("seal_balance_state_root{root_hex=\"\"} 1\n"));
}

#[test]
fn health_traffic_light() {
    assert_eq!(health_status(10, 0, 5), HealthStatus::Starting);
    assert_eq!(health_word(health_status(10, 0, 5)), "starting");
    assert_eq!(health_status(30, 0, 1), HealthStatus::Stalled);
    assert_eq!(health_word(HealthStatus::Stalled), "stalled");
    // No peers yet is not a stall; a moving chain is healthy.
    assert_eq!(health_status(100, 0, 0), HealthStatus::Healthy);
    assert_eq!(health_status(100, 7, 3), HealthStatus::Healthy);
    assert_eq!(health_word(HealthStatus::Healthy), "ok");
}

#[test]
fn committee_key_persisted_compares_disk_with_memory() {
    let key = [0xabu8; 32];
    let text = "ab".repeat(32);
    assert!(committee_key_persisted(Some(&key[..]), Some(&text)));
    assert!(!committee_key_persisted(Some(&[0xacu8; 32][..]), Some(&text)));
    assert!(!committee_key_persisted(Some(&key[..]), Some("abab")));
    assert!(!committee_key_persisted(Some(&key[..]), Some("not hex")));
    assert!(!committee_key_persisted(Some(&key[..]), None));
    assert!(!committee_key_persisted(None, Some(&text)));
}
