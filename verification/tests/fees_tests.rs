use seal_node::fees::{block_fee_plan, FeeConfig};

#[test]
fn test_fee_calculation() {
    let config = FeeConfig::default();
    assert_eq!(config.calculate_fee(100), 1000); // 100 bytes × 10 = 1000
    assert_eq!(config.calculate_fee(0), 0);
}

#[test]
fn test_burn_and_reward_split() {
    let config = FeeConfig::default();
    let fee = 1000;
    assert_eq!(config.burn_amount(fee), 500); // 50%
    assert_eq!(config.proposer_reward(fee), 500); // 50%
}

#[test]
fn test_adjust_base_fee_high_utilization() {
    let mut config = FeeConfig::default();
    let fee_before = config.base_fee_per_byte;
    // 80% utilization > 50% target → fee should increase
    config.adjust_base_fee(80);
    assert!(
        config.base_fee_per_byte > fee_before,
        "base fee should increase when utilization is above target"
    );
}

#[test]
fn test_adjust_base_fee_low_utilization() {
    let mut config = FeeConfig::default();
    let fee_before = config.base_fee_per_byte;
    // 20% utilization < 50% target → fee should decrease
    config.adjust_base_fee(20);
    assert!(
        config.base_fee_per_byte < fee_before,
        "base fee should decrease when utilization is below target"
    );
}

#[test]
fn test_adjust_base_fee_at_target() {
    let mut config = FeeConfig::default();
    let fee_before = config.base_fee_per_byte;
    // Exactly at target → no change
    config.adjust_base_fee(50);
    assert_eq!(
        config.base_fee_per_byte, fee_before,
        "base fee should not change when utilization equals target"
    );
}

#[test]
fn test_adjust_base_fee_respects_min() {
    let mut config = FeeConfig {
        base_fee_per_byte: 1,
        min_base_fee: 1,
        ..Default::default()
    };
    // Repeated low utilization should not go below min
    for _ in 0..100 {
        config.adjust_base_fee(0);
    }
    assert_eq!(
        config.base_fee_per_byte, config.min_base_fee,
        "base fee should not go below min_base_fee"
    );
}

#[test]
fn test_adjust_base_fee_respects_max() {
    let mut config = FeeConfig {
        base_fee_per_byte: 9990,
        max_base_fee: 10000,
        ..Default::default()
    };
    // Repeated high utilization should not exceed max
    for _ in 0..100 {
        config.adjust_base_fee(100);
    }
    assert!(
        config.base_fee_per_byte <= config.max_base_fee,
        "base fee should not exceed max_base_fee"
    );
}

#[test]
fn test_adjust_base_fee_full_utilization_increase() {
    let mut config = FeeConfig::default();
    let fee_before = config.base_fee_per_byte;
    // 100% utilization → maximum increase
    config.adjust_base_fee(100);
    let max_increase = fee_before * config.max_fee_change_percent / 100;
    assert!(config.base_fee_per_byte <= fee_before + max_increase + 1);
    assert!(config.base_fee_per_byte > fee_before);
}

#[test]
fn test_adjust_base_fee_zero_utilization_decrease() {
    let mut config = FeeConfig {
        base_fee_per_byte: 100,
        ..Default::default()
    };
    let fee_before = config.base_fee_per_byte;
    // 0% utilization → maximum decrease
    config.adjust_base_fee(0);
    assert!(config.base_fee_per_byte < fee_before);
}

// --- Exact values of the formulas ---

#[test]
fn adjust_base_fee_exact_steps() {
    // 1000 * 12 / 100 = 120 max step; 75% util: 120 * 25 / 50 = 60 up.
    let mut config = FeeConfig {
        base_fee_per_byte: 1000,
        ..Default::default()
    };
    config.adjust_base_fee(75);
    assert_eq!(config.base_fee_per_byte, 1060);
    // 25% util on 1000: 120 * 25 / 50 = 60 down.
    let mut config = FeeConfig {
        base_fee_per_byte: 1000,
        ..Default::default()
    };
    config.adjust_base_fee(25);
    assert_eq!(config.base_fee_per_byte, 940);
    // Utilization above 100 counts as 100: 120 * 50 / 50 = 120 up.
    let mut config = FeeConfig {
        base_fee_per_byte: 1000,
        ..Default::default()
    };
    config.adjust_base_fee(250);
    assert_eq!(config.base_fee_per_byte, 1120);
}

#[test]
fn adjust_base_fee_clamps_into_bounds() {
    // A base fee below the floor is lifted to it even at target.
    let mut config = FeeConfig {
        base_fee_per_byte: 0,
        min_base_fee: 5,
        ..Default::default()
    };
    config.adjust_base_fee(50);
    assert_eq!(config.base_fee_per_byte, 5);
    // A base fee above the ceiling is lowered to it.
    let mut config = FeeConfig {
        base_fee_per_byte: 50_000,
        ..Default::default()
    };
    config.adjust_base_fee(50);
    assert_eq!(config.base_fee_per_byte, 10_000);
}

#[test]
fn calculate_fee_saturates() {
    let config = FeeConfig {
        base_fee_per_byte: u64::MAX,
        ..Default::default()
    };
    assert_eq!(config.calculate_fee(2), u64::MAX);
}

#[test]
fn burn_amount_saturates_before_dividing() {
    let config = FeeConfig::default();
    assert_eq!(config.burn_amount(u64::MAX), u64::MAX / 100);
    assert_eq!(config.proposer_reward(u64::MAX), u64::MAX - u64::MAX / 100);
}

#[test]
fn fee_split_conserves_total_examples() {
    let config = FeeConfig { burn_percent: 30, ..Default::default() };
    for fee in [0u64, 1, 99, 100, 12345, 1_000_000_007] {
        assert_eq!(config.burn_amount(fee) + config.proposer_reward(fee), fee);
    }
}

// --- Block fee settlement plan ---

#[test]
fn block_fee_plan_two_senders() {
    let config = FeeConfig::default();
    let txs = vec![("alice".to_string(), 50), ("bob".to_string(), 100)];
    let plan = block_fee_plan(&config, &txs, None);
    assert_eq!(plan.total_fees, 1500);
    assert_eq!(plan.total_burned, 750);
    assert_eq!(plan.proposer_total, 750);
    assert_eq!(plan.charges.len(), 2);
    assert_eq!(plan.charges[0].sender, "alice");
    assert_eq!(plan.charges[0].fee, 500);
    assert_eq!(plan.charges[1].sender, "bob");
    assert_eq!(plan.charges[1].fee, 1000);
}

#[test]
fn block_fee_plan_with_emission() {
    let config = FeeConfig::default();
    let txs = vec![("alice".to_string(), 50)];
    let plan = block_fee_plan(&config, &txs, Some(1000));
    assert_eq!(plan.total_fees, 500);
    assert_eq!(plan.total_burned, 250);
    assert_eq!(plan.proposer_total, 1250);
}

#[test]
fn block_fee_plan_emission_only() {
    let config = FeeConfig::default();
    let txs: Vec<(String, usize)> = vec![];
    let plan = block_fee_plan(&config, &txs, Some(5000));
    assert_eq!(plan.total_fees, 0);
    assert_eq!(plan.total_burned, 0);
    assert_eq!(plan.proposer_total, 5000);
    assert!(plan.charges.is_empty());
}

#[test]
fn block_fee_plan_skips_zero_fees() {
    let config = FeeConfig::default();
    let txs = vec![("a".to_string(), 0), ("b".to_string(), 3), ("c".to_string(), 0)];
    let plan = block_fee_plan(&config, &txs, None);
    assert_eq!(plan.charges.len(), 1);
    assert_eq!(plan.charges[0].sender, "b");
    assert_eq!(plan.charges[0].fee, 30);
    assert_eq!(plan.total_fees, 30);
    assert_eq!(plan.total_burned, 15);
    assert_eq!(plan.proposer_total, 15);
}
