use seal_node::faucet::{check_faucet_enabled, drip_amount, FaucetDrips, DEFAULT_DRIP, FAUCET_WINDOW_MS};
use seal_node::rpc::RpcConfig;

#[test]
fn faucet_off_by_default() {
    let mut config = RpcConfig::default();
    let err = check_faucet_enabled(&config).unwrap_err();
    assert_eq!(err, (-32601, "seal_faucet disabled (start the node with --dev-faucet)".to_string()));
    config.dev_faucet = true;
    check_faucet_enabled(&config).unwrap();
}

#[test]
fn default_drip_is_100_seal() {
    assert_eq!(drip_amount(None), 100 * 1_000_000_000);
    assert_eq!(drip_amount(None), DEFAULT_DRIP);
    assert_eq!(drip_amount(Some(5)), 5);
}

#[test]
fn cap_applies_per_address_and_window() {
    let mut drips = FaucetDrips::new();
    let cap = 1_000;
    drips.draw("seal1a", 600, cap, 0).unwrap();
    drips.draw("seal1a", 400, cap, 10).unwrap();
    let err = drips.draw("seal1a", 1, cap, 20).unwrap_err();
    assert_eq!(err, (-32000, "faucet cap reached: 1000 / 1000 used in current 24h window".to_string()));
    // Another address has its own allowance.
    drips.draw("seal1b", 1_000, cap, 20).unwrap();
    assert_eq!(drips.len(), 2);
    // A day after the window opened it starts over.
    drips.draw("seal1a", 1_000, cap, FAUCET_WINDOW_MS).unwrap();
    assert!(drips.draw("seal1a", 1, cap, FAUCET_WINDOW_MS + 1).is_err());
}

#[test]
fn refused_first_request_still_opens_the_window() {
    let mut drips = FaucetDrips::new();
    let err = drips.draw("seal1big", 2_000, 1_000, 5).unwrap_err();
    assert_eq!(err.1, "faucet cap reached: 0 / 1000 used in current 24h window");
    assert_eq!(drips.len(), 1);
    drips.draw("seal1big", 1_000, 1_000, 6).unwrap();
}

#[test]
fn amounts_saturate() {
    let mut drips = FaucetDrips::new();
    drips.draw("seal1a", u64::MAX, u64::MAX, 0).unwrap();
    // u64::MAX + 1 saturates to u64::MAX, which is within the cap.
    drips.draw("seal1a", 1, u64::MAX, 1).unwrap();
}
