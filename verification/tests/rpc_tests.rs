use seal_node::governance::{Conviction, CouncilMember, ProposalTrack, TechnicalCouncil, VoteChoice};
use seal_node::rpc::{
    admit_request, check_admin_gate, check_min_opening_balance, check_recipient_policy, is_admin, parse_choice,
    parse_conviction, parse_track, requires_admin_auth, requires_auth, rpc_group_for_method, verify_admin_multisig,
    Admission, NameSet, RateLimiter, RpcConfig, RpcGroup,
};
use seal_node::rpc::hex_address_key;

#[test]
fn rpc_config_default_carries_zero_bridge_fee() {
    // The withdrawal fee is opt-in: the default stays 0.
    let c = RpcConfig::default();
    assert_eq!(c.bridge_withdrawal_fee, 0);
}

#[test]
fn rpc_group_classifier_buckets_correctly() {
    // Admin set.
    assert_eq!(rpc_group_for_method("seal_addBridgeObserver"), RpcGroup::Admin);
    assert_eq!(rpc_group_for_method("seal_bridgePauseChain"), RpcGroup::Admin);
    assert_eq!(rpc_group_for_method("seal_bridgeRotateCommitteeKey"), RpcGroup::Admin);
    // Expensive set.
    assert_eq!(rpc_group_for_method("seal_submitSql"), RpcGroup::Expensive);
    assert_eq!(rpc_group_for_method("seal_bridgeWithdraw"), RpcGroup::Expensive);
    assert_eq!(rpc_group_for_method("seal_govPropose"), RpcGroup::Expensive);
    // Default.
    assert_eq!(rpc_group_for_method("seal_querySql"), RpcGroup::Default);
    assert_eq!(rpc_group_for_method("seal_getHeight"), RpcGroup::Default);
    assert_eq!(rpc_group_for_method("seal_bridgeRingtailStatus"), RpcGroup::Default);
}

#[test]
fn test_requires_auth() {
    assert!(requires_auth("seal_submitSql"));
    assert!(requires_auth("seal_deployNamespace"));
    assert!(!requires_auth("seal_querySql"));
    assert!(!requires_auth("seal_getHeight"));
    // Token mutations
    assert!(requires_auth("seal_mintToken"));
    assert!(requires_auth("seal_transferToken"));
    assert!(requires_auth("seal_burnToken"));
    assert!(requires_auth("seal_freezeAccount"));
    assert!(requires_auth("seal_unfreezeAccount"));
    assert!(requires_auth("seal_setTokenFrozen"));
    assert!(requires_auth("seal_setMintAuthority"));
    assert!(requires_auth("seal_setFreezeAuthority"));
    assert!(requires_auth("seal_setFeeAuthority"));
    assert!(requires_auth("seal_renounceMintAuthority"));
    assert!(requires_auth("seal_renounceFreezeAuthority"));
    assert!(requires_auth("seal_renounceFeeAuthority"));
    assert!(requires_auth("seal_setFeeRecipient"));
    // Bridge relayer mark-executed (P1#3 per-validator custody)
    // is a regular auth-gated method — the handler enforces the
    // additional validator-set membership check.
    assert!(requires_auth("seal_bridgeMarkExecuted"));
    // Reads stay open
    assert!(!requires_auth("seal_listTokens"));
    assert!(!requires_auth("seal_listTokensByCreator"));
    assert!(!requires_auth("seal_listTokensByMintAuthority"));
    assert!(!requires_auth("seal_listTokensByFreezeAuthority"));
    assert!(!requires_auth("seal_listTokensByFeeAuthority"));
    assert!(!requires_auth("seal_listPrivateTables"));
    assert!(!requires_auth("seal_listPrivateTablesByOwner"));
    assert!(!requires_auth("seal_listLeases"));
    assert!(!requires_auth("seal_listLeasesByOwner"));
    assert!(!requires_auth("seal_getNamespaces"));
    assert!(!requires_auth("seal_listNamespacesByOwner"));
    assert!(!requires_auth("seal_getBridgeDeposits"));
    assert!(!requires_auth("seal_listBridgeDepositsByRecipient"));
    assert!(!requires_auth("seal_listBridgeWithdrawals"));
    assert!(!requires_auth("seal_listBridgeWithdrawalsByInitiator"));
    assert!(!requires_auth("seal_getBridgeWithdrawal"));
    assert!(!requires_auth("seal_getValidatorByAddress"));
    assert!(!requires_auth("seal_getCouncilMemberByAddress"));
    assert!(!requires_auth("seal_getTokenBalance"));
    assert!(!requires_auth("seal_isFrozen"));
    // Admin-gated methods are NOT in `requires_auth` itself —
    // their auth requirement only kicks in when admin_addresses
    // is populated, so the alpha-testnet bootstrap (bridge-e2e.sh
    // sending unsigned RPCs) keeps working.
    assert!(!requires_auth("seal_addBridgeObserver"));
    assert!(!requires_auth("seal_bridgeCouncilAdd"));
    assert!(!requires_auth("seal_bridgePauseChain"));
}

#[test]
fn test_requires_admin_auth() {
    // Admin-gated methods.
    assert!(requires_admin_auth("seal_addBridgeObserver"));
    assert!(requires_admin_auth("seal_bridgeCouncilAdd"));
    assert!(requires_admin_auth("seal_bridgeCouncilRemove"));
    assert!(requires_admin_auth("seal_bridgePauseChain"));
    assert!(requires_admin_auth("seal_bridgeUnpauseChain"));
    assert!(requires_admin_auth("seal_bridgeRotateCommitteeKey"));
    // Read methods stay out of the admin gate.
    assert!(!requires_admin_auth("seal_bridgeListPaused"));
    assert!(!requires_admin_auth("seal_bridgeCouncilList"));
    assert!(!requires_admin_auth("seal_listBridgeObservers"));
    assert!(!requires_admin_auth("seal_bridgeGetCommitteeKeyStatus"));
    // Bridge withdrawal is a regular signed-caller method, not
    // admin-gated — anyone with wrapped tokens can withdraw.
    assert!(!requires_admin_auth("seal_bridgeWithdraw"));
}

#[test]
fn test_is_admin_open_mode() {
    // Empty admin_addresses = open mode: any caller passes,
    // including the unsigned-fallback empty string.
    let config = RpcConfig::default();
    assert!(is_admin("seal1alice", &config));
    assert!(is_admin("seal1bob", &config));
    assert!(is_admin("", &config));
}

#[test]
fn test_is_admin_gated_mode() {
    // Populated admin_addresses = gated mode: only members pass.
    let mut config = RpcConfig::default();
    config.admin_addresses.insert("seal1alice".into());
    config.admin_addresses.insert("seal1bob".into());
    assert!(is_admin("seal1alice", &config));
    assert!(is_admin("seal1bob", &config));
    // Non-members rejected.
    assert!(!is_admin("seal1eve", &config));
    // Empty caller (unsigned fallback) rejected.
    assert!(!is_admin("", &config));
}

#[test]
fn test_min_opening_balance_disabled_by_default() {
    let config = RpcConfig::default();
    assert_eq!(config.min_opening_balance, 0);
    // Threshold 0 → always Ok.
    check_min_opening_balance(&config, false, 1, "seal1new").unwrap();
    check_min_opening_balance(&config, false, 0, "seal1new").unwrap();
    check_min_opening_balance(&config, true, 0, "seal1known").unwrap();
}

#[test]
fn test_min_opening_balance_known_recipient_always_ok() {
    let config = RpcConfig {
        min_opening_balance: 100_000,
        ..RpcConfig::default()
    };
    // Existing recipients are exempt regardless of amount.
    check_min_opening_balance(&config, true, 1, "seal1known").unwrap();
    check_min_opening_balance(&config, true, 0, "seal1known").unwrap();
}

#[test]
fn test_min_opening_balance_rejects_below_threshold() {
    let config = RpcConfig {
        min_opening_balance: 100_000,
        ..RpcConfig::default()
    };
    // Fresh recipient + amount 99_999 → reject.
    let err = check_min_opening_balance(&config, false, 99_999, "seal1new").unwrap_err();
    assert_eq!(err.0, -32008);
    assert!(err.1.contains("99999"));
    assert!(err.1.contains("100000"));
    assert!(err.1.contains("seal1new"));
}

#[test]
fn test_min_opening_balance_accepts_exact_threshold() {
    let config = RpcConfig {
        min_opening_balance: 100_000,
        ..RpcConfig::default()
    };
    // Exact threshold passes (the check is strict-less-than).
    check_min_opening_balance(&config, false, 100_000, "seal1new").unwrap();
    check_min_opening_balance(&config, false, 100_001, "seal1new").unwrap();
}

#[test]
fn test_min_opening_balance_independent_of_allow_new_recipients() {
    // Faucet/bridge node: allow_new_recipients=true *and* a
    // non-zero min_opening_balance. Both checks run; min-opening
    // can still reject a fresh recipient even with allow=true.
    let config = RpcConfig {
        allow_new_recipients: true,
        min_opening_balance: 100_000,
        ..RpcConfig::default()
    };
    check_recipient_policy(&config, false, false, "seal1new").unwrap();
    let err = check_min_opening_balance(&config, false, 1, "seal1new").unwrap_err();
    assert_eq!(err.0, -32008);
}

#[test]
fn test_rpc_config_default() {
    let config = RpcConfig::default();
    assert!(config.served_namespaces.is_empty());
    assert!(!config.require_auth_for_reads);
    assert_eq!(config.max_query_length, 64 * 1024);
}

#[test]
fn test_namespace_routing() {
    let mut config = RpcConfig::default();
    config.served_namespaces.insert("blog.seal".into());
    assert!(config.served_namespaces.contains("blog.seal"));
    assert!(!config.served_namespaces.contains("market.seal"));
}

#[test]
fn test_bridge_pause_council_quorum_logic() {
    // Integration-style: build a council, check that 2/3 of its
    // members is enough to approve a pause, fewer is not. Mirrors
    // the code path inside handle_bridge_pause_chain without
    // needing an RpcState.
    let mut tc = TechnicalCouncil::new();
    for i in 0..9 {
        tc.add_member(CouncilMember {
            pubkey: format!("pk_{}", i),
            name: format!("M{}", i),
            term_start_epoch: 0,
            term_end_epoch: 26280,
        })
        .unwrap();
    }
    // 9 members → 2/3 = 6.
    assert_eq!(tc.two_thirds_threshold(), 6);
    // 5 approvers → insufficient.
    let five: Vec<String> = (0..5).map(|i| format!("pk_{}", i)).collect();
    assert!(!tc.has_two_thirds_approval(&five));
    // 6 approvers → approved.
    let six: Vec<String> = (0..6).map(|i| format!("pk_{}", i)).collect();
    assert!(tc.has_two_thirds_approval(&six));
}

// --- Recipient policy ---

#[test]
fn recipient_policy_block_default_rejects_new() {
    let config = RpcConfig::default();
    let err = check_recipient_policy(&config, false, false, "seal1new").unwrap_err();
    assert_eq!(err.0, -32007);
    assert!(err.1.contains("seal1new"));
    assert!(err.1.contains("confirm_new_recipient"));
}

#[test]
fn recipient_policy_paths_that_proceed() {
    let config = RpcConfig::default();
    check_recipient_policy(&config, false, true, "seal1known").unwrap();
    check_recipient_policy(&config, true, false, "seal1new").unwrap();
    let allow = RpcConfig { allow_new_recipients: true, ..RpcConfig::default() };
    check_recipient_policy(&allow, false, false, "seal1new").unwrap();
}

#[test]
fn min_opening_balance_message_is_exact() {
    let config = RpcConfig { min_opening_balance: 100_000, ..RpcConfig::default() };
    let err = check_min_opening_balance(&config, false, 99_999, "seal1new").unwrap_err();
    assert_eq!(
        err.1,
        "recipient seal1new is new and amount 99999 is below the min-opening-balance threshold 100000; \
         raise the amount or send to an existing account"
    );
}

// --- Name sets ---

#[test]
fn name_set_holds_each_name_once() {
    let mut s = NameSet::new();
    assert!(s.is_empty());
    assert!(s.insert("a".to_string()));
    assert!(!s.insert("a".to_string()));
    assert!(s.insert("b".to_string()));
    assert_eq!(s.len(), 2);
    assert!(s.contains("a") && s.contains("b") && !s.contains("c"));
}

// --- Rate limiting ---

#[test]
fn rate_limiter_isolates_groups_and_ips() {
    let mut lim = RateLimiter::default();
    let ip = 1u128;
    for _ in 0..20 {
        assert!(lim.check(ip, RpcGroup::Expensive, 20, 0));
    }
    // 21st expensive request trips.
    assert!(!lim.check(ip, RpcGroup::Expensive, 20, 10));
    // Cheap reads from the same IP are unaffected.
    assert!(lim.check(ip, RpcGroup::Default, 120, 10));
    // Another IP has its own bucket.
    assert!(lim.check(2, RpcGroup::Expensive, 20, 10));
}

#[test]
fn rate_limiter_window_restarts_after_a_minute() {
    let mut lim = RateLimiter::default();
    assert!(lim.check(7, RpcGroup::Admin, 1, 1_000));
    assert!(!lim.check(7, RpcGroup::Admin, 1, 30_000));
    // 60 s after the window start the bucket restarts and admits.
    assert!(lim.check(7, RpcGroup::Admin, 1, 61_000));
    assert!(!lim.check(7, RpcGroup::Admin, 1, 61_001));
}

#[test]
fn rate_limiter_zero_cap_refuses_first_request() {
    let mut lim = RateLimiter::default();
    assert!(!lim.check(3, RpcGroup::Default, 0, 5));
}

#[test]
fn rate_limiter_cleanup_drops_old_windows() {
    let mut lim = RateLimiter::default();
    assert!(lim.check(1, RpcGroup::Default, 1, 0));
    assert!(lim.check(2, RpcGroup::Default, 1, 100_000));
    lim.cleanup(120_000);
    // The first window was dropped, so its count starts over.
    assert!(lim.check(1, RpcGroup::Default, 1, 120_000));
    // The second one is still counting.
    assert!(!lim.check(2, RpcGroup::Default, 1, 120_000));
}

// --- Admission and admin gate ---

#[test]
fn admission_rate_limit_then_query_size_then_auth() {
    let mut config = RpcConfig::default();
    config.rpm_expensive = 1;
    let mut lim = RateLimiter::default();
    match admit_request(&mut lim, 9, 0, "seal_submitSql", Some(10), &config) {
        Admission::Proceed { needs_signature, admin_gated } => {
            assert!(needs_signature);
            assert!(!admin_gated);
        }
        Admission::Refused { .. } => panic!("first request must proceed"),
    }
    match admit_request(&mut lim, 9, 1, "seal_submitSql", Some(10), &config) {
        Admission::Refused { too_many_requests, code, message } => {
            assert!(too_many_requests);
            assert_eq!(code, -32005);
            assert_eq!(message, "rate limit exceeded for Expensive group (1 req/min)");
        }
        Admission::Proceed { .. } => panic!("second request must be limited"),
    }
    match admit_request(&mut lim, 9, 2, "seal_querySql", Some(64 * 1024 + 1), &config) {
        Admission::Refused { too_many_requests, code, message } => {
            assert!(!too_many_requests);
            assert_eq!(code, -32000);
            assert_eq!(message, "query too large");
        }
        Admission::Proceed { .. } => panic!("oversized query must be refused"),
    }
}

#[test]
fn admission_admin_gate_depends_on_admin_set() {
    let mut lim = RateLimiter::default();
    let open = RpcConfig::default();
    match admit_request(&mut lim, 1, 0, "seal_bridgeCouncilAdd", None, &open) {
        Admission::Proceed { needs_signature, admin_gated } => {
            assert!(!needs_signature);
            assert!(!admin_gated);
        }
        Admission::Refused { .. } => panic!("must proceed"),
    }
    let mut gated = RpcConfig::default();
    gated.admin_addresses.insert("seal1admin".into());
    match admit_request(&mut lim, 1, 0, "seal_bridgeCouncilAdd", None, &gated) {
        Admission::Proceed { needs_signature, admin_gated } => {
            assert!(needs_signature);
            assert!(admin_gated);
        }
        Admission::Refused { .. } => panic!("must proceed"),
    }
}

#[test]
fn admin_gate_membership_and_multisig() {
    let mut config = RpcConfig::default();
    config.admin_addresses.insert("a1".into());
    config.admin_addresses.insert("a2".into());
    config.admin_addresses.insert("a3".into());
    let err = check_admin_gate("seal_bridgePauseChain", Some("eve"), &[], &config).unwrap_err();
    assert_eq!(err.0, -32004);
    assert_eq!(err.1, "seal_bridgePauseChain requires admin authorization (address eve not in admin set)");
    let err = check_admin_gate("seal_bridgePauseChain", None, &[], &config).unwrap_err();
    assert_eq!(err.1, "seal_bridgePauseChain requires admin authorization (address  not in admin set)");
    check_admin_gate("seal_bridgePauseChain", Some("a1"), &[], &config).unwrap();
    config.admin_threshold = 2;
    let err = check_admin_gate("seal_bridgePauseChain", Some("a1"), &[], &config).unwrap_err();
    assert_eq!(err.0, -32004);
    assert_eq!(err.1, "seal_bridgePauseChain requires 2-of-3 admin multisig; got 1 distinct admin signature(s)");
    check_admin_gate("seal_bridgePauseChain", Some("a1"), &["a2".to_string()], &config).unwrap();
}

#[test]
fn admin_multisig_counts_distinct_admins_only() {
    let mut config = RpcConfig::default();
    config.admin_addresses.insert("a1".into());
    config.admin_addresses.insert("a2".into());
    config.admin_addresses.insert("a3".into());
    config.admin_threshold = 3;
    // Repeated cosigner and the caller itself count once; non-admins not at all.
    let cos = vec!["a2".to_string(), "a2".to_string(), "a1".to_string(), "eve".to_string()];
    let err = verify_admin_multisig("m", "a1", &cos, &config).unwrap_err();
    assert!(err.contains("got 2"), "err: {err}");
    let cos = vec!["a2".to_string(), "a3".to_string()];
    verify_admin_multisig("m", "a1", &cos, &config).unwrap();
}

// --- Governance parameters ---

#[test]
fn parse_track_aliases_ignore_case() {
    assert_eq!(parse_track("Parameter").unwrap(), ProposalTrack::ParameterChange);
    assert_eq!(parse_track("PROTOCOL_UPGRADE").unwrap(), ProposalTrack::ProtocolUpgrade);
    assert_eq!(parse_track("treasurysmall").unwrap(), ProposalTrack::TreasurySmall);
    assert_eq!(parse_track("Treasury_Large").unwrap(), ProposalTrack::TreasuryLarge);
    assert_eq!(parse_track("emergency").unwrap(), ProposalTrack::Emergency);
    assert_eq!(parse_track("Constitutional").unwrap(), ProposalTrack::Constitutional);
    let err = parse_track("Budget").unwrap_err();
    assert_eq!(err.0, -32602);
    assert_eq!(err.1, "unknown track 'budget'");
}

#[test]
fn parse_conviction_aliases() {
    assert_eq!(parse_conviction("None").unwrap(), Conviction::NoLock);
    assert_eq!(parse_conviction("0").unwrap(), Conviction::NoLock);
    assert_eq!(parse_conviction("X3").unwrap(), Conviction::X3);
    assert_eq!(parse_conviction("6").unwrap(), Conviction::X6);
    let err = parse_conviction("X7").unwrap_err();
    assert_eq!(err.0, -32602);
    assert_eq!(err.1, "unknown conviction 'x7'");
}

#[test]
fn parse_choice_aliases() {
    assert_eq!(parse_choice("AYE").unwrap(), VoteChoice::Yes);
    assert_eq!(parse_choice("nay").unwrap(), VoteChoice::No);
    assert_eq!(parse_choice("Abstain").unwrap(), VoteChoice::Abstain);
    let err = parse_choice("Maybe").unwrap_err();
    assert_eq!(err.1, "unknown vote choice 'maybe'");
}

// --- Admin multisig with real cosigners ---
//
// Cosignatures are checked, and their addresses derived, where the
// request is decoded; the library receives the addresses of the
// cosignatures that verified.

#[test]
fn admin_multisig_threshold_2_rejects_single_sig() {
    // With threshold 2, the primary signer alone isn't enough.
    let mut config = RpcConfig::default();
    config.admin_addresses.insert("seal1adminA".to_string());
    config.admin_addresses.insert("seal1adminB".to_string());
    config.admin_threshold = 2;
    let err = verify_admin_multisig("seal_bridgePauseChain", "seal1adminA", &[], &config)
        .expect_err("primary-only must fail at threshold 2");
    assert!(err.contains("2-of-2 admin multisig"), "err: {err}");
    assert!(err.contains("got 1"), "err: {err}");
}

#[test]
fn admin_multisig_threshold_2_accepts_valid_cosig() {
    // The primary plus one cosigner whose signature verified reach
    // threshold 2.
    let cosigner_addr = "seal1cosigner".to_string();
    let mut config = RpcConfig::default();
    config.admin_addresses.insert("seal1primary".to_string());
    config.admin_addresses.insert(cosigner_addr.clone());
    config.admin_threshold = 2;
    config.testnet = true;
    verify_admin_multisig("seal_bridgePauseChain", "seal1primary", &[cosigner_addr], &config)
        .expect("primary + 1 valid cosig at threshold 2 must pass");
}

#[test]
fn admin_multisig_dedups_repeated_cosigner() {
    // The same cosigner submitted twice counts as one.
    let cosigner_addr = "seal1cosigner".to_string();
    let mut config = RpcConfig::default();
    config.admin_addresses.insert("seal1primary".to_string());
    config.admin_addresses.insert(cosigner_addr.clone());
    config.admin_threshold = 3;
    config.testnet = true;
    let cos = vec![cosigner_addr.clone(), cosigner_addr];
    let err = verify_admin_multisig("seal_bridgePauseChain", "seal1primary", &cos, &config)
        .expect_err("repeated cosigner must NOT push count to 3");
    assert!(err.contains("got 2"), "err: {err}");
}

#[test]
fn rate_limiter_isolates_groups_per_ip() {
    // Expensive-bucket exhaustion must not block cheap reads from the
    // same IP (127.0.0.1).
    let mut lim = RateLimiter::default();
    let ip: u128 = 0x7f00_0001;
    for _ in 0..20 {
        assert!(lim.check(ip, RpcGroup::Expensive, 20, 0));
    }
    assert!(!lim.check(ip, RpcGroup::Expensive, 20, 0));
    for _ in 0..120 {
        assert!(lim.check(ip, RpcGroup::Default, 120, 0));
    }
    for _ in 0..5 {
        assert!(lim.check(ip, RpcGroup::Admin, 5, 0));
    }
    assert!(!lim.check(ip, RpcGroup::Admin, 5, 0));
}

// --- Recipient-new-account policy ---
//
// `confirmed` is the request's `confirm_new_recipient` parameter when it
// is a JSON `true`; absent, `false` or any other value reads as `false`.

#[test]
fn test_recipient_policy_block_default_rejects_new() {
    let config = RpcConfig::default();
    assert!(!config.allow_new_recipients);
    let err = check_recipient_policy(&config, false, false, "seal1new").unwrap_err();
    assert_eq!(err.0, -32007);
    assert!(err.1.contains("seal1new"));
    assert!(err.1.contains("confirm_new_recipient"));
}

#[test]
fn test_recipient_policy_block_accepts_existing() {
    let config = RpcConfig::default();
    check_recipient_policy(&config, false, true, "seal1known").unwrap();
}

#[test]
fn test_recipient_policy_confirm_unblocks_new() {
    let config = RpcConfig::default();
    check_recipient_policy(&config, true, false, "seal1new").unwrap();
}

#[test]
fn test_recipient_policy_confirm_false_still_blocks() {
    let config = RpcConfig::default();
    assert!(check_recipient_policy(&config, false, false, "seal1new").is_err());
}

#[test]
fn test_recipient_policy_allow_mode_skips_check() {
    let mut config = RpcConfig::default();
    config.allow_new_recipients = true;
    check_recipient_policy(&config, false, false, "seal1new").unwrap();
}

#[test]
fn test_recipient_policy_non_bool_confirm_treated_as_false() {
    let config = RpcConfig::default();
    // A string "true" is not a JSON bool: it reads as not confirmed.
    let confirm_param = serde_json::Value::String("true".to_string());
    let confirmed = confirm_param.as_bool().unwrap_or(false);
    assert!(check_recipient_policy(&config, confirmed, false, "seal1new").is_err());
}

#[test]
fn hex_addresses_are_lowercased_keys() {
    let upper = "AB".repeat(32);
    assert_eq!(hex_address_key(&upper), Some("ab".repeat(32)));
    assert_eq!(hex_address_key(&"0f".repeat(32)), Some("0f".repeat(32)));
    // Wrong length, or a character that is not a hex digit.
    assert_eq!(hex_address_key(&"ab".repeat(31)), None);
    assert_eq!(hex_address_key(&format!("g{}", "0".repeat(63))), None);
    assert_eq!(hex_address_key("sealt1qqqq"), None);
}

#[test]
fn rate_limiter_reports_bucket_counts() {
    let mut lim = RateLimiter::default();
    assert_eq!(lim.count(9, RpcGroup::Expensive), 0);
    for _ in 0..3 {
        lim.check(9, RpcGroup::Expensive, 20, 5);
    }
    lim.check(9, RpcGroup::Default, 20, 5);
    assert_eq!(lim.count(9, RpcGroup::Expensive), 3);
    assert_eq!(lim.count(9, RpcGroup::Default), 1);
    assert_eq!(lim.count(10, RpcGroup::Expensive), 0);
}
