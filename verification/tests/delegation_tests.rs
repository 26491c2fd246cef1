use seal_node::delegation::DelegationManager;
use seal_node::governance::ProposalTrack;

#[test]
fn test_delegate_and_effective_weight() {
    let mut dm = DelegationManager::new();
    let track = ProposalTrack::TreasurySmall;

    // A delegates 100 to B
    dm.delegate("alice", "bob", &track, 100).unwrap();
    // C delegates 200 to B
    dm.delegate("charlie", "bob", &track, 200).unwrap();

    // B's effective weight with no direct voters overriding
    let eff = dm.effective_weight("bob", &track, &[]);
    assert_eq!(eff, 300);
}

#[test]
fn test_direct_vote_overrides_delegation() {
    let mut dm = DelegationManager::new();
    let track = ProposalTrack::TreasurySmall;

    dm.delegate("alice", "bob", &track, 100).unwrap();
    dm.delegate("charlie", "bob", &track, 200).unwrap();

    // Alice voted directly, so her delegation is excluded
    let eff = dm.effective_weight("bob", &track, &["alice".to_string()]);
    assert_eq!(eff, 200);
}

#[test]
fn test_delegation_per_track() {
    let mut dm = DelegationManager::new();

    dm.delegate("alice", "bob", &ProposalTrack::TreasurySmall, 100)
        .unwrap();
    dm.delegate("alice", "charlie", &ProposalTrack::ProtocolUpgrade, 200)
        .unwrap();

    assert_eq!(
        dm.total_delegated_to("bob", &ProposalTrack::TreasurySmall),
        100
    );
    assert_eq!(
        dm.total_delegated_to("bob", &ProposalTrack::ProtocolUpgrade),
        0
    );
    assert_eq!(
        dm.total_delegated_to("charlie", &ProposalTrack::ProtocolUpgrade),
        200
    );
}

#[test]
fn test_revoke_delegation() {
    let mut dm = DelegationManager::new();
    let track = ProposalTrack::ParameterChange;

    dm.delegate("alice", "bob", &track, 500).unwrap();
    assert_eq!(dm.total_delegated_to("bob", &track), 500);

    dm.revoke("alice", &track).unwrap();
    assert_eq!(dm.total_delegated_to("bob", &track), 0);
}

#[test]
fn test_revoke_nonexistent_fails() {
    let mut dm = DelegationManager::new();
    let result = dm.revoke("alice", &ProposalTrack::Emergency);
    assert!(result.is_err());
}

#[test]
fn test_cannot_delegate_to_self() {
    let mut dm = DelegationManager::new();
    let result = dm.delegate("alice", "alice", &ProposalTrack::TreasurySmall, 100);
    assert!(result.is_err());
}

#[test]
fn test_zero_weight_delegation_rejected() {
    let mut dm = DelegationManager::new();
    let result = dm.delegate("alice", "bob", &ProposalTrack::TreasurySmall, 0);
    assert!(result.is_err());
}

#[test]
fn test_replace_existing_delegation() {
    let mut dm = DelegationManager::new();
    let track = ProposalTrack::Constitutional;

    dm.delegate("alice", "bob", &track, 100).unwrap();
    assert_eq!(dm.total_delegated_to("bob", &track), 100);

    // Alice re-delegates to charlie — replaces the previous delegation
    dm.delegate("alice", "charlie", &track, 250).unwrap();
    assert_eq!(dm.total_delegated_to("bob", &track), 0);
    assert_eq!(dm.total_delegated_to("charlie", &track), 250);
}

#[test]
fn test_delegate_cap_under() {
    let mut dm = DelegationManager::new();
    let track = ProposalTrack::TreasuryLarge;

    // Circulating supply: 1_000_000. 4% cap = 40_000.
    dm.delegate("alice", "bob", &track, 30_000).unwrap();
    assert!(dm.check_delegate_cap("bob", &track, 1_000_000));
}

#[test]
fn test_delegate_cap_at_limit() {
    let mut dm = DelegationManager::new();
    let track = ProposalTrack::TreasuryLarge;

    // Exactly at 4% — should return false (not strictly under)
    dm.delegate("alice", "bob", &track, 40_000).unwrap();
    assert!(!dm.check_delegate_cap("bob", &track, 1_000_000));
}

#[test]
fn test_delegate_cap_over() {
    let mut dm = DelegationManager::new();
    let track = ProposalTrack::TreasuryLarge;

    dm.delegate("alice", "bob", &track, 50_000).unwrap();
    assert!(!dm.check_delegate_cap("bob", &track, 1_000_000));
}

#[test]
fn test_stacking_from_multiple_delegators() {
    let mut dm = DelegationManager::new();
    let track = ProposalTrack::ParameterChange;

    dm.delegate("a", "z", &track, 10).unwrap();
    dm.delegate("b", "z", &track, 20).unwrap();
    dm.delegate("c", "z", &track, 30).unwrap();
    dm.delegate("d", "z", &track, 40).unwrap();

    assert_eq!(dm.total_delegated_to("z", &track), 100);
    assert_eq!(dm.effective_weight("z", &track, &[]), 100);

    // Two of them voted directly
    let eff = dm.effective_weight("z", &track, &["a".to_string(), "c".to_string()]);
    assert_eq!(eff, 60); // 20 + 40
}

#[test]
fn test_effective_weight_no_delegations() {
    let dm = DelegationManager::new();
    let track = ProposalTrack::Emergency;

    // No delegations: effective weight from delegations is 0
    assert_eq!(dm.effective_weight("alice", &track, &[]), 0);
}

#[test]
fn test_delegations_from_and_to() {
    let mut dm = DelegationManager::new();
    // alice delegates 10 to bob on TreasurySmall, 20 to carol on Emergency.
    dm.delegate("alice", "bob", &ProposalTrack::TreasurySmall, 10)
        .unwrap();
    dm.delegate("alice", "carol", &ProposalTrack::Emergency, 20)
        .unwrap();
    // dave delegates 50 to bob on TreasurySmall.
    dm.delegate("dave", "bob", &ProposalTrack::TreasurySmall, 50)
        .unwrap();

    // Outgoing from alice: 2 entries.
    let alice_out = dm.delegations_from("alice");
    assert_eq!(alice_out.len(), 2);
    assert!(alice_out.iter().all(|d| d.delegator == "alice"));
    // Empty for non-delegators.
    assert!(dm.delegations_from("nobody").is_empty());

    // Incoming to bob: 2 entries (alice + dave on TreasurySmall).
    let bob_in = dm.delegations_to("bob");
    assert_eq!(bob_in.len(), 2);
    assert!(bob_in.iter().all(|d| d.delegate == "bob"));
    // Sorted by (track, delegator) — both same track, so by delegator
    // alphabetically: alice < dave.
    assert_eq!(bob_in[0].delegator, "alice");
    assert_eq!(bob_in[1].delegator, "dave");

    // carol has only one incoming delegation.
    assert_eq!(dm.delegations_to("carol").len(), 1);

    // Empty for non-delegates.
    assert!(dm.delegations_to("nobody").is_empty());
}

#[test]
fn test_saturating_addition_large_weights() {
    let mut dm = DelegationManager::new();
    let track = ProposalTrack::TreasurySmall;

    dm.delegate("a", "z", &track, u64::MAX - 1).unwrap();
    dm.delegate("b", "z", &track, u64::MAX - 1).unwrap();

    // Should saturate at u64::MAX, not overflow
    let eff = dm.effective_weight("z", &track, &[]);
    assert_eq!(eff, u64::MAX);
}

#[test]
fn delegate_cap_compares_exactly() {
    let mut dm = DelegationManager::new();
    let track = ProposalTrack::TreasuryLarge;
    dm.delegate("alice", "bob", &track, 1).unwrap();
    // 4% of 30 is 1.2, and 1 < 1.2.
    assert!(dm.check_delegate_cap("bob", &track, 30));
    // 4% of 25 is exactly 1.
    assert!(!dm.check_delegate_cap("bob", &track, 25));
    // A supply whose 4% overflows u64 still compares exactly.
    assert!(dm.check_delegate_cap("bob", &track, u64::MAX));
}

#[test]
fn revoke_lowers_delegate_total_by_its_weight() {
    let mut dm = DelegationManager::new();
    let track = ProposalTrack::TreasurySmall;
    dm.delegate("alice", "bob", &track, 100).unwrap();
    dm.delegate("carol", "bob", &track, 250).unwrap();
    dm.delegate("dave", "erin", &track, 40).unwrap();
    assert_eq!(dm.total_delegated_to("bob", &track), 350);
    dm.revoke("alice", &track).unwrap();
    assert_eq!(dm.total_delegated_to("bob", &track), 250);
    assert_eq!(dm.total_delegated_to("erin", &track), 40);
}
