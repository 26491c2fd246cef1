use seal_node::governance::{
    adaptive_threshold, Conviction, CouncilMember, GovernanceModule, OperatorInfo, ProposalStatus, ProposalTrack,
    ServiceOperatorsCouncil, TechnicalCouncil, VoteChoice,
};

#[test]
fn test_create_and_vote() {
    let mut gov = GovernanceModule::new();
    let id = gov.create_proposal(
        ProposalTrack::ParameterChange,
        "Increase block size".into(),
        "Proposal to increase max block size to 2MB".into(),
        "SET block_size = 2097152".into(),
        "seal1proposer".into(),
        10,
    );

    assert_eq!(id, 0);
    assert_eq!(gov.get_proposal(0).unwrap().status, ProposalStatus::Voting);

    gov.vote(id, "seal1alice".into(), VoteChoice::Yes, 1000)
        .unwrap();
    gov.vote(id, "seal1bob".into(), VoteChoice::Yes, 500)
        .unwrap();
    gov.vote(id, "seal1charlie".into(), VoteChoice::No, 200)
        .unwrap();
}

#[test]
fn test_tally_passes() {
    let mut gov = GovernanceModule::new();
    let id = gov.create_proposal(
        ProposalTrack::ParameterChange,
        "Test".into(),
        "".into(),
        "payload".into(),
        "proposer".into(),
        0,
    );

    gov.vote(id, "a".into(), VoteChoice::Yes, 700).unwrap();
    gov.vote(id, "b".into(), VoteChoice::No, 300).unwrap();

    let status = gov.tally(id, 5).unwrap();
    assert!(matches!(status, ProposalStatus::Timelocked { .. }));
}

#[test]
fn test_tally_rejects() {
    let mut gov = GovernanceModule::new();
    let id = gov.create_proposal(
        ProposalTrack::ParameterChange,
        "Test".into(),
        "".into(),
        "payload".into(),
        "proposer".into(),
        0,
    );

    gov.vote(id, "a".into(), VoteChoice::Yes, 300).unwrap();
    gov.vote(id, "b".into(), VoteChoice::No, 700).unwrap();

    let status = gov.tally(id, 5).unwrap();
    assert_eq!(status, ProposalStatus::Rejected);
}

#[test]
fn test_tally_too_early() {
    let mut gov = GovernanceModule::new();
    let id = gov.create_proposal(
        ProposalTrack::ParameterChange,
        "Test".into(),
        "".into(),
        "".into(),
        "p".into(),
        0,
    );
    assert!(gov.tally(id, 2).is_err());
}

#[test]
fn test_execute_after_timelock() {
    let mut gov = GovernanceModule::new();
    let id = gov.create_proposal(
        ProposalTrack::ParameterChange,
        "Test".into(),
        "".into(),
        "SET x = 1".into(),
        "p".into(),
        0,
    );

    gov.vote(id, "a".into(), VoteChoice::Yes, 1000).unwrap();
    gov.tally(id, 5).unwrap();

    assert!(gov.execute(id, 6).is_err());

    let payload = gov.execute(id, 8).unwrap();
    assert_eq!(payload, "SET x = 1");
    assert_eq!(
        gov.get_proposal(id).unwrap().status,
        ProposalStatus::Executed
    );
}

#[test]
fn test_double_vote_changes_vote() {
    // With conviction voting, duplicate votes now UPDATE rather than reject
    let mut gov = GovernanceModule::new();
    let id = gov.create_proposal(
        ProposalTrack::ParameterChange,
        "Test".into(),
        "".into(),
        "".into(),
        "p".into(),
        0,
    );
    gov.vote(id, "alice".into(), VoteChoice::Yes, 100).unwrap();
    // Second vote changes the first
    gov.vote(id, "alice".into(), VoteChoice::No, 100).unwrap();
    let votes = gov.get_votes(id).unwrap();
    assert_eq!(votes.len(), 1);
    assert_eq!(votes[0].choice, VoteChoice::No);
}

#[test]
fn test_protocol_upgrade_supermajority() {
    let mut gov = GovernanceModule::new();
    let id = gov.create_proposal(
        ProposalTrack::ProtocolUpgrade,
        "Upgrade".into(),
        "".into(),
        "".into(),
        "p".into(),
        0,
    );

    gov.vote(id, "a".into(), VoteChoice::Yes, 650).unwrap();
    gov.vote(id, "b".into(), VoteChoice::No, 350).unwrap();

    let status = gov.tally(id, 14).unwrap();
    assert_eq!(status, ProposalStatus::Rejected);
}

// --- Conviction voting tests ---

#[test]
fn test_conviction_multipliers() {
    assert_eq!(Conviction::NoLock.weighted_stake(1000), 100); // 0.1×
    assert_eq!(Conviction::X1.weighted_stake(1000), 1000);  // 1×
    assert_eq!(Conviction::X2.weighted_stake(1000), 2000);  // 2×
    assert_eq!(Conviction::X3.weighted_stake(1000), 3000);  // 3×
    assert_eq!(Conviction::X4.weighted_stake(1000), 4000);  // 4×
    assert_eq!(Conviction::X5.weighted_stake(1000), 5000);  // 5×
    assert_eq!(Conviction::X6.weighted_stake(1000), 6000);  // 6×
}

#[test]
fn test_conviction_lock_periods() {
    assert_eq!(Conviction::NoLock.lock_epochs(), 0);
    assert_eq!(Conviction::X1.lock_epochs(), 1);
    assert_eq!(Conviction::X2.lock_epochs(), 2);
    assert_eq!(Conviction::X3.lock_epochs(), 4);
    assert_eq!(Conviction::X4.lock_epochs(), 8);
    assert_eq!(Conviction::X5.lock_epochs(), 16);
    assert_eq!(Conviction::X6.lock_epochs(), 32);
}

#[test]
fn test_conviction_saturating_on_large_stake() {
    let large_stake = u64::MAX / 2;
    // Should not overflow, uses saturating_mul
    let weight = Conviction::X6.weighted_stake(large_stake);
    assert!(weight > 0);
    assert!(weight <= large_stake.saturating_mul(32));
}

#[test]
fn test_vote_with_conviction_x4() {
    let mut gov = GovernanceModule::new();
    let id = gov.create_proposal(
        ProposalTrack::ParameterChange,
        "Test".into(),
        "".into(),
        "p".into(),
        "p".into(),
        0,
    );

    // 100 stake with 4× conviction = 400 weight
    gov.vote_with_conviction(id, "alice".into(), VoteChoice::Yes, 100, Conviction::X4)
        .unwrap();

    let votes = gov.get_votes(id).unwrap();
    assert_eq!(votes[0].weight, 400);
    assert_eq!(votes[0].stake, 100);
    assert_eq!(votes[0].conviction, Conviction::X4);
    // Vote ends at epoch 5, lock 8 epochs → unlock at 13
    assert_eq!(votes[0].unlock_epoch, 13);
}

#[test]
fn test_conviction_lock_created() {
    let mut gov = GovernanceModule::new();
    let id = gov.create_proposal(
        ProposalTrack::ParameterChange,
        "Test".into(),
        "".into(),
        "p".into(),
        "p".into(),
        0,
    );

    gov.vote_with_conviction(id, "alice".into(), VoteChoice::Yes, 500, Conviction::X3)
        .unwrap();

    assert_eq!(gov.conviction_locks().len(), 1);
    assert_eq!(gov.conviction_locks()[0].amount, 500);
    assert_eq!(gov.conviction_locks()[0].unlock_epoch, 9); // 5 + 4
}

#[test]
fn test_no_lock_for_conviction_none() {
    let mut gov = GovernanceModule::new();
    let id = gov.create_proposal(
        ProposalTrack::ParameterChange,
        "Test".into(),
        "".into(),
        "p".into(),
        "p".into(),
        0,
    );

    gov.vote_with_conviction(id, "alice".into(), VoteChoice::Yes, 500, Conviction::NoLock)
        .unwrap();

    assert_eq!(gov.conviction_locks().len(), 0);
}

#[test]
fn test_vote_change_updates_conviction() {
    let mut gov = GovernanceModule::new();
    let id = gov.create_proposal(
        ProposalTrack::ParameterChange,
        "Test".into(),
        "".into(),
        "p".into(),
        "p".into(),
        0,
    );

    gov.vote_with_conviction(id, "alice".into(), VoteChoice::Yes, 100, Conviction::X2)
        .unwrap();
    assert_eq!(gov.get_votes(id).unwrap()[0].weight, 200);

    // Change to X4
    gov.vote_with_conviction(id, "alice".into(), VoteChoice::No, 100, Conviction::X4)
        .unwrap();
    let votes = gov.get_votes(id).unwrap();
    assert_eq!(votes.len(), 1);
    assert_eq!(votes[0].weight, 400);
    assert_eq!(votes[0].choice, VoteChoice::No);
}

#[test]
fn test_withdraw_vote() {
    let mut gov = GovernanceModule::new();
    let id = gov.create_proposal(
        ProposalTrack::ParameterChange,
        "Test".into(),
        "".into(),
        "p".into(),
        "p".into(),
        0,
    );

    gov.vote(id, "alice".into(), VoteChoice::Yes, 100).unwrap();
    assert_eq!(gov.get_votes(id).unwrap().len(), 1);

    gov.withdraw_vote(id, "alice").unwrap();
    assert_eq!(gov.get_votes(id).unwrap().len(), 0);

    // Lock remains (tokens still locked)
    // alice can re-vote
    gov.vote(id, "alice".into(), VoteChoice::No, 200).unwrap();
    assert_eq!(gov.get_votes(id).unwrap().len(), 1);
}

#[test]
fn test_release_expired_locks() {
    let mut gov = GovernanceModule::new();
    let id = gov.create_proposal(
        ProposalTrack::ParameterChange,
        "Test".into(),
        "".into(),
        "p".into(),
        "p".into(),
        0,
    );

    gov.vote_with_conviction(id, "alice".into(), VoteChoice::Yes, 100, Conviction::X1)
        .unwrap(); // unlock at epoch 6 (5+1)
    gov.vote_with_conviction(id, "bob".into(), VoteChoice::Yes, 200, Conviction::X4)
        .unwrap(); // unlock at epoch 13 (5+8)

    assert_eq!(gov.conviction_locks().len(), 2);

    // At epoch 6: alice's lock expires
    let released = gov.release_expired_locks(6);
    assert_eq!(released.len(), 1);
    assert_eq!(released[0].voter, "alice");
    assert_eq!(gov.conviction_locks().len(), 1);

    // At epoch 13: bob's lock expires
    let released = gov.release_expired_locks(13);
    assert_eq!(released.len(), 1);
    assert_eq!(released[0].voter, "bob");
    assert_eq!(gov.conviction_locks().len(), 0);
}

// --- Adaptive quorum tests ---

#[test]
fn test_adaptive_threshold_full_turnout() {
    // At 100% turnout: threshold = base + bias * 0 / 100 = base
    assert_eq!(adaptive_threshold(50, 20, 100), 50);
    assert_eq!(adaptive_threshold(66, 25, 100), 66);
    assert_eq!(adaptive_threshold(75, 30, 100), 75);
}

#[test]
fn test_adaptive_threshold_zero_turnout() {
    // At 0% turnout: threshold = base + bias
    assert_eq!(adaptive_threshold(50, 20, 0), 70); // 50 + 20
    assert_eq!(adaptive_threshold(66, 25, 0), 91); // 66 + 25
    assert_eq!(adaptive_threshold(75, 30, 0), 100); // 75 + 30 = 105 → capped at 100
}

#[test]
fn test_adaptive_threshold_half_turnout() {
    // At 50% turnout: threshold = base + bias * 50 / 100
    assert_eq!(adaptive_threshold(50, 20, 50), 60); // 50 + 10
    assert_eq!(adaptive_threshold(66, 25, 50), 78); // 66 + 12 (25*50/100=12)
}

#[test]
fn test_adaptive_threshold_capped_at_100() {
    assert_eq!(adaptive_threshold(90, 50, 0), 100);
    assert_eq!(adaptive_threshold(100, 100, 0), 100);
}

#[test]
fn test_adaptive_threshold_turnout_over_100() {
    // Edge case: turnout > 100 treated as 100
    assert_eq!(adaptive_threshold(50, 20, 150), 50);
}

#[test]
fn test_adaptive_quorum_in_tally() {
    let mut gov = GovernanceModule::with_supply(10000);
    let id = gov.create_proposal(
        ProposalTrack::ParameterChange, // base 50%, bias 20%, min turnout 5%
        "Test".into(),
        "".into(),
        "p".into(),
        "p".into(),
        0,
    );

    // 10% turnout → threshold = 50 + 20*(90)/100 = 68%
    // 600 yes, 400 no → 60% approval < 68% → REJECTED
    gov.vote_with_conviction(id, "a".into(), VoteChoice::Yes, 600, Conviction::X1)
        .unwrap();
    gov.vote_with_conviction(id, "b".into(), VoteChoice::No, 400, Conviction::X1)
        .unwrap();

    let status = gov.tally(id, 5).unwrap();
    assert_eq!(status, ProposalStatus::Rejected);
}

#[test]
fn test_min_turnout_rejection() {
    let mut gov = GovernanceModule::with_supply(1_000_000);
    let id = gov.create_proposal(
        ProposalTrack::ProtocolUpgrade, // min turnout 10%
        "Test".into(),
        "".into(),
        "p".into(),
        "p".into(),
        0,
    );

    // Only 5% turnout (50000 of 1000000) → below 10% minimum
    gov.vote_with_conviction(id, "a".into(), VoteChoice::Yes, 50000, Conviction::X1)
        .unwrap();

    let status = gov.tally(id, 14).unwrap();
    assert_eq!(status, ProposalStatus::Rejected);
}

#[test]
fn test_high_turnout_uses_base_threshold() {
    let mut gov = GovernanceModule::with_supply(1000);
    let id = gov.create_proposal(
        ProposalTrack::ParameterChange, // base 50%, bias 20%
        "Test".into(),
        "".into(),
        "p".into(),
        "p".into(),
        0,
    );

    // 100% turnout → threshold = 50% exactly
    // 510 yes, 490 no → 51% > 50% → PASSES
    gov.vote_with_conviction(id, "a".into(), VoteChoice::Yes, 510, Conviction::X1)
        .unwrap();
    gov.vote_with_conviction(id, "b".into(), VoteChoice::No, 490, Conviction::X1)
        .unwrap();

    let status = gov.tally(id, 5).unwrap();
    assert!(matches!(status, ProposalStatus::Timelocked { .. }));
}

#[test]
fn test_conviction_amplifies_winning_side() {
    let mut gov = GovernanceModule::new();
    let id = gov.create_proposal(
        ProposalTrack::ParameterChange,
        "Test".into(),
        "".into(),
        "p".into(),
        "p".into(),
        0,
    );

    // Alice: 300 stake with X4 conviction = 1200 weight (Yes)
    // Bob: 500 stake with X1 conviction = 500 weight (No)
    // Alice wins despite lower stake due to conviction
    gov.vote_with_conviction(id, "alice".into(), VoteChoice::Yes, 300, Conviction::X4)
        .unwrap();
    gov.vote_with_conviction(id, "bob".into(), VoteChoice::No, 500, Conviction::X1)
        .unwrap();

    let status = gov.tally(id, 5).unwrap();
    assert!(matches!(status, ProposalStatus::Timelocked { .. }));
}

// --- Technical Council tests ---

#[test]
fn test_tc_add_and_remove_member() {
    let mut tc = TechnicalCouncil::new();
    let member = CouncilMember {
        pubkey: "member1".into(),
        name: "Alice".into(),
        term_start_epoch: 0,
        term_end_epoch: 26280, // ~1 year
    };
    tc.add_member(member).unwrap();
    assert_eq!(tc.member_count(), 1);

    tc.remove_member("member1").unwrap();
    assert_eq!(tc.member_count(), 0);
}

#[test]
fn test_tc_duplicate_member_rejected() {
    let mut tc = TechnicalCouncil::new();
    let member = CouncilMember {
        pubkey: "member1".into(),
        name: "Alice".into(),
        term_start_epoch: 0,
        term_end_epoch: 26280,
    };
    tc.add_member(member.clone()).unwrap();
    assert!(tc.add_member(member).is_err());
}

#[test]
fn test_tc_max_size_enforced() {
    let mut tc = TechnicalCouncil::new();
    for i in 0..11 {
        tc.add_member(CouncilMember {
            pubkey: format!("m{}", i),
            name: format!("Member {}", i),
            term_start_epoch: 0,
            term_end_epoch: 26280,
        })
        .unwrap();
    }
    assert_eq!(tc.member_count(), 11);
    // 12th member should fail
    assert!(tc
        .add_member(CouncilMember {
            pubkey: "m11".into(),
            name: "Extra".into(),
            term_start_epoch: 0,
            term_end_epoch: 26280,
        })
        .is_err());
}

#[test]
fn test_tc_whitelist_requires_majority() {
    let mut tc = TechnicalCouncil::new();
    for i in 0..7 {
        tc.add_member(CouncilMember {
            pubkey: format!("m{}", i),
            name: format!("Member {}", i),
            term_start_epoch: 0,
            term_end_epoch: 26280,
        })
        .unwrap();
    }

    // Need 4 of 7 (majority)
    // 3 approvers → insufficient
    assert!(tc
        .whitelist_proposal(1, &["m0".into(), "m1".into(), "m2".into()])
        .is_err());

    // 4 approvers → sufficient
    tc.whitelist_proposal(
        1,
        &["m0".into(), "m1".into(), "m2".into(), "m3".into()],
    )
    .unwrap();
    assert!(tc.is_whitelisted(1));
}

#[test]
fn test_tc_veto_proposal() {
    let mut tc = TechnicalCouncil::new();
    for i in 0..7 {
        tc.add_member(CouncilMember {
            pubkey: format!("m{}", i),
            name: format!("Member {}", i),
            term_start_epoch: 0,
            term_end_epoch: 26280,
        })
        .unwrap();
    }

    tc.veto_proposal(42, &["m0".into(), "m1".into(), "m2".into()])
        .unwrap();
    assert!(tc.is_vetoed(42));
    assert!(!tc.is_vetoed(43));
}

#[test]
fn test_tc_two_thirds_threshold_is_ceiling() {
    let mut tc = TechnicalCouncil::new();
    assert_eq!(tc.two_thirds_threshold(), 0);
    for n in 1..=11 {
        tc.add_member(CouncilMember {
            pubkey: format!("m{}", n - 1),
            name: format!("M{}", n - 1),
            term_start_epoch: 0,
            term_end_epoch: 26280,
        })
        .unwrap();
        let expected = (n * 2usize).div_ceil(3);
        assert_eq!(
            tc.two_thirds_threshold(),
            expected,
            "n={} → expected {}",
            n,
            expected
        );
    }
}

#[test]
fn test_tc_has_two_thirds_approval() {
    let mut tc = TechnicalCouncil::new();
    // Empty council — never approves.
    assert!(!tc.has_two_thirds_approval(&[]));
    assert!(!tc.has_two_thirds_approval(&["m0".into()]));

    for i in 0..7 {
        tc.add_member(CouncilMember {
            pubkey: format!("m{}", i),
            name: format!("M{}", i),
            term_start_epoch: 0,
            term_end_epoch: 26280,
        })
        .unwrap();
    }
    // 7 members → 2/3 threshold = ceil(14/3) = 5.
    assert!(!tc.has_two_thirds_approval(&[
        "m0".into(),
        "m1".into(),
        "m2".into(),
        "m3".into(),
    ]));
    assert!(tc.has_two_thirds_approval(&[
        "m0".into(),
        "m1".into(),
        "m2".into(),
        "m3".into(),
        "m4".into(),
    ]));
    // Non-members don't count.
    assert!(!tc.has_two_thirds_approval(&[
        "m0".into(),
        "m1".into(),
        "stranger".into(),
        "ghost".into(),
        "unknown".into(),
    ]));
    // Duplicates collapse.
    assert!(!tc.has_two_thirds_approval(&[
        "m0".into(),
        "m0".into(),
        "m1".into(),
        "m1".into(),
        "m2".into(),
    ]));
}

#[test]
fn test_tc_list_members_sorted() {
    let mut tc = TechnicalCouncil::new();
    for pk in ["charlie", "alice", "bob"] {
        tc.add_member(CouncilMember {
            pubkey: pk.into(),
            name: pk.into(),
            term_start_epoch: 0,
            term_end_epoch: 26280,
        })
        .unwrap();
    }
    let listed = tc.list_members();
    let pks: Vec<_> = listed.iter().map(|m| m.pubkey.as_str()).collect();
    assert_eq!(pks, vec!["alice", "bob", "charlie"]);
}

#[test]
fn test_tc_expire_terms() {
    let mut tc = TechnicalCouncil::new();
    tc.add_member(CouncilMember {
        pubkey: "early".into(),
        name: "Early".into(),
        term_start_epoch: 0,
        term_end_epoch: 100,
    })
    .unwrap();
    tc.add_member(CouncilMember {
        pubkey: "late".into(),
        name: "Late".into(),
        term_start_epoch: 0,
        term_end_epoch: 26280,
    })
    .unwrap();

    let expired = tc.expire_terms(150);
    assert_eq!(expired.len(), 1);
    assert_eq!(expired[0].pubkey, "early");
    assert_eq!(tc.member_count(), 1);
}

// --- Service Operators Council tests ---

#[test]
fn test_soc_register_and_remove() {
    let mut soc = ServiceOperatorsCouncil::new();
    soc.register_operator(OperatorInfo {
        operator_id: "op1".into(),
        description: "AWS nodes".into(),
        node_count: 10,
        tee_attested: true,
    })
    .unwrap();
    assert_eq!(soc.operator_count(), 1);

    soc.remove_operator("op1").unwrap();
    assert_eq!(soc.operator_count(), 0);
}

#[test]
fn test_soc_duplicate_rejected() {
    let mut soc = ServiceOperatorsCouncil::new();
    let op = OperatorInfo {
        operator_id: "op1".into(),
        description: "Nodes".into(),
        node_count: 5,
        tee_attested: false,
    };
    soc.register_operator(op.clone()).unwrap();
    assert!(soc.register_operator(op).is_err());
}

#[test]
fn test_soc_endorse_requires_majority() {
    let mut soc = ServiceOperatorsCouncil::new();
    for i in 0..5 {
        soc.register_operator(OperatorInfo {
            operator_id: format!("op{}", i),
            description: format!("Operator {}", i),
            node_count: 3,
            tee_attested: i % 2 == 0,
        })
        .unwrap();
    }

    // 2 of 5 → not enough (need 3)
    assert!(soc
        .endorse_proposal(1, &["op0".into(), "op1".into()])
        .is_err());

    // 3 of 5 → passes
    soc.endorse_proposal(1, &["op0".into(), "op1".into(), "op2".into()])
        .unwrap();
    assert!(soc.is_endorsed(1));
}

#[test]
fn test_soc_sla_veto() {
    let mut soc = ServiceOperatorsCouncil::new();
    for i in 0..4 {
        soc.register_operator(OperatorInfo {
            operator_id: format!("op{}", i),
            description: format!("Op {}", i),
            node_count: 1,
            tee_attested: false,
        })
        .unwrap();
    }

    soc.sla_veto(99, &["op0".into(), "op1".into()]).unwrap();
    assert!(soc.is_sla_vetoed(99));
    assert!(!soc.is_sla_vetoed(100));
}

fn two_proposals(gov: &mut GovernanceModule) -> (u64, u64) {
    let a = gov.create_proposal(
        ProposalTrack::ParameterChange,
        "A".into(),
        "".into(),
        "p".into(),
        "seal1alice".into(),
        0,
    );
    let b = gov.create_proposal(
        ProposalTrack::ParameterChange,
        "B".into(),
        "".into(),
        "p".into(),
        "seal1bob".into(),
        0,
    );
    (a, b)
}

#[test]
fn proposals_listed_by_proposer_in_id_order() {
    let mut gov = GovernanceModule::new();
    let (a, b) = two_proposals(&mut gov);
    let c = gov.create_proposal(ProposalTrack::ParameterChange, "C".into(), "".into(), "p".into(), "seal1alice".into(), 0);
    let mine: Vec<u64> = gov.proposals_by_proposer("seal1alice").iter().map(|p| p.id).collect();
    assert_eq!(mine, vec![a, c]);
    let bobs: Vec<u64> = gov.proposals_by_proposer("seal1bob").iter().map(|p| p.id).collect();
    assert_eq!(bobs, vec![b]);
    assert!(gov.proposals_by_proposer("seal1nobody").is_empty());
}

#[test]
fn votes_listed_by_voter_per_proposal() {
    let mut gov = GovernanceModule::new();
    let (a, b) = two_proposals(&mut gov);
    gov.vote_with_conviction(a, "alice".into(), VoteChoice::Yes, 100, Conviction::X1).unwrap();
    gov.vote_with_conviction(b, "alice".into(), VoteChoice::No, 50, Conviction::X2).unwrap();
    gov.vote_with_conviction(b, "bob".into(), VoteChoice::Yes, 70, Conviction::X1).unwrap();
    let votes = gov.votes_by_voter("alice");
    assert_eq!(votes.len(), 2);
    assert_eq!(votes[0].0, a);
    assert_eq!(votes[0].1.choice, VoteChoice::Yes);
    assert_eq!(votes[1].0, b);
    assert_eq!(votes[1].1.stake, 50);
    assert_eq!(gov.votes_by_voter("bob").len(), 1);
    assert!(gov.votes_by_voter("carol").is_empty());
}

#[test]
fn locks_listed_by_voter_soonest_unlock_first() {
    let mut gov = GovernanceModule::new();
    let (a, b) = two_proposals(&mut gov);
    gov.vote_with_conviction(a, "alice".into(), VoteChoice::Yes, 100, Conviction::X4).unwrap();
    gov.vote_with_conviction(b, "alice".into(), VoteChoice::Yes, 100, Conviction::X1).unwrap();
    gov.vote_with_conviction(b, "bob".into(), VoteChoice::Yes, 100, Conviction::X2).unwrap();
    let locks = gov.locks_by_voter("alice");
    assert_eq!(locks.len(), 2);
    assert_eq!(locks[0].proposal_id, b);
    assert_eq!(locks[1].proposal_id, a);
    assert!(locks[0].unlock_epoch <= locks[1].unlock_epoch);
    assert!(locks.iter().all(|l| l.voter == "alice"));
    assert!(gov.locks_by_voter("carol").is_empty());
}

#[test]
fn tally_fits_for_ordinary_stakes() {
    let mut gov = GovernanceModule::new();
    let (a, _) = two_proposals(&mut gov);
    gov.vote_with_conviction(a, "alice".into(), VoteChoice::Yes, 100, Conviction::X1).unwrap();
    assert!(gov.tally_fits(a, 100));
    assert!(gov.tally_fits(99, 100));
}

#[test]
fn track_parameters() {
    assert_eq!(ProposalTrack::Emergency.approval_threshold(), 75);
    assert_eq!(ProposalTrack::ParameterChange.approval_threshold(), 50);
    assert_eq!(ProposalTrack::TreasuryLarge.approval_threshold(), 66);
}

#[test]
fn supply_listing_and_expired_locks() {
    let mut gov = GovernanceModule::new();
    gov.set_total_eligible_supply(5_000);
    let (a, b) = two_proposals(&mut gov);
    let ids: Vec<u64> = gov.list_proposals().iter().map(|p| p.id).collect();
    assert_eq!(ids, vec![a, b]);
    gov.vote_with_conviction(a, "alice".into(), VoteChoice::Yes, 100, Conviction::X1).unwrap();
    gov.vote_with_conviction(b, "alice".into(), VoteChoice::Yes, 100, Conviction::X4).unwrap();
    // Vote ends at epoch 5: the 1-epoch lock is over at 6, the 8-epoch one at 13.
    assert!(gov.expired_locks(5).is_empty());
    let expired: Vec<u64> = gov.expired_locks(6).iter().map(|l| l.proposal_id).collect();
    assert_eq!(expired, vec![a]);
    assert_eq!(gov.expired_locks(13).len(), 2);
    // Listing them does not release them.
    assert_eq!(gov.conviction_locks().len(), 2);
}

#[test]
fn council_quorum() {
    let mut tc = TechnicalCouncil::new();
    assert!(!tc.has_quorum());
    for i in 0..7 {
        tc.add_member(CouncilMember {
            pubkey: format!("pk{}", i),
            name: format!("M{}", i),
            term_start_epoch: 0,
            term_end_epoch: 100,
        })
        .unwrap();
    }
    assert!(tc.has_quorum());
}

fn seven_member_council() -> TechnicalCouncil {
    let mut tc = TechnicalCouncil::new();
    for i in 0..7 {
        tc.add_member(CouncilMember {
            pubkey: format!("m{}", i),
            name: format!("M{}", i),
            term_start_epoch: 0,
            term_end_epoch: 26280,
        })
        .unwrap();
    }
    tc
}

fn four_operator_council() -> ServiceOperatorsCouncil {
    let mut soc = ServiceOperatorsCouncil::new();
    for i in 0..4 {
        soc.register_operator(OperatorInfo {
            operator_id: format!("op{}", i),
            description: "".into(),
            node_count: 1,
            tee_attested: false,
        })
        .unwrap();
    }
    soc
}

#[test]
fn repeated_member_does_not_whitelist() {
    let mut tc = seven_member_council();
    let r = tc.whitelist_proposal(1, &["m0".into(), "m0".into(), "m0".into(), "m0".into()]);
    assert_eq!(r, Err("need 4 council approvals, got 1".to_string()));
    assert!(!tc.is_whitelisted(1));
}

#[test]
fn repeated_member_does_not_veto() {
    let mut tc = seven_member_council();
    let r = tc.veto_proposal(42, &["m0".into(), "m0".into(), "m0".into()]);
    assert_eq!(r, Err("need 3 council approvals for veto, got 1".to_string()));
    assert!(!tc.is_vetoed(42));
    tc.veto_proposal(42, &["m0".into(), "m1".into(), "m2".into()]).unwrap();
    assert!(tc.is_vetoed(42));
}

#[test]
fn repeated_operator_does_not_sla_veto() {
    let mut soc = four_operator_council();
    let r = soc.sla_veto(99, &["op0".into(), "op0".into()]);
    assert_eq!(r, Err("need 2 operators for SLA veto, got 1".to_string()));
    assert!(!soc.is_sla_vetoed(99));
}

#[test]
fn repeated_operator_does_not_endorse() {
    let mut soc = four_operator_council();
    let r = soc.endorse_proposal(7, &["op1".into(), "op1".into(), "op2".into()]);
    assert_eq!(r, Err("need 3 operator endorsements, got 2".to_string()));
    assert!(!soc.is_endorsed(7));
}

#[test]
fn two_thirds_threshold_values() {
    let mut tc = seven_member_council();
    assert_eq!(tc.two_thirds_threshold(), 5);
    for i in 7..11 {
        tc.add_member(CouncilMember {
            pubkey: format!("m{}", i),
            name: format!("M{}", i),
            term_start_epoch: 0,
            term_end_epoch: 26280,
        })
        .unwrap();
        if i == 8 {
            assert_eq!(tc.two_thirds_threshold(), 6);
        }
    }
    assert_eq!(tc.two_thirds_threshold(), 8);
}

#[test]
fn proposal_ids_count_creates() {
    let mut gov = GovernanceModule::new();
    for k in 0..3u64 {
        let id = gov.create_proposal(
            ProposalTrack::ParameterChange,
            "t".into(),
            "d".into(),
            "p".into(),
            "seal1proposer".into(),
            k,
        );
        assert_eq!(id, k);
        assert_eq!(gov.get_proposal(k).unwrap().start_epoch, k);
        assert!(gov.get_votes(k).unwrap().is_empty());
    }
}
