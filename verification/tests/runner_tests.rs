use sha3::Digest;
use seal_node::hash::Hash256;
use seal_node::runner::{
    check_received_block, combined_state_root, epoch_of_transition, SenderNonces, epoch_emission, fee_address, initial_lease_paid_through, next_block_height,
    should_produce_block, storage_cost, timestamp_micros, InboundKind, InboundRoute, InboundTick, SlotRole,
};

/// SHA3-256, computed with the `sha3` crate directly.
fn sha3_256(data: &[u8]) -> Hash256 {
    let d = sha3::Sha3_256::digest(data);
    let mut out = [0u8; 32];
    out.copy_from_slice(&d);
    Hash256(out)
}

#[test]
fn proposer_always_produces_committee_only_alone() {
    assert!(should_produce_block(SlotRole::Proposer, 5));
    assert!(should_produce_block(SlotRole::Committee, 1));
    assert!(!should_produce_block(SlotRole::Committee, 2));
    assert!(!should_produce_block(SlotRole::NotElected, 1));
}

#[test]
fn epoch_emission_splits_a_tenth_to_treasury() {
    let e = epoch_emission(1_000, 32);
    assert_eq!(e.epoch_reward, 32_000);
    assert_eq!(e.treasury_share, 3_200);
    assert_eq!(e.validator_share, 28_800);
    let e = epoch_emission(7, 3);
    assert_eq!((e.epoch_reward, e.treasury_share, e.validator_share), (21, 2, 19));
    // Saturating multiplication, and nothing lost in the split.
    let e = epoch_emission(u64::MAX, 2);
    assert_eq!(e.epoch_reward, u64::MAX);
    assert_eq!(e.treasury_share + e.validator_share, e.epoch_reward);
}

#[test]
fn storage_charged_per_byte_for_writes_only() {
    assert_eq!(storage_cost(true, 120), 120);
    assert_eq!(storage_cost(false, 120), 0);
    assert_eq!(storage_cost(true, 0), 0);
}

#[test]
fn fee_address_is_hex_of_first_16_bytes() {
    let key: Vec<u8> = (0..32u8).collect();
    assert_eq!(fee_address(&key), "000102030405060708090a0b0c0d0e0f");
    assert_eq!(fee_address(&[0xab, 0xcd]), "abcd");
    assert_eq!(fee_address(&[]), "");
}

#[test]
fn heights_and_times() {
    assert_eq!(next_block_height(0), 1);
    assert_eq!(next_block_height(41), 42);
    assert_eq!(initial_lease_paid_through(1_000), 15_400);
    assert_eq!(initial_lease_paid_through(u64::MAX - 5), u64::MAX);
    assert_eq!(timestamp_micros(3), 3_000_000);
    assert_eq!(timestamp_micros(u64::MAX / 2), u64::MAX);
}

#[test]
fn state_root_commits_to_both_roots() {
    let sql = Hash256([1u8; 32]);
    let bal = Hash256([2u8; 32]);
    let mut both = vec![1u8; 32];
    both.extend_from_slice(&[2u8; 32]);
    assert_eq!(combined_state_root(&sql, &bal), sha3_256(&both));
    // Order matters, and a change in either root changes the result.
    assert_ne!(combined_state_root(&bal, &sql), combined_state_root(&sql, &bal));
    assert_ne!(combined_state_root(&sql, &Hash256([3u8; 32])), combined_state_root(&sql, &bal));
}

#[test]
fn received_block_must_extend_our_tip() {
    let tip = Hash256([5u8; 32]);
    let err = check_received_block(3, &tip, 5, &tip).unwrap_err();
    assert_eq!(err, "unexpected height: expected 4, got 5");
    assert_eq!(check_received_block(3, &tip, 4, &Hash256([6u8; 32])).unwrap_err(), "parent hash mismatch");
    check_received_block(3, &tip, 4, &tip).unwrap();
    // The first block after genesis has no parent to check.
    check_received_block(0, &tip, 1, &Hash256([0u8; 32])).unwrap();
}

#[test]
fn epoch_transition_reads_le_u64() {
    assert_eq!(epoch_of_transition(&[7, 0, 0, 0, 0, 0, 0, 0]).unwrap(), 7);
    assert_eq!(epoch_of_transition(&[1, 2, 0, 0, 0, 0, 0, 0, 99, 99]).unwrap(), 0x0201);
    assert_eq!(epoch_of_transition(&[255; 8]).unwrap(), u64::MAX);
    assert_eq!(epoch_of_transition(&42u64.to_le_bytes()).unwrap(), 42);
    assert_eq!(epoch_of_transition(&[1, 2, 3]).unwrap_err(), "epoch transition data too short");
}

#[test]
fn sender_nonces_count_per_sender() {
    let mut n = SenderNonces::new();
    assert_eq!(n.get(b"alice"), 0);
    n.record(b"alice");
    n.record(b"alice");
    n.record(b"bob");
    assert_eq!(n.get(b"alice"), 2);
    assert_eq!(n.get(b"bob"), 1);
    assert_eq!(n.get(b"carol"), 0);
}

#[test]
fn inbound_tick_takes_at_most_its_budget() {
    let mut tick = InboundTick::new(100);
    let mut taken = 0;
    for _ in 0..150 {
        if !tick.may_take() {
            break;
        }
        tick.take(InboundKind::Other, 0, 1000);
        taken += 1;
    }
    assert_eq!(taken, 100);
    assert!(!tick.may_take());
}

#[test]
fn inbound_blocks_dropped_when_queue_full() {
    let mut tick = InboundTick::new(100);
    assert_eq!(tick.take(InboundKind::Block, 999, 1000), InboundRoute::QueueBlock);
    assert_eq!(tick.take(InboundKind::Block, 1000, 1000), InboundRoute::DropBlock);
    assert_eq!(tick.take(InboundKind::Transaction, 1000, 1000), InboundRoute::SubmitTransaction);
    assert_eq!(tick.take(InboundKind::Other, 0, 1000), InboundRoute::LogOnly);
    assert_eq!(tick.processed, 4);
}
