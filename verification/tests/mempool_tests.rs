use seal_node::hash::Hash256;
use seal_node::mempool::{BatchCertificate, Mempool, TransactionBatch, Worker};

#[test]
fn test_worker_batch_creation() {
    let mut worker = Worker::new(0, b"validator1".to_vec());

    for i in 0..10 {
        worker.add_transaction(format!("tx_{}", i).into_bytes());
    }
    assert_eq!(worker.pending_count(), 10);

    let batch = worker.seal_batch().unwrap();
    assert_eq!(batch.transactions.len(), 10);
    assert_eq!(batch.worker_id, 0);
    assert_eq!(batch.author, b"validator1");
    assert_eq!(worker.pending_count(), 0);
}

#[test]
fn test_worker_empty_seal_returns_none() {
    let mut worker = Worker::new(0, b"v".to_vec());
    assert!(worker.seal_batch().is_none());
}

#[test]
fn test_batch_digest_deterministic() {
    let d1 = TransactionBatch::compute_digest(0, b"v", &[b"tx1".to_vec()], &[]);
    let d2 = TransactionBatch::compute_digest(0, b"v", &[b"tx1".to_vec()], &[]);
    assert_eq!(d1, d2);
}

#[test]
fn test_batch_digest_changes_with_content() {
    let d1 = TransactionBatch::compute_digest(0, b"v", &[b"tx1".to_vec()], &[]);
    let d2 = TransactionBatch::compute_digest(0, b"v", &[b"tx2".to_vec()], &[]);
    assert_ne!(d1, d2);
}

#[test]
fn test_mempool_submit_and_seal() {
    let mut pool = Mempool::new(2, b"val1".to_vec(), 2);

    for i in 0..5 {
        pool.submit_transaction(format!("tx_{}", i).into_bytes());
    }
    assert_eq!(pool.total_pending(), 5);

    // Force seal from worker 0
    let batch = pool.force_seal(0);
    assert!(batch.is_some());
}

#[test]
fn test_mempool_certification() {
    let mut pool = Mempool::new(1, b"val1".to_vec(), 2);

    pool.submit_transaction(b"tx1".to_vec());
    let batch = pool.force_seal(0).unwrap();
    let digest = batch.digest;

    // First ack — not enough
    let cert = pool.acknowledge_batch(&digest, b"v1".to_vec());
    assert!(cert.is_none());

    // Second ack — quorum reached
    let cert = pool.acknowledge_batch(&digest, b"v2".to_vec());
    assert!(cert.is_some());
    assert!(cert.unwrap().is_valid(2));
}

#[test]
fn test_mempool_dedup_acks() {
    let mut pool = Mempool::new(1, b"val1".to_vec(), 2);

    pool.submit_transaction(b"tx1".to_vec());
    let batch = pool.force_seal(0).unwrap();
    let digest = batch.digest;

    // Same validator acks twice — should dedup
    pool.acknowledge_batch(&digest, b"v1".to_vec());
    let cert = pool.acknowledge_batch(&digest, b"v1".to_vec());
    assert!(cert.is_none()); // still only 1 unique ack
}

#[test]
fn test_mempool_advance_round() {
    let mut pool = Mempool::new(1, b"val1".to_vec(), 1);

    pool.submit_transaction(b"tx1".to_vec());
    let batch = pool.force_seal(0).unwrap();
    pool.acknowledge_batch(&batch.digest, b"v1".to_vec());

    assert_eq!(pool.current_round(), 0);
    assert_eq!(pool.certified_count(), 1);

    pool.advance_round();
    assert_eq!(pool.current_round(), 1);
}

#[test]
fn test_certificate_validity() {
    let cert = BatchCertificate {
        batch_digest: Hash256([0u8; 32]),
        author: b"v1".to_vec(),
        acknowledgements: vec![b"a".to_vec(), b"b".to_vec(), b"c".to_vec()],
        round: 0,
    };
    assert!(cert.is_valid(3));
    assert!(cert.is_valid(2));
    assert!(!cert.is_valid(4));
}

#[test]
fn test_multiple_workers() {
    let mut pool = Mempool::new(4, b"val1".to_vec(), 1);

    // Submit 40 transactions (10 per worker via round-robin)
    for i in 0..40 {
        pool.submit_transaction(format!("tx_{}", i).into_bytes());
    }

    // Seal all batches
    let batches = pool.seal_batches();
    assert!(!batches.is_empty());

    // Each batch should have transactions
    for batch in &batches {
        assert!(!batch.transactions.is_empty());
    }
}

#[test]
fn batch_digest_covers_worker_author_and_parents() {
    let base = TransactionBatch::compute_digest(0, b"v", &[b"tx1".to_vec()], &[]);
    assert_ne!(base, TransactionBatch::compute_digest(1, b"v", &[b"tx1".to_vec()], &[]));
    assert_ne!(base, TransactionBatch::compute_digest(0, b"w", &[b"tx1".to_vec()], &[]));
    assert_ne!(base, TransactionBatch::compute_digest(0, b"v", &[b"tx1".to_vec()], &[Hash256([7u8; 32])]));
    // Length framing separates ["ab"] from ["a", "b"].
    assert_ne!(
        TransactionBatch::compute_digest(0, b"v", &[b"ab".to_vec()], &[]),
        TransactionBatch::compute_digest(0, b"v", &[b"a".to_vec(), b"b".to_vec()], &[])
    );
}

#[test]
fn worker_seals_at_most_a_full_batch() {
    let mut worker = Worker::new(3, b"v".to_vec());
    for i in 0..150 {
        worker.add_transaction(format!("tx_{}", i).into_bytes());
    }
    assert!(worker.should_seal_batch());
    let batch = worker.seal_batch_at(42).unwrap();
    assert_eq!(batch.transactions.len(), 100);
    assert_eq!(batch.transactions[0], b"tx_0".to_vec());
    assert_eq!(batch.timestamp, 42);
    assert_eq!(batch.worker_id, 3);
    assert_eq!(worker.pending_count(), 50);
    assert!(!worker.should_seal_batch());
}

#[test]
fn sealed_batch_carries_and_consumes_parents() {
    let mut worker = Worker::new(0, b"v".to_vec());
    let parent = Hash256([9u8; 32]);
    worker.set_parents(vec![parent]);
    worker.add_transaction(b"a".to_vec());
    let b1 = worker.seal_batch_at(1).unwrap();
    assert_eq!(b1.parents, vec![parent]);
    assert_eq!(b1.digest, TransactionBatch::compute_digest(0, b"v", &[b"a".to_vec()], &[parent]));
    worker.add_transaction(b"b".to_vec());
    let b2 = worker.seal_batch_at(2).unwrap();
    assert!(b2.parents.is_empty());
}

#[test]
fn advance_round_sets_parents_to_certified_digests() {
    let mut pool = Mempool::new(2, b"val".to_vec(), 1);
    pool.submit_transaction(b"tx1".to_vec());
    let batch = pool.force_seal(0).unwrap();
    let cert = pool.acknowledge_batch(&batch.digest, b"v1".to_vec()).unwrap();
    assert_eq!(cert.author, b"val".to_vec());
    assert_eq!(cert.round, 0);
    assert_eq!(pool.certified_digests(), vec![batch.digest]);
    pool.advance_round();
    // The next batch of worker 1 references the certified batch.
    pool.submit_transaction(b"tx2".to_vec());
    pool.submit_transaction(b"tx3".to_vec());
    let next = pool.force_seal(1).unwrap();
    assert_eq!(next.parents, vec![batch.digest]);
}

#[test]
fn unknown_worker_and_unknown_batch() {
    let mut pool = Mempool::new(1, b"val".to_vec(), 1);
    assert!(pool.force_seal(5).is_none());
    assert!(pool.force_seal(0).is_none());
    // A certificate for a batch not known locally has an empty author.
    let cert = pool.acknowledge_batch(&Hash256([1u8; 32]), b"v".to_vec()).unwrap();
    assert!(cert.author.is_empty());
}

#[test]
fn mempool_without_workers_ignores_transactions() {
    let mut pool = Mempool::new(0, b"val".to_vec(), 1);
    pool.submit_transaction(b"tx".to_vec());
    assert_eq!(pool.total_pending(), 0);
    assert!(pool.seal_batches().is_empty());
}
