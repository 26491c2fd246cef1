use seal_node::metrics::{MetricsSnapshot, NodeMetrics};
use std::sync::atomic::Ordering;

#[test]
fn test_metrics_increment() {
    let m = NodeMetrics::new();
    m.increment(&m.blocks_produced);
    m.increment(&m.blocks_produced);
    m.increment(&m.blocks_produced);
    assert_eq!(m.blocks_produced.load(Ordering::Relaxed), 3);
}

#[test]
fn test_metrics_add() {
    let m = NodeMetrics::new();
    m.add(&m.fees_collected, 1000);
    m.add(&m.fees_burned, 500);
    assert_eq!(m.fees_collected.load(Ordering::Relaxed), 1000);
    assert_eq!(m.fees_burned.load(Ordering::Relaxed), 500);
}

#[test]
fn test_metrics_summary() {
    let m = NodeMetrics::new();
    m.increment(&m.blocks_produced);
    m.add(&m.txs_submitted, 10);
    let summary = m.summary();
    assert!(summary.contains("produced=1"));
    assert!(summary.contains("submitted=10"));
}

#[test]
fn metrics_summary_exact_text() {
    let s = MetricsSnapshot {
        blocks_produced: 1,
        blocks_received: 2,
        blocks_verified: 3,
        blocks_rejected: 4,
        txs_submitted: 5,
        txs_accepted: 6,
        txs_rejected: 7,
        sql_queries: 8,
        sql_writes: 9,
        peers_connected: 10,
        fees_collected: 11,
        fees_burned: 12,
    };
    assert_eq!(
        s.render(),
        "Blocks: produced=1, received=2, verified=3, rejected=4\n\
         Txs: submitted=5, accepted=6, rejected=7\n\
         SQL: queries=8, writes=9\n\
         Network: peers=10\n\
         Fees: collected=11, burned=12"
    );
}

#[test]
fn metrics_snapshot_reads_counters() {
    let m = NodeMetrics::default();
    m.add(&m.sql_writes, u64::MAX);
    m.increment(&m.sql_writes);
    m.add(&m.peers_connected, 4);
    let s = m.snapshot();
    assert_eq!(s.sql_writes, 0); // wraps
    assert_eq!(s.peers_connected, 4);
    assert_eq!(s.blocks_produced, 0);
}
