//! Node metrics counters for monitoring.
//!
//! The counters are atomics shared between tasks; a summary renders
//! one reading of all of them.

use vstd::prelude::*;
use std::sync::atomic::{AtomicU64, Ordering};
use crate::text::{dec, push_dec, string_of};

verus! {

/// One reading of all counters.
#[derive(Clone, Copy, Debug, PartialEq, Eq, Structural)]
pub struct MetricsSnapshot {
    pub blocks_produced: u64,
    pub blocks_received: u64,
    pub blocks_verified: u64,
    pub blocks_rejected: u64,
    pub txs_submitted: u64,
    pub txs_accepted: u64,
    pub txs_rejected: u64,
    pub sql_queries: u64,
    pub sql_writes: u64,
    pub peers_connected: u64,
    pub fees_collected: u64,
    pub fees_burned: u64,
}

/// The text of a summary: five lines, one per area.
pub open spec fn summary_text(s: MetricsSnapshot) -> Seq<char> {
    "Blocks: produced="@ + dec(s.blocks_produced as nat) + ", received="@ + dec(s.blocks_received as nat)
        + ", verified="@ + dec(s.blocks_verified as nat) + ", rejected="@ + dec(s.blocks_rejected as nat)
        + "\nTxs: submitted="@ + dec(s.txs_submitted as nat) + ", accepted="@ + dec(s.txs_accepted as nat)
        + ", rejected="@ + dec(s.txs_rejected as nat) + "\nSQL: queries="@ + dec(s.sql_queries as nat)
        + ", writes="@ + dec(s.sql_writes as nat) + "\nNetwork: peers="@ + dec(s.peers_connected as nat)
        + "\nFees: collected="@ + dec(s.fees_collected as nat) + ", burned="@ + dec(s.fees_burned as nat)
}

impl MetricsSnapshot {
    /// Renders the summary of this reading.
    pub fn render(&self) -> (r: String)
        ensures
            r@ == summary_text(*self),
    {
        let mut out = string_of("Blocks: produced=");
        push_dec(&mut out, self.blocks_produced);
        out.append(", received=");
        push_dec(&mut out, self.blocks_received);
        out.append(", verified=");
        push_dec(&mut out, self.blocks_verified);
        out.append(", rejected=");
        push_dec(&mut out, self.blocks_rejected);
        out.append("\nTxs: submitted=");
        push_dec(&mut out, self.txs_submitted);
        out.append(", accepted=");
        push_dec(&mut out, self.txs_accepted);
        out.append(", rejected=");
        push_dec(&mut out, self.txs_rejected);
        out.append("\nSQL: queries=");
        push_dec(&mut out, self.sql_queries);
        out.append(", writes=");
        push_dec(&mut out, self.sql_writes);
        out.append("\nNetwork: peers=");
        push_dec(&mut out, self.peers_connected);
        out.append("\nFees: collected=");
        push_dec(&mut out, self.fees_collected);
        out.append(", burned=");
        push_dec(&mut out, self.fees_burned);
        out
    }
}

/// Node-level metrics counters.
pub struct NodeMetrics {
    pub blocks_produced: AtomicU64,
    pub blocks_received: AtomicU64,
    pub blocks_verified: AtomicU64,
    pub blocks_rejected: AtomicU64,
    pub txs_submitted: AtomicU64,
    pub txs_accepted: AtomicU64,
    pub txs_rejected: AtomicU64,
    pub sql_queries: AtomicU64,
    pub sql_writes: AtomicU64,
    pub peers_connected: AtomicU64,
    pub fees_collected: AtomicU64,
    pub fees_burned: AtomicU64,
}

impl NodeMetrics {
    /// All counters at zero.
    pub fn new() -> (m: Self) {
        NodeMetrics {
            blocks_produced: AtomicU64::new(0),
            blocks_received: AtomicU64::new(0),
            blocks_verified: AtomicU64::new(0),
            blocks_rejected: AtomicU64::new(0),
            txs_submitted: AtomicU64::new(0),
            txs_accepted: AtomicU64::new(0),
            txs_rejected: AtomicU64::new(0),
            sql_queries: AtomicU64::new(0),
            sql_writes: AtomicU64::new(0),
            peers_connected: AtomicU64::new(0),
            fees_collected: AtomicU64::new(0),
            fees_burned: AtomicU64::new(0),
        }
    }

    /// Adds one to a counter (wrapping, relaxed ordering).
    pub fn increment(&self, counter: &AtomicU64) {
        counter.fetch_add(1, Ordering::Relaxed);
    }

    /// Adds `value` to a counter (wrapping, relaxed ordering).
    pub fn add(&self, counter: &AtomicU64, value: u64) {
        counter.fetch_add(value, Ordering::Relaxed);
    }

    /// Reads every counter once (relaxed ordering). Other tasks may update
    /// the counters at any time, so nothing is promised of the values.
    pub fn snapshot(&self) -> (s: MetricsSnapshot) {
        MetricsSnapshot {
            blocks_produced: self.blocks_produced.load(Ordering::Relaxed),
            blocks_received: self.blocks_received.load(Ordering::Relaxed),
            blocks_verified: self.blocks_verified.load(Ordering::Relaxed),
            blocks_rejected: self.blocks_rejected.load(Ordering::Relaxed),
            txs_submitted: self.txs_submitted.load(Ordering::Relaxed),
            txs_accepted: self.txs_accepted.load(Ordering::Relaxed),
            txs_rejected: self.txs_rejected.load(Ordering::Relaxed),
            sql_queries: self.sql_queries.load(Ordering::Relaxed),
            sql_writes: self.sql_writes.load(Ordering::Relaxed),
            peers_connected: self.peers_connected.load(Ordering::Relaxed),
            fees_collected: self.fees_collected.load(Ordering::Relaxed),
            fees_burned: self.fees_burned.load(Ordering::Relaxed),
        }
    }

    /// Summary of all counters: the rendering of one reading of them.
    pub fn summary(&self) -> (r: String)
        ensures
            exists|s: MetricsSnapshot| r@ == summary_text(s),
    {
        let s = self.snapshot();
        s.render()
    }
}

impl Default for NodeMetrics {
    fn default() -> (m: Self) {
        Self::new()
    }
}

} // verus!
