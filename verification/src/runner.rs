//! Decisions of the consensus runner around block production: whether a
//! slot produces a block, the emission of an epoch, storage charges, the
//! addresses fees are charged to, and the per-tick intake of messages
//! from peers.

use vstd::prelude::*;
use crate::fees::sat_sub_spec;
use crate::governance::{sat_mul, sat_mul_spec};
use crate::hash::{bytes_eq, copy_bytes, hash256_eq, hex_encode, hex_of, sha3_256, sha3_256_spec, Hash256};
use crate::text::{dec, push_dec, string_of};

verus! {

/// Available ZK prover backends.
#[derive(Clone, Copy, Debug, PartialEq, Eq, Structural)]
pub enum ProverBackend {
    /// RISC Zero STARK (default).
    RiscZero,
    /// SP1 (Succinct).
    Sp1,
}

/// What the VRF election made of this validator for a slot.
#[derive(Clone, Copy, Debug, PartialEq, Eq, Structural)]
pub enum SlotRole {
    Proposer,
    Committee,
    NotElected,
}

/// Whether a slot produces a block: always for the proposer; for a
/// committee member only when it is the only active validator.
pub fn should_produce_block(role: SlotRole, active_validators: usize) -> (r: bool)
    ensures
        r == (role == SlotRole::Proposer || (role == SlotRole::Committee && active_validators == 1)),
{
    match role {
        SlotRole::Proposer => true,
        SlotRole::Committee => active_validators == 1,
        SlotRole::NotElected => false,
    }
}

/// The emission minted at an epoch boundary.
#[derive(Clone, Copy, Debug, PartialEq, Eq, Structural)]
pub struct EpochEmission {
    /// Block reward times the slots of the epoch, saturating.
    pub epoch_reward: u64,
    /// 10% of the epoch reward, rounded down.
    pub treasury_share: u64,
    /// The rest of the epoch reward.
    pub validator_share: u64,
}

/// Splits an epoch's emission: the block reward for every slot of the
/// epoch, a tenth (rounded down) to the treasury and the rest to the
/// validators.
pub fn epoch_emission(reward_per_block: u64, slots_per_epoch: u64) -> (e: EpochEmission)
    ensures
        e.epoch_reward == sat_mul_spec(reward_per_block, slots_per_epoch),
        e.treasury_share == e.epoch_reward / 10,
        e.validator_share == sat_sub_spec(e.epoch_reward, e.treasury_share),
{
    let epoch_reward = sat_mul(reward_per_block, slots_per_epoch);
    let treasury_share = epoch_reward / 10;
    let validator_share = epoch_reward.saturating_sub(treasury_share);
    EpochEmission { epoch_reward, treasury_share, validator_share }
}

/// The emission is split without loss.
pub proof fn lemma_emission_conserved(reward_per_block: u64, slots_per_epoch: u64)
    ensures
        ({
            let epoch_reward = sat_mul_spec(reward_per_block, slots_per_epoch);
            let treasury = (epoch_reward / 10) as u64;
            sat_sub_spec(epoch_reward, treasury) + treasury == epoch_reward
        }),
{
}

/// Storage charge of a transaction: one unit per payload byte for the
/// transactions that write storage (SQL execution, app creation, schema
/// change), none for the others.
pub fn storage_cost(writes_storage: bool, payload_len: usize) -> (c: u64)
    ensures
        c == if writes_storage { payload_len as u64 } else { 0 },
{
    if writes_storage { sat_mul(payload_len as u64, 1) } else { 0 }
}

/// The address a fee is charged to: the hex of the first 16 bytes of the
/// sender's key (all of it when shorter).
pub fn fee_address(sender: &[u8]) -> (s: String)
    ensures
        s@ == hex_of(sender@.take(if sender@.len() < 16 { sender@.len() as int } else { 16 })),
{
    let n: usize = if sender.len() < 16 { sender.len() } else { 16 };
    let mut prefix: Vec<u8> = Vec::new();
    let mut i: usize = 0;
    while i < n
        invariant
            n <= sender@.len(),
            i <= n,
            prefix@ == sender@.take(i as int),
        decreases n - i,
    {
        prefix.push(sender[i]);
        assert(sender@.take(i + 1) =~= sender@.take(i as int).push(sender@[i as int]));
        i = i + 1;
    }
    hex_encode(prefix.as_slice())
}

/// Height of the block under construction: one above the chain's length.
pub fn next_block_height(chain_len: usize) -> (h: u64)
    requires
        chain_len < u64::MAX,
    ensures
        h == chain_len + 1,
{
    chain_len as u64 + 1
}

/// Initial lease of a new table: paid for four hours past the block
/// timestamp (seconds), saturating.
pub fn initial_lease_paid_through(block_timestamp: u64) -> (t: u64)
    ensures
        t == if block_timestamp + 14400 > u64::MAX { u64::MAX } else { (block_timestamp + 14400) as u64 },
{
    block_timestamp.saturating_add(4 * 3600)
}

/// A block timestamp (seconds) in microseconds, saturating.
pub fn timestamp_micros(block_timestamp: u64) -> (t: u64)
    ensures
        t == sat_mul_spec(block_timestamp, 1_000_000),
{
    sat_mul(block_timestamp, 1_000_000)
}

/// The state root a block commits to: the SHA3-256 digest of the SQL
/// root followed by the balance-ledger root, so validators that disagree
/// on either disagree on the block.
pub fn combined_state_root(sql_root: &Hash256, balance_root: &Hash256) -> (r: Hash256)
    ensures
        r.0@ == sha3_256_spec(sql_root.0@ + balance_root.0@),
{
    let mut combine: Vec<u8> = Vec::new();
    let mut i: usize = 0;
    while i < 32
        invariant
            i <= 32,
            combine@ == sql_root.0@.take(i as int),
        decreases 32 - i,
    {
        combine.push(sql_root.0[i]);
        assert(sql_root.0@.take(i + 1) =~= sql_root.0@.take(i as int).push(sql_root.0@[i as int]));
        i = i + 1;
    }
    assert(sql_root.0@.take(32) =~= sql_root.0@);
    let mut j: usize = 0;
    while j < 32
        invariant
            j <= 32,
            combine@ == sql_root.0@ + balance_root.0@.take(j as int),
        decreases 32 - j,
    {
        combine.push(balance_root.0[j]);
        assert(balance_root.0@.take(j + 1) =~= balance_root.0@.take(j as int).push(balance_root.0@[j as int]));
        j = j + 1;
    }
    assert(balance_root.0@.take(32) =~= balance_root.0@);
    sha3_256(combine.as_slice())
}

pub open spec fn msg_unexpected_height(expected: nat, got: u64) -> Seq<char> {
    "unexpected height: expected "@ + dec(expected) + ", got "@ + dec(got as nat)
}

/// The first checks on a block received from a peer: it must be the one
/// after our tip, and, once the chain has left genesis, name our tip (of
/// digest `tip_hash`) as its parent.
pub fn check_received_block(our_height: u64, tip_hash: &Hash256, block_height: u64, parent_hash: &Hash256) -> (r:
    Result<(), String>)
    requires
        our_height < u64::MAX,
    ensures
        block_height != our_height + 1 ==> (r matches Err(e) && e@ == msg_unexpected_height(
            (our_height + 1) as nat,
            block_height,
        )),
        block_height == our_height + 1 && our_height > 0 && parent_hash.0@ != tip_hash.0@ ==> (r matches Err(e)
            && e@ == "parent hash mismatch"@),
        r is Ok <==> block_height == our_height + 1 && (our_height == 0 || parent_hash.0@ == tip_hash.0@),
{
    let expected = our_height + 1;
    if block_height != expected {
        let mut e = string_of("unexpected height: expected ");
        push_dec(&mut e, expected);
        e.append(", got ");
        push_dec(&mut e, block_height);
        return Err(e);
    }
    if our_height > 0 && !hash256_eq(parent_hash, tip_hash) {
        return Err(string_of("parent hash mismatch"));
    }
    Ok(())
}

/// The little-endian value of the first eight bytes of `b`.
pub open spec fn le_u64(b: Seq<u8>) -> int {
    b[0] + 256 * b[1] + 65536 * b[2] + 16777216 * b[3] + 4294967296 * b[4] + 1099511627776 * b[5]
        + 281474976710656 * b[6] + 72057594037927936 * b[7]
}

/// The epoch an epoch-transition message announces: its first eight
/// bytes, little-endian.
pub fn epoch_of_transition(data: &[u8]) -> (r: Result<u64, String>)
    ensures
        data@.len() < 8 ==> (r matches Err(e) && e@ == "epoch transition data too short"@),
        data@.len() >= 8 ==> (r matches Ok(n) && n == le_u64(data@)),
{
    if data.len() < 8 {
        return Err(string_of("epoch transition data too short"));
    }
    let v: u64 = data[0] as u64 + data[1] as u64 * 256 + data[2] as u64 * 65536 + data[3] as u64 * 16777216
        + data[4] as u64 * 4294967296 + data[5] as u64 * 1099511627776 + data[6] as u64 * 281474976710656
        + data[7] as u64 * 72057594037927936;
    Ok(v)
}

/// The count of transactions accepted from a sender (0 for one never
/// seen), over `(sender key, count)` entries.
pub open spec fn nonce_of(entries: Seq<(Seq<u8>, u64)>, sender: Seq<u8>) -> u64 {
    if exists|k: int| 0 <= k < entries.len() && (#[trigger] entries[k]).0 == sender {
        entries[choose|k: int| 0 <= k < entries.len() && (#[trigger] entries[k]).0 == sender].1
    } else {
        0
    }
}

/// Each sender has at most one entry.
pub open spec fn senders_unique(entries: Seq<(Seq<u8>, u64)>) -> bool {
    forall|i: int, j: int| 0 <= i < j < entries.len() ==> (#[trigger] entries[i]).0 != (#[trigger] entries[j]).0
}

/// How many transactions each sender has had accepted: a count that
/// every accepted transaction bumps, so the same transaction is never
/// counted under an old value again.
pub struct SenderNonces {
    entries: Vec<(Vec<u8>, u64)>,
}

impl View for SenderNonces {
    type V = Seq<(Seq<u8>, u64)>;

    closed spec fn view(&self) -> Seq<(Seq<u8>, u64)> {
        self.entries@.map_values(|e: (Vec<u8>, u64)| (e.0@, e.1))
    }
}

impl SenderNonces {
    /// No sender seen.
    pub fn new() -> (n: Self)
        ensures
            n@.len() == 0,
            senders_unique(n@),
    {
        let n = SenderNonces { entries: Vec::new() };
        assert(n@ =~= Seq::<(Seq<u8>, u64)>::empty());
        n
    }

    fn find(&self, sender: &[u8]) -> (r: Option<usize>)
        requires
            senders_unique(self@),
        ensures
            match r {
                Some(k) => k < self@.len() && self@[k as int].0 == sender@,
                None => forall|j: int| 0 <= j < self@.len() ==> (#[trigger] self@[j]).0 != sender@,
            },
    {
        let mut i: usize = 0;
        while i < self.entries.len()
            invariant
                i <= self@.len(),
                self@.len() == self.entries@.len(),
                forall|j: int| 0 <= j < i ==> (#[trigger] self@[j]).0 != sender@,
            decreases self@.len() - i,
        {
            assert(self@[i as int].0 == self.entries@[i as int].0@);
            if bytes_eq(self.entries[i].0.as_slice(), sender) {
                return Some(i);
            }
            i = i + 1;
        }
        None
    }

    /// The count for `sender`.
    pub fn get(&self, sender: &[u8]) -> (r: u64)
        requires
            senders_unique(self@),
        ensures
            r == nonce_of(self@, sender@),
    {
        match self.find(sender) {
            Some(k) => {
                proof {
                    let e = self@;
                    let c = choose|c: int| 0 <= c < e.len() && (#[trigger] e[c]).0 == sender@;
                    if c != k {
                        if c < k {
                            assert(e[c].0 != e[k as int].0);
                        } else {
                            assert(e[k as int].0 != e[c].0);
                        }
                    }
                }
                self.entries[k].1
            },
            None => 0,
        }
    }

    /// Counts one more accepted transaction from `sender`.
    pub fn record(&mut self, sender: &[u8])
        requires
            senders_unique(old(self)@),
            nonce_of(old(self)@, sender@) < u64::MAX,
        ensures
            senders_unique(final(self)@),
            nonce_of(final(self)@, sender@) == nonce_of(old(self)@, sender@) + 1,
            forall|other: Seq<u8>| other != sender@ ==> nonce_of(final(self)@, other) == nonce_of(old(self)@, other),
    {
        let ghost e0 = self@;
        let current = self.get(sender);
        match self.find(sender) {
            Some(k) => {
                let key = copy_bytes(sender);
                self.entries.set(k, (key, current + 1));
                proof {
                    let e1 = self@;
                    assert(e1 =~= e0.update(k as int, (sender@, (current + 1) as u64)));
                    assert forall|i: int, j: int| 0 <= i < j < e1.len() implies (#[trigger] e1[i]).0 != (
                    #[trigger] e1[j]).0 by {
                        assert(e0[i].0 != e0[j].0);
                    }
                    lemma_nonce_of_unique(e1, k as int);
                    assert forall|other: Seq<u8>| other != sender@ implies nonce_of(e1, other) == nonce_of(e0, other) by {
                        lemma_nonce_of_same(e0, e1, other);
                    }
                }
            },
            None => {
                self.entries.push((copy_bytes(sender), 1));
                proof {
                    let e1 = self@;
                    assert(e1 =~= e0.push((sender@, 1u64)));
                    assert forall|i: int, j: int| 0 <= i < j < e1.len() implies (#[trigger] e1[i]).0 != (
                    #[trigger] e1[j]).0 by {
                        if j < e0.len() {
                            assert(e0[i].0 != e0[j].0);
                        } else {
                            assert(e1[i] == e0[i]);
                        }
                    }
                    lemma_nonce_of_unique(e1, e0.len() as int);
                    assert forall|other: Seq<u8>| other != sender@ implies nonce_of(e1, other) == nonce_of(e0, other) by {
                        lemma_nonce_of_same(e0, e1, other);
                    }
                }
            },
        }
    }
}

proof fn lemma_nonce_of_unique(e: Seq<(Seq<u8>, u64)>, k: int)
    requires
        senders_unique(e),
        0 <= k < e.len(),
    ensures
        nonce_of(e, e[k].0) == e[k].1,
{
    let c = choose|c: int| 0 <= c < e.len() && (#[trigger] e[c]).0 == e[k].0;
    if c != k {
        if c < k {
            assert(e[c].0 != e[k].0);
        } else {
            assert(e[k].0 != e[c].0);
        }
    }
}

proof fn lemma_nonce_of_same(e0: Seq<(Seq<u8>, u64)>, e1: Seq<(Seq<u8>, u64)>, other: Seq<u8>)
    requires
        senders_unique(e0),
        senders_unique(e1),
        e0.len() <= e1.len(),
        forall|j: int| 0 <= j < e1.len() && (#[trigger] e1[j]).0 == other ==> j < e0.len() && e1[j] == e0[j],
        forall|j: int| 0 <= j < e0.len() && (#[trigger] e0[j]).0 == other ==> e1[j] == e0[j],
    ensures
        nonce_of(e1, other) == nonce_of(e0, other),
{
    if exists|k: int| 0 <= k < e1.len() && (#[trigger] e1[k]).0 == other {
        let k = choose|k: int| 0 <= k < e1.len() && (#[trigger] e1[k]).0 == other;
        assert(e0[k].0 == other);
        lemma_nonce_of_unique(e1, k);
        lemma_nonce_of_unique(e0, k);
    } else if exists|k: int| 0 <= k < e0.len() && (#[trigger] e0[k]).0 == other {
        let k = choose|k: int| 0 <= k < e0.len() && (#[trigger] e0[k]).0 == other;
        assert(e1[k].0 == other);
    }
}

/// A message from the peer-to-peer layer, by what the node does with it.
#[derive(Clone, Copy, Debug, PartialEq, Eq, Structural)]
pub enum InboundKind {
    /// A block announced by a peer.
    Block,
    /// A transaction relayed by a peer.
    Transaction,
    /// Committee traffic and peer events, which are only logged.
    Other,
}

/// What to do with one inbound message.
#[derive(Clone, Copy, Debug, PartialEq, Eq, Structural)]
pub enum InboundRoute {
    /// Decode the block and append it to the queue of received blocks.
    QueueBlock,
    /// The queue of received blocks is full: drop the block.
    DropBlock,
    /// Decode the transaction and hand it to the runner.
    SubmitTransaction,
    /// Log the message and move on.
    LogOnly,
}

/// The route of a message when `queued_blocks` blocks wait and the queue
/// holds at most `max_queued_blocks`.
pub open spec fn inbound_route(kind: InboundKind, queued_blocks: usize, max_queued_blocks: usize) -> InboundRoute {
    match kind {
        InboundKind::Block => if queued_blocks >= max_queued_blocks {
            InboundRoute::DropBlock
        } else {
            InboundRoute::QueueBlock
        },
        InboundKind::Transaction => InboundRoute::SubmitTransaction,
        InboundKind::Other => InboundRoute::LogOnly,
    }
}

/// The intake of network messages during one tick: at most
/// `max_per_tick` messages are taken, the rest wait for the next tick.
pub struct InboundTick {
    pub processed: usize,
    pub max_per_tick: usize,
}

impl InboundTick {
    /// A tick that has taken nothing yet.
    pub fn new(max_per_tick: usize) -> (t: Self)
        ensures
            t.processed == 0,
            t.max_per_tick == max_per_tick,
    {
        InboundTick { processed: 0, max_per_tick }
    }

    /// Whether another message may be taken this tick.
    pub fn may_take(&self) -> (r: bool)
        ensures
            r == (self.processed < self.max_per_tick),
    {
        self.processed < self.max_per_tick
    }

    /// Takes one message: counts it against the tick's budget and says
    /// what to do with it. A block is dropped when the queue of received
    /// blocks is already full (back-pressure).
    pub fn take(&mut self, kind: InboundKind, queued_blocks: usize, max_queued_blocks: usize) -> (r: InboundRoute)
        requires
            old(self).processed < old(self).max_per_tick,
        ensures
            final(self).processed == old(self).processed + 1,
            final(self).max_per_tick == old(self).max_per_tick,
            final(self).processed <= final(self).max_per_tick,
            r == inbound_route(kind, queued_blocks, max_queued_blocks),
    {
        self.processed = self.processed + 1;
        match kind {
            InboundKind::Block => if queued_blocks >= max_queued_blocks {
                InboundRoute::DropBlock
            } else {
                InboundRoute::QueueBlock
            },
            InboundKind::Transaction => InboundRoute::SubmitTransaction,
            InboundKind::Other => InboundRoute::LogOnly,
        }
    }
}

} // verus!
