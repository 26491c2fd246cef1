//! Committee messages and the fork choice rule.
//!
//! Committee members sign block hashes; an aggregator combines the
//! partial signatures into a threshold signature. Among competing blocks
//! at one height, the block with the most committee attestations wins,
//! ties broken by the larger block hash.

use vstd::prelude::*;
use crate::governance::{sat_mul, sat_mul_spec};
use crate::hash::copy_bytes;

verus! {

/// A committee vote: a partial threshold signature on a block hash.
#[derive(Clone, Debug)]
pub struct CommitteeVote {
    /// Block height this vote is for.
    pub height: u64,
    /// Block hash (SHA3-256 of the serialized block header).
    pub block_hash: [u8; 32],
    /// Signer index within the committee.
    pub signer_index: usize,
    /// The partial signature.
    pub partial_signature: Vec<u8>,
    /// The signer's public key (for identification).
    pub signer_pubkey: Vec<u8>,
}

/// A finalization message: the aggregated threshold signature for a block.
#[derive(Clone, Debug)]
pub struct CommitteeAttestation {
    /// Block height.
    pub height: u64,
    /// Block hash.
    pub block_hash: [u8; 32],
    /// The aggregated threshold signature.
    pub threshold_signature: Vec<u8>,
    /// Bitfield of participating signers.
    pub participants: Vec<u8>,
    /// Number of signers.
    pub signer_count: usize,
}

/// Epoch transition announcement broadcast at epoch boundaries.
#[derive(Clone, Debug)]
pub struct EpochAnnouncement {
    /// New epoch number.
    pub epoch: u64,
    /// The validator's new VRF public key for this epoch.
    pub vrf_public_key: Vec<u8>,
    /// The validator's signing public key (for identification).
    pub validator_pubkey: Vec<u8>,
}

/// A two-round committee vote: the round-1 commitment with its MAC and
/// the round-2 response.
#[derive(Clone, Debug)]
pub struct CommitteeVoteFull {
    pub height: u64,
    pub block_hash: [u8; 32],
    pub signer_index: usize,
    /// Round-1 commitment.
    pub commitment: Vec<u8>,
    /// MAC binding `commitment` to `signer_index` under the per-slot key.
    pub mac: Vec<u8>,
    /// Round-2 response.
    pub response: Vec<u8>,
}

// ---------------------------------------------------------------------------
// Byte order
// ---------------------------------------------------------------------------

/// Lexicographic order on byte sequences (a proper prefix comes first).
pub open spec fn bytes_lt(a: Seq<u8>, b: Seq<u8>) -> bool
    decreases a.len(),
{
    if a.len() == 0 {
        b.len() > 0
    } else if b.len() == 0 {
        false
    } else if a[0] != b[0] {
        a[0] < b[0]
    } else {
        bytes_lt(a.drop_first(), b.drop_first())
    }
}

/// `bytes_lt` is a strict total order.
pub proof fn lemma_bytes_lt_order(a: Seq<u8>, b: Seq<u8>, c: Seq<u8>)
    ensures
        !bytes_lt(a, a),
        bytes_lt(a, b) ==> !bytes_lt(b, a),
        a != b ==> bytes_lt(a, b) || bytes_lt(b, a),
        bytes_lt(a, b) && bytes_lt(b, c) ==> bytes_lt(a, c),
    decreases a.len(),
{
    if a.len() > 0 && b.len() > 0 && c.len() > 0 {
        lemma_bytes_lt_order(a.drop_first(), b.drop_first(), c.drop_first());
        if a != b && a[0] == b[0] {
            assert(a =~= seq![a[0]] + a.drop_first());
            assert(b =~= seq![b[0]] + b.drop_first());
        }
    } else if a.len() > 0 && b.len() > 0 {
        lemma_bytes_lt_order(a.drop_first(), b.drop_first(), a.drop_first());
        if a != b && a[0] == b[0] {
            assert(a =~= seq![a[0]] + a.drop_first());
            assert(b =~= seq![b[0]] + b.drop_first());
        }
    } else if a.len() > 0 {
        lemma_bytes_lt_order(a.drop_first(), a.drop_first(), a.drop_first());
    }
    if a.len() == 0 && b.len() == 0 {
        assert(a =~= b);
    }
}

proof fn lemma_bytes_lt_step(a: Seq<u8>, b: Seq<u8>, i: int)
    requires
        0 <= i < a.len(),
        i < b.len(),
        a[i] == b[i],
    ensures
        bytes_lt(a.skip(i), b.skip(i)) == bytes_lt(a.skip(i + 1), b.skip(i + 1)),
{
    assert(a.skip(i).drop_first() =~= a.skip(i + 1));
    assert(b.skip(i).drop_first() =~= b.skip(i + 1));
}

/// Whether hash `a` comes strictly before hash `b`.
pub fn hash_lt(a: &[u8; 32], b: &[u8; 32]) -> (r: bool)
    ensures
        r == bytes_lt(a@, b@),
{
    let mut i: usize = 0;
    assert(a@.skip(0) =~= a@);
    assert(b@.skip(0) =~= b@);
    while i < 32
        invariant
            a@.len() == 32,
            b@.len() == 32,
            i <= 32,
            bytes_lt(a@, b@) == bytes_lt(a@.skip(i as int), b@.skip(i as int)),
        decreases 32 - i,
    {
        if a[i] != b[i] {
            assert(a@.skip(i as int)[0] == a@[i as int]);
            assert(b@.skip(i as int)[0] == b@[i as int]);
            return a[i] < b[i];
        }
        proof { lemma_bytes_lt_step(a@, b@, i as int); }
        i = i + 1;
    }
    false
}

/// Whether two hashes are equal.
pub fn hash_eq(a: &[u8; 32], b: &[u8; 32]) -> (r: bool)
    ensures
        r == (a@ == b@),
{
    let mut i: usize = 0;
    while i < 32
        invariant
            a@.len() == 32,
            b@.len() == 32,
            i <= 32,
            forall|j: int| 0 <= j < i ==> a@[j] == b@[j],
        decreases 32 - i,
    {
        if a[i] != b[i] {
            return false;
        }
        i = i + 1;
    }
    assert(a@ =~= b@);
    true
}

// ---------------------------------------------------------------------------
// Fork choice
// ---------------------------------------------------------------------------

/// A candidate block at a height with its attestation count.
#[derive(Clone, Copy, Debug)]
pub struct Candidate {
    pub height: u64,
    pub block_hash: [u8; 32],
    pub attestations: usize,
}

/// Whether `a` beats `b` in the fork choice: more attestations, or as
/// many and a larger hash.
pub open spec fn outranks(a: Candidate, b: Candidate) -> bool {
    a.attestations > b.attestations || (a.attestations == b.attestations && bytes_lt(
        b.block_hash@,
        a.block_hash@,
    ))
}

/// At most one candidate per `(height, hash)`.
pub open spec fn candidates_unique(c: Seq<Candidate>) -> bool {
    forall|i: int, j: int|
        0 <= i < j < c.len() ==> !((#[trigger] c[i]).height == (#[trigger] c[j]).height && c[i].block_hash@
            == c[j].block_hash@)
}

/// Whether some candidate has key `(height, hash)`.
pub open spec fn has_candidate(c: Seq<Candidate>, height: u64, hash: Seq<u8>) -> bool {
    exists|k: int| 0 <= k < c.len() && (#[trigger] c[k]).height == height && c[k].block_hash@ == hash
}

/// Index of the candidate with key `(height, hash)` (meaningful when
/// `has_candidate`).
pub open spec fn candidate_index(c: Seq<Candidate>, height: u64, hash: Seq<u8>) -> int {
    choose|k: int| 0 <= k < c.len() && (#[trigger] c[k]).height == height && c[k].block_hash@ == hash
}

/// Whether some candidate stands at `height`.
pub open spec fn any_at(c: Seq<Candidate>, height: u64) -> bool {
    exists|k: int| 0 <= k < c.len() && (#[trigger] c[k]).height == height
}

/// Whether `hash` is the winner at `height`: its candidate outranks every
/// other candidate at that height.
pub open spec fn is_winner(c: Seq<Candidate>, height: u64, hash: Seq<u8>) -> bool {
    exists|k: int|
        0 <= k < c.len() && (#[trigger] c[k]).height == height && c[k].block_hash@ == hash && forall|j: int|
            0 <= j < c.len() && (#[trigger] c[j]).height == height && j != k ==> outranks(c[k], c[j])
}

/// Whether a candidate survives pruning below `finalized_height`.
pub open spec fn kept_at_or_above(finalized_height: u64) -> spec_fn(Candidate) -> bool {
    |c: Candidate| c.height >= finalized_height
}

/// There is at most one winner at a height.
pub proof fn lemma_winner_unique(c: Seq<Candidate>, height: u64, x: Seq<u8>, y: Seq<u8>)
    requires
        candidates_unique(c),
        is_winner(c, height, x),
        is_winner(c, height, y),
    ensures
        x == y,
{
    let kx = choose|k: int|
        0 <= k < c.len() && (#[trigger] c[k]).height == height && c[k].block_hash@ == x && forall|j: int|
            0 <= j < c.len() && (#[trigger] c[j]).height == height && j != k ==> outranks(c[k], c[j]);
    let ky = choose|k: int|
        0 <= k < c.len() && (#[trigger] c[k]).height == height && c[k].block_hash@ == y && forall|j: int|
            0 <= j < c.len() && (#[trigger] c[j]).height == height && j != k ==> outranks(c[k], c[j]);
    if kx != ky {
        assert(outranks(c[kx], c[ky]) && outranks(c[ky], c[kx]));
        lemma_bytes_lt_order(c[kx].block_hash@, c[ky].block_hash@, c[kx].block_hash@);
    }
}

/// A candidate alone at its height is the winner there.
pub proof fn lemma_single_candidate_wins(c: Seq<Candidate>, k: int)
    requires
        0 <= k < c.len(),
        forall|j: int| 0 <= j < c.len() && j != k ==> (#[trigger] c[j]).height != c[k].height,
    ensures
        is_winner(c, c[k].height, c[k].block_hash@),
{
}

/// A candidate with strictly more attestations than every other at its
/// height is the winner there, whatever the hashes.
pub proof fn lemma_heavier_wins(c: Seq<Candidate>, k: int)
    requires
        0 <= k < c.len(),
        forall|j: int|
            0 <= j < c.len() && j != k && (#[trigger] c[j]).height == c[k].height ==> c[j].attestations
                < c[k].attestations,
    ensures
        is_winner(c, c[k].height, c[k].block_hash@),
{
}

/// Pruning below a finalized height leaves no candidate under it and
/// keeps the winner of every height at or above it.
pub proof fn lemma_prune_keeps_winners(c: Seq<Candidate>, finalized_height: u64, height: u64, x: Seq<u8>)
    requires
        candidates_unique(c),
        candidates_unique(c.filter(kept_at_or_above(finalized_height))),
    ensures
        height < finalized_height ==> !any_at(c.filter(kept_at_or_above(finalized_height)), height),
        height >= finalized_height && is_winner(c, height, x) ==> is_winner(
            c.filter(kept_at_or_above(finalized_height)),
            height,
            x,
        ),
{
    broadcast use Seq::lemma_filter_pred, Seq::lemma_filter_contains, Seq::lemma_filter_contains_rev;
    let keep = kept_at_or_above(finalized_height);
    let p = c.filter(keep);
    if height < finalized_height && any_at(p, height) {
        let k = choose|k: int| 0 <= k < p.len() && (#[trigger] p[k]).height == height;
        assert(keep(p[k]));
    }
    if height >= finalized_height && is_winner(c, height, x) {
        let k = choose|k: int|
            0 <= k < c.len() && (#[trigger] c[k]).height == height && c[k].block_hash@ == x && forall|j: int|
                0 <= j < c.len() && (#[trigger] c[j]).height == height && j != k ==> outranks(c[k], c[j]);
        assert(keep(c[k]));
        assert(p.contains(c[k]));
        let k2 = choose|k2: int| 0 <= k2 < p.len() && p[k2] == c[k];
        assert forall|j2: int| 0 <= j2 < p.len() && (#[trigger] p[j2]).height == height && j2 != k2 implies outranks(
            p[k2],
            p[j2],
        ) by {
            assert(p.contains(p[j2]));
            assert(c.contains(p[j2]));
            let j = choose|j: int| 0 <= j < c.len() && c[j] == p[j2];
            if j2 < k2 {
                assert(!(p[j2].height == p[k2].height && p[j2].block_hash@ == p[k2].block_hash@));
            } else {
                assert(!(p[k2].height == p[j2].height && p[k2].block_hash@ == p[j2].block_hash@));
            }
            assert(j != k);
        }
        assert(p[k2].height == height && p[k2].block_hash@ == x);
    }
}

/// Fork choice: the heaviest attested block wins at each height.
pub struct ForkChoice {
    candidates: Vec<Candidate>,
}

impl View for ForkChoice {
    type V = Seq<Candidate>;

    closed spec fn view(&self) -> Seq<Candidate> {
        self.candidates@
    }
}

impl ForkChoice {
    /// An empty fork choice.
    pub fn new() -> (f: Self)
        ensures
            f@.len() == 0,
            candidates_unique(f@),
    {
        ForkChoice { candidates: Vec::new() }
    }

    fn find(&self, height: u64, block_hash: &[u8; 32]) -> (r: Option<usize>)
        requires
            candidates_unique(self@),
        ensures
            match r {
                Some(k) => k < self@.len() && has_candidate(self@, height, block_hash@) && candidate_index(
                    self@,
                    height,
                    block_hash@,
                ) == k,
                None => !has_candidate(self@, height, block_hash@),
            },
    {
        let mut i: usize = 0;
        while i < self.candidates.len()
            invariant
                candidates_unique(self@),
                i <= self@.len(),
                forall|j: int| 0 <= j < i ==> !((#[trigger] self@[j]).height == height && self@[j].block_hash@ == block_hash@),
            decreases self@.len() - i,
        {
            if self.candidates[i].height == height && hash_eq(&self.candidates[i].block_hash, block_hash) {
                proof {
                    let c = self@;
                    assert(c[i as int].height == height && c[i as int].block_hash@ == block_hash@);
                    let k = candidate_index(c, height, block_hash@);
                    if k < i {
                        assert(!(c[k].height == c[i as int].height && c[k].block_hash@ == c[i as int].block_hash@));
                    } else if k > i {
                        assert(!(c[i as int].height == c[k].height && c[i as int].block_hash@ == c[k].block_hash@));
                    }
                }
                return Some(i);
            }
            i = i + 1;
        }
        None
    }

    /// Records a candidate block at a height with its attestation count;
    /// for a block already known, keeps the larger count.
    pub fn add_candidate(&mut self, height: u64, block_hash: [u8; 32], attestation_count: usize)
        requires
            candidates_unique(old(self)@),
        ensures
            candidates_unique(final(self)@),
            has_candidate(old(self)@, height, block_hash@) ==> ({
                let k = candidate_index(old(self)@, height, block_hash@);
                let old_c = old(self)@[k];
                final(self)@ == old(self)@.update(
                    k,
                    Candidate {
                        attestations: if old_c.attestations >= attestation_count {
                            old_c.attestations
                        } else {
                            attestation_count
                        },
                        ..old_c
                    },
                )
            }),
            !has_candidate(old(self)@, height, block_hash@) ==> final(self)@ == old(self)@.push(
                Candidate { height, block_hash, attestations: attestation_count },
            ),
    {
        let ghost old_c = self@;
        match self.find(height, &block_hash) {
            Some(k) => {
                let mut c = self.candidates[k];
                if attestation_count > c.attestations {
                    c.attestations = attestation_count;
                }
                self.candidates.set(k, c);
                proof {
                    let n = self@;
                    assert forall|i: int, j: int| 0 <= i < j < n.len() implies !((#[trigger] n[i]).height == (
                    #[trigger] n[j]).height && n[i].block_hash@ == n[j].block_hash@) by {
                        assert(!(old_c[i].height == old_c[j].height && old_c[i].block_hash@ == old_c[j].block_hash@));
                    }
                }
            },
            None => {
                self.candidates.push(Candidate { height, block_hash, attestations: attestation_count });
                proof {
                    let n = self@;
                    assert forall|i: int, j: int| 0 <= i < j < n.len() implies !((#[trigger] n[i]).height == (
                    #[trigger] n[j]).height && n[i].block_hash@ == n[j].block_hash@) by {
                        if j == old_c.len() {
                            assert(!(old_c[i].height == height && old_c[i].block_hash@ == block_hash@));
                        } else {
                            assert(!(old_c[i].height == old_c[j].height && old_c[i].block_hash@
                                == old_c[j].block_hash@));
                        }
                    }
                }
            },
        }
    }

    /// The winning block hash at a height: the candidate with the most
    /// attestations, ties broken by the larger hash; `None` when no
    /// candidate stands at that height.
    pub fn winner(&self, height: u64) -> (r: Option<[u8; 32]>)
        requires
            candidates_unique(self@),
        ensures
            r is None <==> !any_at(self@, height),
            r matches Some(h) ==> is_winner(self@, height, h@),
    {
        let ghost c = self@;
        let mut best: Option<usize> = None;
        let mut i: usize = 0;
        while i < self.candidates.len()
            invariant
                c == self@,
                candidates_unique(c),
                i <= c.len(),
                match best {
                    None => forall|j: int| 0 <= j < i ==> (#[trigger] c[j]).height != height,
                    Some(b) => b < i && c[b as int].height == height && forall|j: int|
                        0 <= j < i && (#[trigger] c[j]).height == height && j != b ==> outranks(c[b as int], c[j]),
                },
            decreases c.len() - i,
        {
            let cand = self.candidates[i];
            if cand.height == height {
                match best {
                    None => {
                        best = Some(i);
                    },
                    Some(b) => {
                        let cur = self.candidates[b];
                        let better = cand.attestations > cur.attestations || (cand.attestations == cur.attestations
                            && hash_lt(&cur.block_hash, &cand.block_hash));
                        proof {
                            lemma_bytes_lt_order(cur.block_hash@, cand.block_hash@, cand.block_hash@);
                            assert(!(c[b as int].height == c[i as int].height && c[b as int].block_hash@
                                == c[i as int].block_hash@));
                        }
                        if better {
                            proof {
                                assert forall|j: int| 0 <= j < i + 1 && (#[trigger] c[j]).height == height && j
                                    != i implies outranks(c[i as int], c[j]) by {
                                    if j != b {
                                        lemma_bytes_lt_order(
                                            c[j].block_hash@,
                                            cur.block_hash@,
                                            cand.block_hash@,
                                        );
                                    }
                                }
                            }
                            best = Some(i);
                        }
                    },
                }
            }
            i = i + 1;
        }
        match best {
            None => None,
            Some(b) => {
                assert(c[b as int].height == height);
                Some(self.candidates[b].block_hash)
            },
        }
    }

    /// Drops every candidate below `finalized_height`.
    pub fn prune_below(&mut self, finalized_height: u64)
        requires
            candidates_unique(old(self)@),
        ensures
            candidates_unique(final(self)@),
            final(self)@ == old(self)@.filter(kept_at_or_above(finalized_height)),
    {
        let ghost old_c = self@;
        let ghost keep = kept_at_or_above(finalized_height);
        let mut kept: Vec<Candidate> = Vec::new();
        let mut i: usize = 0;
        assert(old_c.take(0) =~= Seq::<Candidate>::empty());
        proof { reveal(Seq::filter); }
        while i < self.candidates.len()
            invariant
                old_c == self@,
                keep == kept_at_or_above(finalized_height),
                i <= old_c.len(),
                kept@ == old_c.take(i as int).filter(keep),
                forall|k: int| 0 <= k < kept@.len() ==> exists|j: int| 0 <= j < i && old_c[j] == #[trigger] kept@[k],
                forall|a: int, b: int| 0 <= a < b < kept@.len() ==> exists|x: int, y: int|
                    0 <= x < y < i && old_c[x] == #[trigger] kept@[a] && old_c[y] == #[trigger] kept@[b],
                candidates_unique(old_c),
            decreases old_c.len() - i,
        {
            proof { reveal(Seq::filter); }
            assert(old_c.take(i + 1).drop_last() =~= old_c.take(i as int));
            let c = self.candidates[i];
            if c.height >= finalized_height {
                kept.push(c);
            }
            i = i + 1;
        }
        assert(old_c.take(old_c.len() as int) =~= old_c);
        self.candidates = kept;
        proof {
            let n = self@;
            assert forall|a: int, b: int| 0 <= a < b < n.len() implies !((#[trigger] n[a]).height == (
            #[trigger] n[b]).height && n[a].block_hash@ == n[b].block_hash@) by {
                let (x, y) = choose|x: int, y: int|
                    0 <= x < y < old_c.len() && old_c[x] == n[a] && old_c[y] == n[b];
                assert(!(old_c[x].height == old_c[y].height && old_c[x].block_hash@ == old_c[y].block_hash@));
            }
        }
    }
}

// ---------------------------------------------------------------------------
// Vote collection
// ---------------------------------------------------------------------------

/// Votes collected for one block height.
pub struct VoteCollector {
    block_hash: [u8; 32],
    /// `(signer_index, partial signature)`, one per signer.
    votes: Vec<(usize, Vec<u8>)>,
    public_keys: Vec<Vec<u8>>,
    threshold: usize,
    committee_size: usize,
}

/// A vote collector as sequences.
pub struct CollectorView {
    pub block_hash: Seq<u8>,
    pub votes: Seq<(usize, Seq<u8>)>,
    pub public_keys: Seq<Seq<u8>>,
    pub threshold: usize,
    pub committee_size: usize,
}

impl View for VoteCollector {
    type V = CollectorView;

    closed spec fn view(&self) -> CollectorView {
        CollectorView {
            block_hash: self.block_hash@,
            votes: self.votes@.map_values(|v: (usize, Vec<u8>)| (v.0, v.1@)),
            public_keys: self.public_keys@.map_values(|k: Vec<u8>| k@),
            threshold: self.threshold,
            committee_size: self.committee_size,
        }
    }
}

/// Whether signer `i` has voted.
pub open spec fn has_voted(votes: Seq<(usize, Seq<u8>)>, i: usize) -> bool {
    exists|k: int| 0 <= k < votes.len() && (#[trigger] votes[k]).0 == i
}

impl VoteCollector {
    /// Hash of the block the votes are for.
    pub fn block_hash(&self) -> (h: [u8; 32])
        ensures
            h@ == self@.block_hash,
    {
        self.block_hash
    }

    /// The collected `(signer_index, partial signature)` pairs.
    pub fn votes(&self) -> (v: &Vec<(usize, Vec<u8>)>)
        ensures
            v@.map_values(|x: (usize, Vec<u8>)| (x.0, x.1@)) == self@.votes,
    {
        &self.votes
    }

    /// Public keys of the committee.
    pub fn public_keys(&self) -> (k: &Vec<Vec<u8>>)
        ensures
            k@.map_values(|x: Vec<u8>| x@) == self@.public_keys,
    {
        &self.public_keys
    }

    /// Number of votes needed for finality.
    pub fn threshold(&self) -> (t: usize)
        ensures
            t == self@.threshold,
    {
        self.threshold
    }

    /// Committee size.
    pub fn committee_size(&self) -> (n: usize)
        ensures
            n == self@.committee_size,
    {
        self.committee_size
    }
}

/// What happened to a vote.
#[derive(Clone, Copy, Debug, PartialEq, Eq, Structural)]
pub enum VoteOutcome {
    /// No collection is open at the vote's height.
    NoCollector,
    /// The vote is for another block, or its signer already voted.
    Ignored,
    /// Recorded; the threshold is not reached.
    Collected,
    /// Recorded; the threshold is reached and the votes can be aggregated.
    ThresholdReached,
}

/// What a committee manager holds.
pub struct CommitteeManagerView {
    /// `(height, collector)`, one per height.
    pub collectors: Seq<(u64, CollectorView)>,
    pub our_signer_index: Option<usize>,
    pub signing_key: Seq<u8>,
    pub finality_threshold_percent: u64,
    pub max_pending_heights: usize,
}

/// Collects committee votes per block height until a threshold of them
/// can be aggregated.
pub struct CommitteeManager {
    collectors: Vec<(u64, VoteCollector)>,
    our_signer_index: Option<usize>,
    our_signing_key: Vec<u8>,
    finality_threshold_percent: u64,
    max_pending_heights: usize,
}

impl View for CommitteeManager {
    type V = CommitteeManagerView;

    closed spec fn view(&self) -> CommitteeManagerView {
        CommitteeManagerView {
            collectors: self.collectors@.map_values(|c: (u64, VoteCollector)| (c.0, c.1@)),
            our_signer_index: self.our_signer_index,
            signing_key: self.our_signing_key@,
            finality_threshold_percent: self.finality_threshold_percent,
            max_pending_heights: self.max_pending_heights,
        }
    }
}

/// Heights appear once; in each collector a signer appears once.
pub open spec fn manager_wf(m: CommitteeManagerView) -> bool {
    &&& forall|i: int, j: int|
        0 <= i < j < m.collectors.len() ==> (#[trigger] m.collectors[i]).0 != (#[trigger] m.collectors[j]).0
    &&& forall|c: int, i: int, j: int|
        0 <= c < m.collectors.len() && 0 <= i < j < m.collectors[c].1.votes.len() ==> (
        #[trigger] m.collectors[c].1.votes[i]).0 != (#[trigger] m.collectors[c].1.votes[j]).0
}

/// Index of the collector for `height` (-1 when absent).
pub open spec fn collector_index(c: Seq<(u64, CollectorView)>, height: u64) -> int {
    if exists|k: int| 0 <= k < c.len() && (#[trigger] c[k]).0 == height {
        choose|k: int| 0 <= k < c.len() && (#[trigger] c[k]).0 == height
    } else {
        -1
    }
}

/// Whether collector `k` has the lowest height.
pub open spec fn is_lowest(c: Seq<(u64, CollectorView)>, k: int) -> bool {
    0 <= k < c.len() && forall|j: int| 0 <= j < c.len() ==> c[k].0 <= (#[trigger] c[j]).0
}

/// Index of the collector with the lowest height.
pub open spec fn lowest_index(c: Seq<(u64, CollectorView)>) -> int {
    choose|k: int| #[trigger] is_lowest(c, k)
}

/// Votes needed for finality in a committee of `size`: `pct` percent of
/// it (rounded down), at least 1.
pub open spec fn finality_threshold(size: usize, pct: u64) -> usize {
    let t = (sat_mul_spec(size as u64, pct) / 100) as usize;
    if t >= 1 { t } else { 1 }
}

/// The collectors after opening one for `height`: when `max` are open,
/// the lowest height is dropped first; a collector already open at
/// `height` is replaced.
pub open spec fn opened(c: Seq<(u64, CollectorView)>, max: usize, height: u64, fresh: CollectorView) -> Seq<
    (u64, CollectorView),
> {
    let c1 = if c.len() >= max && c.len() > 0 { c.remove(lowest_index(c)) } else { c };
    let k = collector_index(c1, height);
    if k >= 0 { c1.update(k, (height, fresh)) } else { c1.push((height, fresh)) }
}

impl CommitteeManager {
    /// A manager with no open collection.
    pub fn new(signing_key: Vec<u8>, finality_threshold_percent: u64) -> (m: Self)
        ensures
            manager_wf(m@),
            m@.collectors.len() == 0,
            m@.our_signer_index is None,
            m@.signing_key == signing_key@,
            m@.finality_threshold_percent == finality_threshold_percent,
            m@.max_pending_heights == 64,
    {
        let m = CommitteeManager {
            collectors: Vec::new(),
            our_signer_index: None,
            our_signing_key: signing_key,
            finality_threshold_percent,
            max_pending_heights: 64,
        };
        assert(m@.collectors =~= Seq::<(u64, CollectorView)>::empty());
        m
    }

    /// Our signer index in the current slot's committee, if any.
    pub fn set_committee_index(&mut self, index: Option<usize>)
        ensures
            final(self)@ == (CommitteeManagerView { our_signer_index: index, ..old(self)@ }),
    {
        self.our_signer_index = index;
    }

    /// Our signer index in the current slot's committee, if any.
    pub fn committee_index(&self) -> (r: Option<usize>)
        ensures
            r == self@.our_signer_index,
    {
        self.our_signer_index
    }

    /// Our signing key.
    pub fn signing_key(&self) -> (k: &Vec<u8>)
        ensures
            k@ == self@.signing_key,
    {
        &self.our_signing_key
    }

    fn find(&self, height: u64) -> (r: Option<usize>)
        requires
            manager_wf(self@),
        ensures
            match r {
                Some(k) => k < self@.collectors.len() && collector_index(self@.collectors, height) == k,
                None => collector_index(self@.collectors, height) == -1,
            },
    {
        let ghost c = self@.collectors;
        let mut i: usize = 0;
        while i < self.collectors.len()
            invariant
                c == self@.collectors,
                c.len() == self.collectors@.len(),
                manager_wf(self@),
                i <= c.len(),
                forall|j: int| 0 <= j < i ==> (#[trigger] c[j]).0 != height,
            decreases c.len() - i,
        {
            assert(c[i as int].0 == self.collectors@[i as int].0);
            if self.collectors[i].0 == height {
                proof {
                    let k = collector_index(c, height);
                    if k != i {
                        if k < i {
                            assert(c[k].0 != c[i as int].0);
                        } else {
                            assert(c[i as int].0 != c[k].0);
                        }
                    }
                }
                return Some(i);
            }
            i = i + 1;
        }
        None
    }

    /// Opens vote collection for a block. When `max_pending_heights`
    /// collections are open, the one with the lowest height is dropped
    /// first. The threshold is `finality_threshold_percent` of the
    /// committee size (at least 1).
    pub fn start_collection(&mut self, height: u64, block_hash: [u8; 32], committee_pubkeys: Vec<Vec<u8>>, committee_size: usize)
        requires
            manager_wf(old(self)@),
        ensures
            manager_wf(final(self)@),
            final(self)@ == (CommitteeManagerView {
                collectors: opened(
                    old(self)@.collectors,
                    old(self)@.max_pending_heights,
                    height,
                    CollectorView {
                        block_hash: block_hash@,
                        votes: Seq::empty(),
                        public_keys: committee_pubkeys@.map_values(|k: Vec<u8>| k@),
                        threshold: finality_threshold(committee_size, old(self)@.finality_threshold_percent),
                        committee_size,
                    },
                ),
                ..old(self)@
            }),
    {
        let ghost c0 = self@.collectors;
        if self.collectors.len() >= self.max_pending_heights && self.collectors.len() > 0 {
            let mut low: usize = 0;
            let mut i: usize = 1;
            while i < self.collectors.len()
                invariant
                    c0 == self@.collectors,
                    c0.len() == self.collectors@.len(),
                    c0.len() > 0,
                    low < c0.len(),
                    1 <= i <= c0.len(),
                    forall|j: int| 0 <= j < i ==> c0[low as int].0 <= (#[trigger] c0[j]).0,
                decreases c0.len() - i,
            {
                assert(c0[i as int].0 == self.collectors@[i as int].0);
                assert(c0[low as int].0 == self.collectors@[low as int].0);
                if self.collectors[i].0 < self.collectors[low].0 {
                    low = i;
                }
                i = i + 1;
            }
            proof {
                assert(is_lowest(c0, low as int));
                let k = lowest_index(c0);
                assert(is_lowest(c0, k));
                if k != low {
                    assert(c0[k].0 <= c0[low as int].0);
                    assert(c0[low as int].0 <= c0[k].0);
                    if k < low {
                        assert(c0[k].0 != c0[low as int].0);
                    } else {
                        assert(c0[low as int].0 != c0[k].0);
                    }
                }
            }
            self.collectors.remove(low);
            proof {
                let c = self@.collectors;
                assert(c =~= c0.remove(low as int));
                assert forall|i: int, j: int| 0 <= i < j < c.len() implies (#[trigger] c[i]).0 != (#[trigger] c[j]).0 by {
                    let i2 = if i < low { i } else { i + 1 };
                    let j2 = if j < low { j } else { j + 1 };
                    assert(c[i] == c0[i2] && c[j] == c0[j2]);
                }
                assert forall|x: int, i: int, j: int|
                    0 <= x < c.len() && 0 <= i < j < c[x].1.votes.len() implies (#[trigger] c[x].1.votes[i]).0
                    != (#[trigger] c[x].1.votes[j]).0 by {
                    let x2 = if x < low { x } else { x + 1 };
                    assert(c[x] == c0[x2]);
                }
            }
        }
        let pct = self.finality_threshold_percent;
        let raw = (sat_mul(committee_size as u64, pct) / 100) as usize;
        let threshold = if raw >= 1 { raw } else { 1 };
        let collector = VoteCollector {
            block_hash,
            votes: Vec::new(),
            public_keys: committee_pubkeys,
            threshold,
            committee_size,
        };
        assert(collector@.votes =~= Seq::<(usize, Seq<u8>)>::empty());
        let ghost c1 = self@.collectors;
        let ghost fresh = collector@;
        match self.find(height) {
            Some(k) => {
                self.collectors.set(k, (height, collector));
                proof {
                    let c = self@.collectors;
                    assert(c =~= c1.update(k as int, (height, fresh)));
                    assert forall|i: int, j: int| 0 <= i < j < c.len() implies (#[trigger] c[i]).0 != (
                    #[trigger] c[j]).0 by {
                        assert(c1[i].0 != c1[j].0);
                    }
                    assert forall|x: int, i: int, j: int|
                        0 <= x < c.len() && 0 <= i < j < c[x].1.votes.len() implies (#[trigger] c[x].1.votes[i]).0
                        != (#[trigger] c[x].1.votes[j]).0 by {
                        if x != k {
                            assert(c[x] == c1[x]);
                        }
                    }
                }
            },
            None => {
                self.collectors.push((height, collector));
                proof {
                    let c = self@.collectors;
                    assert(c =~= c1.push((height, fresh)));
                    assert forall|i: int, j: int| 0 <= i < j < c.len() implies (#[trigger] c[i]).0 != (
                    #[trigger] c[j]).0 by {
                        if j < c1.len() {
                            assert(c1[i].0 != c1[j].0);
                        }
                    }
                    assert forall|x: int, i: int, j: int|
                        0 <= x < c.len() && 0 <= i < j < c[x].1.votes.len() implies (#[trigger] c[x].1.votes[i]).0
                        != (#[trigger] c[x].1.votes[j]).0 by {
                        if x < c1.len() {
                            assert(c[x] == c1[x]);
                        }
                    }
                }
            },
        }
    }

    /// Records a vote: ignored when no collection is open at its height,
    /// when it is for another block, or when its signer already voted.
    /// Says whether the threshold is now reached; the collected partial
    /// signatures (see `collector`) are then aggregated by the threshold
    /// scheme, and `finish_height` closes the height once that succeeds.
    pub fn process_vote(&mut self, vote: &CommitteeVote) -> (r: VoteOutcome)
        requires
            manager_wf(old(self)@),
        ensures
            manager_wf(final(self)@),
            ({
                let k = collector_index(old(self)@.collectors, vote.height);
                let c = old(self)@.collectors[k].1;
                &&& k < 0 ==> r == VoteOutcome::NoCollector && final(self)@ == old(self)@
                &&& k >= 0 && (c.block_hash != vote.block_hash@ || has_voted(c.votes, vote.signer_index)) ==> r
                    == VoteOutcome::Ignored && final(self)@ == old(self)@
                &&& k >= 0 && c.block_hash == vote.block_hash@ && !has_voted(c.votes, vote.signer_index) ==> ({
                    let votes = c.votes.push((vote.signer_index, vote.partial_signature@));
                    &&& final(self)@ == (CommitteeManagerView {
                        collectors: old(self)@.collectors.update(k, (vote.height, CollectorView { votes, ..c })),
                        ..old(self)@
                    })
                    &&& r == if votes.len() >= c.threshold {
                        VoteOutcome::ThresholdReached
                    } else {
                        VoteOutcome::Collected
                    }
                })
            }),
    {
        let ghost old_c = self@.collectors;
        let k = match self.find(vote.height) {
            None => return VoteOutcome::NoCollector,
            Some(k) => k,
        };
        assert(old_c[k as int].1 == self.collectors@[k as int].1@);
        if !hash_eq(&self.collectors[k].1.block_hash, &vote.block_hash) {
            return VoteOutcome::Ignored;
        }
        let ghost votes_v = old_c[k as int].1.votes;
        let mut i: usize = 0;
        while i < self.collectors[k].1.votes.len()
            invariant
                self@ == old(self)@,
                manager_wf(self@),
                old_c == old(self)@.collectors,
                k == collector_index(old_c, vote.height),
                k < self.collectors@.len(),
                votes_v == old_c[k as int].1.votes,
                votes_v == self.collectors@[k as int].1@.votes,
                votes_v.len() == self.collectors@[k as int].1.votes@.len(),
                i <= votes_v.len(),
                forall|j: int| 0 <= j < i ==> (#[trigger] votes_v[j]).0 != vote.signer_index,
            decreases votes_v.len() - i,
        {
            assert(votes_v[i as int].0 == self.collectors@[k as int].1.votes@[i as int].0);
            if self.collectors[k].1.votes[i].0 == vote.signer_index {
                assert(has_voted(votes_v, vote.signer_index));
                return VoteOutcome::Ignored;
            }
            i = i + 1;
        }
        let sig = copy_bytes(vote.partial_signature.as_slice());
        let ghost before = self.collectors@[k as int].1.votes@;
        self.collectors[k].1.votes.push((vote.signer_index, sig));
        proof {
            let c = self@.collectors;
            let nv = votes_v.push((vote.signer_index, vote.partial_signature@));
            assert(self.collectors@[k as int].1.votes@.map_values(|v: (usize, Vec<u8>)| (v.0, v.1@)) =~= nv);
            assert(c =~= old_c.update(k as int, (vote.height, CollectorView { votes: nv, ..old_c[k as int].1 })));
            assert forall|i: int, j: int| 0 <= i < j < c.len() implies (#[trigger] c[i]).0 != (#[trigger] c[j]).0 by {
                assert(old_c[i].0 != old_c[j].0);
            }
            assert forall|x: int, i: int, j: int|
                0 <= x < c.len() && 0 <= i < j < c[x].1.votes.len() implies (#[trigger] c[x].1.votes[i]).0 != (
                #[trigger] c[x].1.votes[j]).0 by {
                if x != k {
                    assert(c[x] == old_c[x]);
                } else if j < votes_v.len() {
                    assert(old_c[x].1.votes[i].0 != old_c[x].1.votes[j].0);
                }
            }
        }
        if self.collectors[k].1.votes.len() >= self.collectors[k].1.threshold {
            VoteOutcome::ThresholdReached
        } else {
            VoteOutcome::Collected
        }
    }

    /// The collector open at `height`, if any.
    pub fn collector(&self, height: u64) -> (r: Option<&VoteCollector>)
        requires
            manager_wf(self@),
        ensures
            ({
                let k = collector_index(self@.collectors, height);
                &&& k < 0 ==> r is None
                &&& k >= 0 ==> (r matches Some(c) && c@ == self@.collectors[k].1)
            }),
    {
        match self.find(height) {
            None => None,
            Some(k) => Some(&self.collectors[k].1),
        }
    }

    /// Closes the collection at `height` (once its votes are aggregated).
    pub fn finish_height(&mut self, height: u64)
        requires
            manager_wf(old(self)@),
        ensures
            manager_wf(final(self)@),
            collector_index(old(self)@.collectors, height) < 0 ==> final(self)@ == old(self)@,
            collector_index(old(self)@.collectors, height) >= 0 ==> final(self)@ == (CommitteeManagerView {
                collectors: old(self)@.collectors.remove(collector_index(old(self)@.collectors, height)),
                ..old(self)@
            }),
    {
        let ghost c0 = self@.collectors;
        match self.find(height) {
            None => {},
            Some(k) => {
                self.collectors.remove(k);
                proof {
                    let c = self@.collectors;
                    assert(c =~= c0.remove(k as int));
                    assert forall|i: int, j: int| 0 <= i < j < c.len() implies (#[trigger] c[i]).0 != (
                    #[trigger] c[j]).0 by {
                        let i2 = if i < k { i } else { i + 1 };
                        let j2 = if j < k { j } else { j + 1 };
                        assert(c[i] == c0[i2] && c[j] == c0[j2]);
                    }
                    assert forall|x: int, i: int, j: int|
                        0 <= x < c.len() && 0 <= i < j < c[x].1.votes.len() implies (#[trigger] c[x].1.votes[i]).0
                        != (#[trigger] c[x].1.votes[j]).0 by {
                        let x2 = if x < k { x } else { x + 1 };
                        assert(c[x] == c0[x2]);
                    }
                }
            },
        }
    }

    /// Whether a collection is open at `height`.
    pub fn is_height_pending(&self, height: u64) -> (r: bool)
        requires
            manager_wf(self@),
        ensures
            r == (collector_index(self@.collectors, height) >= 0),
    {
        self.find(height).is_some()
    }

    /// Number of open collections.
    pub fn pending_count(&self) -> (n: usize)
        ensures
            n == self@.collectors.len(),
    {
        self.collectors.len()
    }
}

} // verus!
