//! On-chain governance: proposal tracks, conviction voting, adaptive
//! quorum, and the proposal / vote / tally / execute lifecycle.
//!
//! Six proposal tracks carry distinct thresholds, vote periods and
//! timelocks. Voters lock stake for a conviction multiplier between
//! 0.1x and 6x. At low turnout a super-majority is required. A vote can
//! be changed or withdrawn while the proposal is in its voting period.

use vstd::prelude::*;
use crate::text::{dec, push_dec, string_of, str_eq};
pub use crate::council::{CouncilMember, OperatorInfo, ServiceOperatorsCouncil, TechnicalCouncil};

verus! {

// ---------------------------------------------------------------------------
// Saturating arithmetic
// ---------------------------------------------------------------------------

/// `a * b` clamped to `u64::MAX`.
pub open spec fn sat_mul_spec(a: u64, b: u64) -> u64 {
    if a * b > u64::MAX { u64::MAX } else { (a * b) as u64 }
}

/// `a + b` clamped to `u64::MAX`.
pub open spec fn sat_add_spec(a: u64, b: u64) -> u64 {
    if a + b > u64::MAX { u64::MAX } else { (a + b) as u64 }
}

/// Saturating multiplication.
pub fn sat_mul(a: u64, b: u64) -> (r: u64)
    ensures
        r == sat_mul_spec(a, b),
{
    match a.checked_mul(b) {
        Some(v) => v,
        None => u64::MAX,
    }
}

// ---------------------------------------------------------------------------
// Proposal tracks
// ---------------------------------------------------------------------------

/// Proposal track.
#[derive(Clone, Copy, Debug, PartialEq, Eq, Hash, Structural)]
pub enum ProposalTrack {
    ParameterChange,
    ProtocolUpgrade,
    TreasurySmall,
    TreasuryLarge,
    Emergency,
    Constitutional,
}

impl ProposalTrack {
    pub open spec fn spec_base_approval_threshold(self) -> u64 {
        match self {
            ProposalTrack::ParameterChange => 50,
            ProposalTrack::ProtocolUpgrade => 66,
            ProposalTrack::TreasurySmall => 50,
            ProposalTrack::TreasuryLarge => 66,
            ProposalTrack::Emergency => 75,
            ProposalTrack::Constitutional => 75,
        }
    }

    pub open spec fn spec_vote_period_epochs(self) -> u64 {
        match self {
            ProposalTrack::ParameterChange => 5,
            ProposalTrack::ProtocolUpgrade => 14,
            ProposalTrack::TreasurySmall => 5,
            ProposalTrack::TreasuryLarge => 7,
            ProposalTrack::Emergency => 1,
            ProposalTrack::Constitutional => 14,
        }
    }

    pub open spec fn spec_timelock_epochs(self) -> u64 {
        match self {
            ProposalTrack::ParameterChange => 3,
            ProposalTrack::ProtocolUpgrade => 14,
            ProposalTrack::TreasurySmall => 2,
            ProposalTrack::TreasuryLarge => 7,
            ProposalTrack::Emergency => 1,
            ProposalTrack::Constitutional => 28,
        }
    }

    pub open spec fn spec_quorum_bias(self) -> u64 {
        match self {
            ProposalTrack::ParameterChange => 20,
            ProposalTrack::ProtocolUpgrade => 25,
            ProposalTrack::TreasurySmall => 15,
            ProposalTrack::TreasuryLarge => 25,
            ProposalTrack::Emergency => 30,
            ProposalTrack::Constitutional => 30,
        }
    }

    pub open spec fn spec_min_turnout(self) -> u64 {
        match self {
            ProposalTrack::ParameterChange => 5,
            ProposalTrack::ProtocolUpgrade => 10,
            ProposalTrack::TreasurySmall => 5,
            ProposalTrack::TreasuryLarge => 10,
            ProposalTrack::Emergency => 15,
            ProposalTrack::Constitutional => 15,
        }
    }

    /// Base approval percentage (0-100) before adaptive quorum adjustment.
    pub fn base_approval_threshold(&self) -> (r: u64)
        ensures
            r == self.spec_base_approval_threshold(),
    {
        match self {
            ProposalTrack::ParameterChange => 50,
            ProposalTrack::ProtocolUpgrade => 66,
            ProposalTrack::TreasurySmall => 50,
            ProposalTrack::TreasuryLarge => 66,
            ProposalTrack::Emergency => 75,
            ProposalTrack::Constitutional => 75,
        }
    }

    /// Required approval percentage (0-100); same as the base threshold.
    pub fn approval_threshold(&self) -> (r: u64)
        ensures
            r == self.spec_base_approval_threshold(),
    {
        self.base_approval_threshold()
    }

    /// Vote period in epochs.
    pub fn vote_period_epochs(&self) -> (r: u64)
        ensures
            r == self.spec_vote_period_epochs(),
    {
        match self {
            ProposalTrack::ParameterChange => 5,
            ProposalTrack::ProtocolUpgrade => 14,
            ProposalTrack::TreasurySmall => 5,
            ProposalTrack::TreasuryLarge => 7,
            ProposalTrack::Emergency => 1,
            ProposalTrack::Constitutional => 14,
        }
    }

    /// Timelock in epochs (delay between passing and execution).
    pub fn timelock_epochs(&self) -> (r: u64)
        ensures
            r == self.spec_timelock_epochs(),
    {
        match self {
            ProposalTrack::ParameterChange => 3,
            ProposalTrack::ProtocolUpgrade => 14,
            ProposalTrack::TreasurySmall => 2,
            ProposalTrack::TreasuryLarge => 7,
            ProposalTrack::Emergency => 1,
            ProposalTrack::Constitutional => 28,
        }
    }

    /// Adaptive quorum bias factor (0-100).
    pub fn quorum_bias(&self) -> (r: u64)
        ensures
            r == self.spec_quorum_bias(),
    {
        match self {
            ProposalTrack::ParameterChange => 20,
            ProposalTrack::ProtocolUpgrade => 25,
            ProposalTrack::TreasurySmall => 15,
            ProposalTrack::TreasuryLarge => 25,
            ProposalTrack::Emergency => 30,
            ProposalTrack::Constitutional => 30,
        }
    }

    /// Minimum turnout percentage (0-100) for a valid vote.
    pub fn min_turnout(&self) -> (r: u64)
        ensures
            r == self.spec_min_turnout(),
    {
        match self {
            ProposalTrack::ParameterChange => 5,
            ProposalTrack::ProtocolUpgrade => 10,
            ProposalTrack::TreasurySmall => 5,
            ProposalTrack::TreasuryLarge => 10,
            ProposalTrack::Emergency => 15,
            ProposalTrack::Constitutional => 15,
        }
    }
}

// ---------------------------------------------------------------------------
// Conviction voting
// ---------------------------------------------------------------------------

/// Conviction multiplier: voters lock tokens longer for higher weight.
#[derive(Clone, Copy, Debug, PartialEq, Eq, Structural)]
pub enum Conviction {
    NoLock,
    X1,
    X2,
    X3,
    X4,
    X5,
    X6,
}

impl Conviction {
    /// Position of the conviction level, from `None` (0) to `X6` (6).
    pub open spec fn level(self) -> nat {
        match self {
            Conviction::NoLock => 0,
            Conviction::X1 => 1,
            Conviction::X2 => 2,
            Conviction::X3 => 3,
            Conviction::X4 => 4,
            Conviction::X5 => 5,
            Conviction::X6 => 6,
        }
    }

    pub open spec fn spec_multiplier_x10(self) -> u64 {
        match self {
            Conviction::NoLock => 1,
            Conviction::X1 => 10,
            Conviction::X2 => 20,
            Conviction::X3 => 30,
            Conviction::X4 => 40,
            Conviction::X5 => 50,
            Conviction::X6 => 60,
        }
    }

    pub open spec fn spec_lock_epochs(self) -> u64 {
        match self {
            Conviction::NoLock => 0,
            Conviction::X1 => 1,
            Conviction::X2 => 2,
            Conviction::X3 => 4,
            Conviction::X4 => 8,
            Conviction::X5 => 16,
            Conviction::X6 => 32,
        }
    }

    /// `(stake * multiplier_x10) / 10`, the product clamped to `u64::MAX`.
    pub open spec fn spec_weighted_stake(self, stake: u64) -> u64 {
        (sat_mul_spec(stake, self.spec_multiplier_x10()) / 10) as u64
    }

    /// Multiplier numerator (multiply stake, then divide by 10).
    pub fn multiplier_x10(&self) -> (r: u64)
        ensures
            r == self.spec_multiplier_x10(),
    {
        match self {
            Conviction::NoLock => 1,
            Conviction::X1 => 10,
            Conviction::X2 => 20,
            Conviction::X3 => 30,
            Conviction::X4 => 40,
            Conviction::X5 => 50,
            Conviction::X6 => 60,
        }
    }

    /// Lock period in epochs after the vote period ends.
    pub fn lock_epochs(&self) -> (r: u64)
        ensures
            r == self.spec_lock_epochs(),
    {
        match self {
            Conviction::NoLock => 0,
            Conviction::X1 => 1,
            Conviction::X2 => 2,
            Conviction::X3 => 4,
            Conviction::X4 => 8,
            Conviction::X5 => 16,
            Conviction::X6 => 32,
        }
    }

    /// Weighted voting power: `(stake * multiplier_x10) / 10`, saturating.
    pub fn weighted_stake(&self, stake: u64) -> (r: u64)
        ensures
            r == self.spec_weighted_stake(stake),
    {
        sat_mul(stake, self.multiplier_x10()) / 10
    }
}

/// A higher conviction level locks for strictly longer and multiplies
/// strictly more.
pub proof fn lemma_conviction_monotone(a: Conviction, b: Conviction)
    requires
        a.level() < b.level(),
    ensures
        a.spec_lock_epochs() < b.spec_lock_epochs(),
        a.spec_multiplier_x10() < b.spec_multiplier_x10(),
{
}

/// The weighted stake never exceeds six times the stake, and at 1x it is
/// the stake itself whenever `10 * stake` fits in a `u64`.
pub proof fn lemma_weighted_stake_bounds(c: Conviction, stake: u64)
    ensures
        c.spec_weighted_stake(stake) <= 6 * stake,
        c == Conviction::X1 && stake * 10 <= u64::MAX ==> c.spec_weighted_stake(stake) == stake,
{
    assert(stake * c.spec_multiplier_x10() <= stake * 60) by (nonlinear_arith)
        requires c.spec_multiplier_x10() <= 60;
}

// ---------------------------------------------------------------------------
// Adaptive quorum
// ---------------------------------------------------------------------------

/// `base + bias * (100 - turnout) / 100`, turnout capped at 100 and the
/// result capped at 100.
pub open spec fn spec_adaptive_threshold(base: u64, bias: u64, turnout_pct: u64) -> u64 {
    let t: int = if turnout_pct > 100 { 100 } else { turnout_pct as int };
    let raw: int = base + (bias * (100 - t)) / 100;
    if raw > 100 { 100 } else { raw as u64 }
}

/// Compute the adaptive approval threshold based on turnout.
///
/// At low turnout a super-majority is needed; at full turnout the base
/// threshold suffices.
pub fn adaptive_threshold(base_threshold: u64, bias: u64, turnout_pct: u64) -> (r: u64)
    ensures
        r == spec_adaptive_threshold(base_threshold, bias, turnout_pct),
{
    let turnout: u64 = if turnout_pct > 100 { 100 } else { turnout_pct };
    let room: u64 = 100 - turnout;
    let product = sat_mul(bias, room);
    let adjustment = product / 100;
    let threshold = base_threshold.saturating_add(adjustment);
    proof {
        if bias * room > u64::MAX {
            assert((bias * room) / 100 >= 100) by (nonlinear_arith)
                requires bias * room > u64::MAX;
            assert(adjustment >= 100);
        }
    }
    if threshold > 100 { 100 } else { threshold }
}

/// The adaptive threshold lies in `[base, 100]` for a base of at most 100.
pub proof fn lemma_adaptive_threshold_bounded(base: u64, bias: u64, turnout_pct: u64)
    requires
        base <= 100,
    ensures
        base <= spec_adaptive_threshold(base, bias, turnout_pct) <= 100,
{
    let t: int = if turnout_pct > 100 { 100 } else { turnout_pct as int };
    assert(bias * (100 - t) >= 0) by (nonlinear_arith)
        requires 0 <= 100 - t;
}

/// Higher turnout never raises the adaptive threshold.
pub proof fn lemma_adaptive_threshold_monotone(base: u64, bias: u64, low: u64, high: u64)
    requires
        low <= high,
    ensures
        spec_adaptive_threshold(base, bias, low) >= spec_adaptive_threshold(base, bias, high),
{
    let tl: int = if low > 100 { 100 } else { low as int };
    let th: int = if high > 100 { 100 } else { high as int };
    assert(bias * (100 - tl) >= bias * (100 - th)) by (nonlinear_arith)
        requires tl <= th, bias >= 0;
    assert((bias * (100 - tl)) / 100 >= (bias * (100 - th)) / 100) by (nonlinear_arith)
        requires bias * (100 - tl) >= bias * (100 - th);
}

/// At full turnout the adaptive threshold is the base (capped at 100);
/// at zero turnout it is `base + bias` (capped at 100).
pub proof fn lemma_adaptive_threshold_extremes(base: u64, bias: u64)
    ensures
        spec_adaptive_threshold(base, bias, 100) == if base > 100 { 100 } else { base },
        spec_adaptive_threshold(base, bias, 0) == if base + bias > 100 { 100 } else { (base + bias) as u64 },
{
}


// ---------------------------------------------------------------------------
// Core data structures
// ---------------------------------------------------------------------------

/// Proposal lifecycle status.
#[derive(Clone, Copy, Debug, PartialEq, Eq, Structural)]
pub enum ProposalStatus {
    Voting,
    Passed,
    Rejected,
    Timelocked { execute_at_epoch: u64 },
    Executed,
    Cancelled,
}

/// Vote choice.
#[derive(Clone, Copy, Debug, PartialEq, Eq, Structural)]
pub enum VoteChoice {
    Yes,
    No,
    Abstain,
}

/// A governance proposal.
#[derive(Clone, Debug)]
pub struct Proposal {
    pub id: u64,
    pub track: ProposalTrack,
    pub title: String,
    pub description: String,
    /// The SQL or parameter change to execute if passed.
    pub payload: String,
    /// Proposer's address.
    pub proposer: String,
    /// Epoch when voting started.
    pub start_epoch: u64,
    /// Current status.
    pub status: ProposalStatus,
}

/// Vote record with conviction.
#[derive(Clone, Debug)]
pub struct Vote {
    pub voter: String,
    pub choice: VoteChoice,
    /// Raw stake committed to this vote.
    pub stake: u64,
    /// Conviction multiplier chosen by the voter.
    pub conviction: Conviction,
    /// Effective voting weight: stake times the conviction multiplier.
    pub weight: u64,
    /// Epoch when the tokens unlock (vote end plus the conviction lock).
    pub unlock_epoch: u64,
}

/// Token lock record for conviction voting.
#[derive(Clone, Debug)]
pub struct ConvictionLock {
    pub voter: String,
    pub proposal_id: u64,
    pub amount: u64,
    pub unlock_epoch: u64,
}

/// Epoch at which the voting period of `p` ends.
pub open spec fn vote_end_spec(p: Proposal) -> u64 {
    sat_add_spec(p.start_epoch, p.track.spec_vote_period_epochs())
}

/// Sum of the weights of the Yes votes.
pub open spec fn yes_weight(votes: Seq<Vote>) -> nat
    decreases votes.len(),
{
    if votes.len() == 0 {
        0
    } else {
        yes_weight(votes.drop_last()) + if votes.last().choice == VoteChoice::Yes {
            votes.last().weight as nat
        } else {
            0
        }
    }
}

/// Sum of the weights of the No votes.
pub open spec fn no_weight(votes: Seq<Vote>) -> nat
    decreases votes.len(),
{
    if votes.len() == 0 {
        0
    } else {
        no_weight(votes.drop_last()) + if votes.last().choice == VoteChoice::No {
            votes.last().weight as nat
        } else {
            0
        }
    }
}

/// Sum of the raw stakes of all votes that are not abstentions.
pub open spec fn voted_stake(votes: Seq<Vote>) -> nat
    decreases votes.len(),
{
    if votes.len() == 0 {
        0
    } else {
        voted_stake(votes.drop_last()) + if votes.last().choice != VoteChoice::Abstain {
            votes.last().stake as nat
        } else {
            0
        }
    }
}

/// Turnout percentage: raw non-abstaining stake over the eligible supply,
/// or 100 when the supply is unknown (zero).
pub open spec fn turnout_pct(votes: Seq<Vote>, supply: u64) -> u64 {
    if supply > 0 {
        (sat_mul_spec(voted_stake(votes) as u64, 100) / supply) as u64
    } else {
        100
    }
}

/// The status a tally at `epoch` assigns to proposal `p` with `votes`.
pub open spec fn tally_status(p: Proposal, votes: Seq<Vote>, supply: u64, epoch: u64) -> ProposalStatus {
    let yes = yes_weight(votes) as u64;
    let total = sat_add_spec(yes, no_weight(votes) as u64);
    let turnout = turnout_pct(votes, supply);
    if supply > 0 && turnout < p.track.spec_min_turnout() {
        ProposalStatus::Rejected
    } else if total == 0 {
        ProposalStatus::Rejected
    } else if sat_mul_spec(yes, 100) / total >= spec_adaptive_threshold(
        p.track.spec_base_approval_threshold(),
        p.track.spec_quorum_bias(),
        turnout,
    ) {
        ProposalStatus::Timelocked { execute_at_epoch: sat_add_spec(epoch, p.track.spec_timelock_epochs()) }
    } else {
        ProposalStatus::Rejected
    }
}

/// Whether the vote sums that a tally of `votes` computes fit in a `u64`.
pub open spec fn tally_sums_fit(votes: Seq<Vote>, supply: u64) -> bool {
    &&& yes_weight(votes) <= u64::MAX
    &&& no_weight(votes) <= u64::MAX
    &&& supply > 0 ==> voted_stake(votes) <= u64::MAX
}

/// Whether some vote in `votes` is cast by `voter`.
pub open spec fn has_voter(votes: Seq<Vote>, voter: Seq<char>) -> bool {
    exists|k: int| 0 <= k < votes.len() && #[trigger] votes[k].voter@ == voter
}

/// Index of the vote cast by `voter` (meaningful when `has_voter`).
pub open spec fn voter_index(votes: Seq<Vote>, voter: Seq<char>) -> int {
    choose|k: int| 0 <= k < votes.len() && #[trigger] votes[k].voter@ == voter
}

/// Locks kept when the lock of `voter` on proposal `id` is replaced.
pub open spec fn lock_kept(voter: Seq<char>, id: u64) -> spec_fn(ConvictionLock) -> bool {
    |l: ConvictionLock| !(l.voter@ == voter && l.proposal_id == id)
}

/// Locks that have expired at `epoch`.
pub open spec fn lock_expired(epoch: u64) -> spec_fn(ConvictionLock) -> bool {
    |l: ConvictionLock| epoch >= l.unlock_epoch
}

/// Locks still active at `epoch`.
pub open spec fn lock_active(epoch: u64) -> spec_fn(ConvictionLock) -> bool {
    |l: ConvictionLock| epoch < l.unlock_epoch
}

pub open spec fn msg_proposal_not_found(id: u64) -> Seq<char> {
    "proposal "@ + dec(id as nat) + " not found"@
}

pub open spec fn msg_not_voting() -> Seq<char> {
    "proposal is not in voting status"@
}

pub open spec fn msg_vote_period_open() -> Seq<char> {
    "voting period not over yet"@
}

pub open spec fn msg_not_voted(voter: Seq<char>, id: u64) -> Seq<char> {
    voter + " has not voted on proposal "@ + dec(id as nat)
}

pub open spec fn msg_timelock_remaining(remaining: u64) -> Seq<char> {
    "timelock not expired: "@ + dec(remaining as nat) + " epochs remaining"@
}

pub open spec fn msg_not_timelocked() -> Seq<char> {
    "proposal is not timelocked"@
}

fn proposal_not_found(id: u64) -> (s: String)
    ensures
        s@ == msg_proposal_not_found(id),
{
    let mut s = string_of("proposal ");
    push_dec(&mut s, id);
    s.append(" not found");
    s
}

/// Abstract state of the governance module.
pub struct GovernanceView {
    /// Proposals in increasing id order.
    pub proposals: Seq<Proposal>,
    /// `votes[i]` holds the votes on `proposals[i]`.
    pub votes: Seq<Seq<Vote>>,
    /// Conviction locks in creation order.
    pub locks: Seq<ConvictionLock>,
    pub next_proposal_id: u64,
    pub total_eligible_supply: u64,
}

impl GovernanceView {
    /// Well-formedness: one vote list per proposal, ids strictly
    /// increasing and below the next id (except a saturated last id),
    /// and at most one vote per voter on each proposal.
    pub open spec fn wf(self) -> bool {
        &&& self.proposals.len() == self.votes.len()
        &&& forall|i: int, j: int|
            0 <= i < j < self.proposals.len() ==> #[trigger] self.proposals[i].id < #[trigger] self.proposals[j].id
        &&& forall|i: int|
            0 <= i < self.proposals.len() ==> (#[trigger] self.proposals[i].id < self.next_proposal_id || (
            self.proposals[i].id == u64::MAX && self.next_proposal_id == u64::MAX))
        &&& forall|i: int, a: int, b: int|
            0 <= i < self.votes.len() && 0 <= a < b < self.votes[i].len() ==> #[trigger] self.votes[i][a].voter@
                != #[trigger] self.votes[i][b].voter@
    }

    /// Whether a proposal with this id exists.
    pub open spec fn has(self, id: u64) -> bool {
        exists|i: int| 0 <= i < self.proposals.len() && #[trigger] self.proposals[i].id == id
    }

    /// Position of the proposal with this id (meaningful when `has`).
    pub open spec fn idx(self, id: u64) -> int {
        choose|i: int| 0 <= i < self.proposals.len() && #[trigger] self.proposals[i].id == id
    }

    pub open spec fn proposal(self, id: u64) -> Proposal {
        self.proposals[self.idx(id)]
    }

    pub open spec fn votes_of(self, id: u64) -> Seq<Vote> {
        self.votes[self.idx(id)]
    }
}

/// Governance state.
pub struct GovernanceModule {
    proposals: Vec<Proposal>,
    votes: Vec<Vec<Vote>>,
    conviction_locks: Vec<ConvictionLock>,
    next_proposal_id: u64,
    /// Total eligible supply for quorum calculation.
    total_eligible_supply: u64,
}

impl View for GovernanceModule {
    type V = GovernanceView;

    closed spec fn view(&self) -> GovernanceView {
        GovernanceView {
            proposals: self.proposals@,
            votes: Seq::new(self.votes@.len(), |i: int| self.votes@[i]@),
            locks: self.conviction_locks@,
            next_proposal_id: self.next_proposal_id,
            total_eligible_supply: self.total_eligible_supply,
        }
    }
}

proof fn lemma_idx(v: GovernanceView, i: int)
    requires
        v.wf(),
        0 <= i < v.proposals.len(),
    ensures
        v.has(v.proposals[i].id),
        v.idx(v.proposals[i].id) == i,
{
    let id = v.proposals[i].id;
    assert(v.proposals[i].id == id);
    let k = v.idx(id);
    if k != i {
        if k < i {
            assert(v.proposals[k].id < v.proposals[i].id);
        } else {
            assert(v.proposals[i].id < v.proposals[k].id);
        }
    }
}

proof fn lemma_yes_prefix(votes: Seq<Vote>, i: int)
    requires
        0 <= i <= votes.len(),
    ensures
        yes_weight(votes.take(i)) <= yes_weight(votes),
        no_weight(votes.take(i)) <= no_weight(votes),
        voted_stake(votes.take(i)) <= voted_stake(votes),
    decreases votes.len() - i,
{
    if i < votes.len() {
        lemma_yes_prefix(votes, i + 1);
        assert(votes.take(i + 1).drop_last() =~= votes.take(i));
    } else {
        assert(votes.take(i) =~= votes);
    }
}

/// Releasing locks at an epoch splits them in two: every lock is either
/// released (expired) or kept (still active), never both.
pub proof fn lemma_release_partitions_locks(locks: Seq<ConvictionLock>, epoch: u64)
    ensures
        locks.filter(lock_expired(epoch)).len() + locks.filter(lock_active(epoch)).len() == locks.len(),
        forall|l: ConvictionLock| #[trigger] lock_expired(epoch)(l) != lock_active(epoch)(l),
    decreases locks.len(),
{
    reveal(Seq::filter);
    if locks.len() > 0 {
        lemma_release_partitions_locks(locks.drop_last(), epoch);
    }
}

/// Locks on proposals other than `id`.
pub open spec fn on_other_proposal(id: u64) -> spec_fn(ConvictionLock) -> bool {
    |l: ConvictionLock| l.proposal_id != id
}

/// A lock that does not count under `q` leaves the counted ones as they
/// were.
proof fn lemma_filter_push_excluded(s: Seq<ConvictionLock>, x: ConvictionLock, q: spec_fn(ConvictionLock) -> bool)
    requires
        !q(x),
    ensures
        s.push(x).filter(q) == s.filter(q),
{
    reveal(Seq::filter);
    assert(s.push(x).drop_last() =~= s);
}

/// Changing a vote drops only the voter's own lock on that proposal:
/// every other lock stays, the locks on other proposals stay exactly as
/// they were and in the same order, and no lock of the voter on that
/// proposal survives.
pub proof fn lemma_vote_change_keeps_other_locks(locks: Seq<ConvictionLock>, voter: Seq<char>, id: u64)
    ensures
        forall|j: int|
            0 <= j < locks.len() && !(locks[j].voter@ == voter && locks[j].proposal_id == id) ==> #[trigger] locks.filter(
                lock_kept(voter, id),
            ).contains(locks[j]),
        forall|l: ConvictionLock|
            #[trigger] locks.filter(lock_kept(voter, id)).contains(l) ==> locks.contains(l) && !(l.voter@ == voter
                && l.proposal_id == id),
        locks.filter(lock_kept(voter, id)).filter(on_other_proposal(id)) == locks.filter(on_other_proposal(id)),
    decreases locks.len(),
{
    let kept = locks.filter(lock_kept(voter, id));
    assert forall|j: int|
        0 <= j < locks.len() && !(locks[j].voter@ == voter && locks[j].proposal_id == id) implies #[trigger] kept.contains(
            locks[j],
        ) by {
        locks.lemma_filter_contains(lock_kept(voter, id), j);
    }
    assert forall|l: ConvictionLock| #[trigger] kept.contains(l) implies locks.contains(l) && !(l.voter@ == voter
        && l.proposal_id == id) by {
        locks.lemma_filter_contains_rev(lock_kept(voter, id), l);
        let k = choose|k: int| 0 <= k < kept.len() && kept[k] == l;
        locks.lemma_filter_pred(lock_kept(voter, id), k);
    }
    reveal(Seq::filter);
    if locks.len() > 0 {
        let rest = locks.drop_last();
        lemma_vote_change_keeps_other_locks(rest, voter, id);
        let x = locks.last();
        if lock_kept(voter, id)(x) {
            assert(kept == rest.filter(lock_kept(voter, id)).push(x));
            if !on_other_proposal(id)(x) {
                lemma_filter_push_excluded(rest.filter(lock_kept(voter, id)), x, on_other_proposal(id));
            } else {
                assert(rest.filter(lock_kept(voter, id)).push(x).drop_last() =~= rest.filter(lock_kept(voter, id)));
            }
        }
    }
}

/// Withdrawing a vote just cast by a voter who had not voted gives back
/// the votes as they were.
pub proof fn lemma_withdraw_undoes_fresh_vote(votes: Seq<Vote>, v: Vote)
    requires
        !has_voter(votes, v.voter@),
    ensures
        has_voter(votes.push(v), v.voter@),
        votes.push(v).remove(voter_index(votes.push(v), v.voter@)) == votes,
{
    let w = votes.push(v);
    assert(w[votes.len() as int].voter@ == v.voter@);
    let k = voter_index(w, v.voter@);
    if k != votes.len() {
        assert(votes[k].voter@ == v.voter@);
    }
    assert(w.remove(k) =~= votes);
}

/// A tally either rejects a proposal or timelocks it until the timelock
/// of its track has passed.
pub proof fn lemma_tally_outcomes(p: Proposal, votes: Seq<Vote>, supply: u64, epoch: u64)
    ensures
        tally_status(p, votes, supply, epoch) == ProposalStatus::Rejected || tally_status(p, votes, supply, epoch)
            == (ProposalStatus::Timelocked { execute_at_epoch: sat_add_spec(epoch, p.track.spec_timelock_epochs()) }),
{
}

/// Proposal ids count the proposals created: on a fresh module (next id
/// 0), the `i`-th `create_proposal` returns `i`, when between two creates
/// the next id is left as the earlier create set it. `before[i]` and
/// `after[i]` are the module around the `i`-th create, which returned
/// `ids[i]`.
pub proof fn lemma_proposal_ids_count_creates(
    before: Seq<GovernanceView>,
    after: Seq<GovernanceView>,
    ids: Seq<u64>,
)
    requires
        before.len() == ids.len(),
        after.len() == ids.len(),
        ids.len() <= u64::MAX,
        ids.len() > 0 ==> before[0].next_proposal_id == 0,
        forall|i: int| 0 <= i < ids.len() ==> #[trigger] ids[i] == before[i].next_proposal_id,
        forall|i: int| 0 <= i < ids.len() ==> #[trigger] after[i].next_proposal_id == sat_add_spec(ids[i], 1),
        forall|i: int| 0 <= i < ids.len() - 1 ==> #[trigger] before[i + 1].next_proposal_id == after[i].next_proposal_id,
    ensures
        forall|i: int| 0 <= i < ids.len() ==> #[trigger] ids[i] == i,
    decreases ids.len(),
{
    if ids.len() > 0 {
        let n = ids.len() - 1;
        lemma_proposal_ids_count_creates(before.take(n), after.take(n), ids.take(n));
        assert forall|i: int| 0 <= i < ids.len() implies #[trigger] ids[i] == i by {
            if i < n {
                assert(ids.take(n)[i] == ids[i]);
            } else if n > 0 {
                assert(ids.take(n)[n - 1] == ids[n - 1]);
                assert(before[n].next_proposal_id == after[n - 1].next_proposal_id);
                assert(after[n - 1].next_proposal_id == sat_add_spec(ids[n - 1], 1));
            }
        }
    }
}

/// Turnout is measured on raw stake: with a positive supply, a tally
/// whose non-abstaining stake is below the track's minimum share of the
/// supply rejects, whatever the conviction weights of the votes.
pub proof fn lemma_low_raw_turnout_rejects(p: Proposal, votes: Seq<Vote>, supply: u64, epoch: u64, raw: nat)
    requires
        supply > 0,
        raw == voted_stake(votes),
        raw <= u64::MAX,
        (raw * 100) / (supply as nat) < p.track.spec_min_turnout(),
    ensures
        tally_status(p, votes, supply, epoch) == ProposalStatus::Rejected,
{
    let s: nat = sat_mul_spec(raw as u64, 100) as nat;
    assert(s <= raw * 100);
    assert(s / (supply as nat) <= (raw * 100) / (supply as nat)) by (nonlinear_arith)
        requires s <= raw * 100, supply > 0;
}

proof fn lemma_same_stakes_same_voted(v1: Seq<Vote>, v2: Seq<Vote>)
    requires
        v1.len() == v2.len(),
        forall|i: int| 0 <= i < v1.len() ==> v1[i].stake == v2[i].stake && v1[i].choice == v2[i].choice,
    ensures
        voted_stake(v1) == voted_stake(v2),
    decreases v1.len(),
{
    if v1.len() > 0 {
        lemma_same_stakes_same_voted(v1.drop_last(), v2.drop_last());
    }
}

proof fn lemma_all_yes_sums(v: Seq<Vote>)
    requires
        forall|i: int| 0 <= i < v.len() ==> v[i].choice == VoteChoice::Yes && v[i].weight > 0,
    ensures
        no_weight(v) == 0,
        v.len() > 0 ==> yes_weight(v) > 0,
    decreases v.len(),
{
    if v.len() > 0 {
        lemma_all_yes_sums(v.drop_last());
    }
}

/// Conviction weights never move the turnout: two unanimous Yes tallies
/// whose votes carry the same raw stakes end the same way, however
/// differently their convictions weight them.
pub proof fn lemma_turnout_ignores_conviction(p: Proposal, v1: Seq<Vote>, v2: Seq<Vote>, supply: u64, epoch: u64)
    requires
        v1.len() == v2.len(),
        v1.len() > 0,
        forall|i: int| 0 <= i < v1.len() ==> v1[i].stake == v2[i].stake,
        forall|i: int| 0 <= i < v1.len() ==> v1[i].choice == VoteChoice::Yes && v2[i].choice == VoteChoice::Yes,
        forall|i: int| 0 <= i < v1.len() ==> v1[i].weight > 0 && v2[i].weight > 0,
        yes_weight(v1) * 100 <= u64::MAX,
        yes_weight(v2) * 100 <= u64::MAX,
    ensures
        tally_status(p, v1, supply, epoch) == tally_status(p, v2, supply, epoch),
{
    lemma_same_stakes_same_voted(v1, v2);
    lemma_all_yes_sums(v1);
    lemma_all_yes_sums(v2);
    let y1 = yes_weight(v1) as u64;
    let y2 = yes_weight(v2) as u64;
    assert((y1 * 100) / (y1 as int) == 100) by (nonlinear_arith)
        requires y1 > 0;
    assert((y2 * 100) / (y2 as int) == 100) by (nonlinear_arith)
        requires y2 > 0;
}

/// Whether a proposal was made by `address`.
pub open spec fn proposed_by(address: Seq<char>) -> spec_fn(Proposal) -> bool {
    |p: Proposal| p.proposer@ == address
}

/// The votes of `voter`, as `(proposal id, vote)` in proposal order.
pub open spec fn votes_of_voter(proposals: Seq<Proposal>, votes: Seq<Seq<Vote>>, voter: Seq<char>) -> Seq<(u64, Vote)>
    decreases proposals.len(),
{
    if proposals.len() == 0 || votes.len() == 0 {
        Seq::empty()
    } else {
        let rest = votes_of_voter(proposals.drop_last(), votes.drop_last(), voter);
        let vs = votes.last();
        if has_voter(vs, voter) {
            rest.push((proposals.last().id, vs[voter_index(vs, voter)]))
        } else {
            rest
        }
    }
}

/// Order of listed locks: by unlock epoch, then by creation order.
pub open spec fn lock_before(locks: Seq<ConvictionLock>, a: int, b: int) -> bool {
    locks[a].unlock_epoch < locks[b].unlock_epoch || (locks[a].unlock_epoch == locks[b].unlock_epoch && a < b)
}

impl GovernanceModule {
    pub fn new() -> (g: Self)
        ensures
            g@.wf(),
            g@.proposals.len() == 0,
            g@.locks.len() == 0,
            g@.next_proposal_id == 0,
            g@.total_eligible_supply == 0,
    {
        GovernanceModule {
            proposals: Vec::new(),
            votes: Vec::new(),
            conviction_locks: Vec::new(),
            next_proposal_id: 0,
            total_eligible_supply: 0,
        }
    }

    /// Create with a known total supply for adaptive quorum.
    pub fn with_supply(total_eligible_supply: u64) -> (g: Self)
        ensures
            g@.wf(),
            g@.proposals.len() == 0,
            g@.locks.len() == 0,
            g@.next_proposal_id == 0,
            g@.total_eligible_supply == total_eligible_supply,
    {
        GovernanceModule {
            proposals: Vec::new(),
            votes: Vec::new(),
            conviction_locks: Vec::new(),
            next_proposal_id: 0,
            total_eligible_supply,
        }
    }

    /// Update the total eligible supply (call when supply changes).
    pub fn set_total_eligible_supply(&mut self, supply: u64)
        ensures
            final(self)@ == (GovernanceView { total_eligible_supply: supply, ..old(self)@ }),
    {
        self.total_eligible_supply = supply;
        assert(self@.votes =~= old(self)@.votes);
    }

    /// The conviction locks currently held, in creation order.
    pub fn conviction_locks(&self) -> (r: &Vec<ConvictionLock>)
        ensures
            r@ == self@.locks,
    {
        &self.conviction_locks
    }

    fn find(&self, id: u64) -> (r: Option<usize>)
        requires
            self@.wf(),
        ensures
            match r {
                Some(i) => i < self@.proposals.len() && self@.has(id) && self@.idx(id) == i,
                None => !self@.has(id),
            },
    {
        let mut i: usize = 0;
        while i < self.proposals.len()
            invariant
                self@.wf(),
                i <= self.proposals@.len(),
                forall|k: int| 0 <= k < i ==> self.proposals@[k].id != id,
            decreases self.proposals@.len() - i,
        {
            if self.proposals[i].id == id {
                proof { lemma_idx(self@, i as int); }
                return Some(i);
            }
            i = i + 1;
        }
        None
    }

    /// Create a new proposal; returns its id.
    pub fn create_proposal(
        &mut self,
        track: ProposalTrack,
        title: String,
        description: String,
        payload: String,
        proposer: String,
        current_epoch: u64,
    ) -> (id: u64)
        requires
            old(self)@.wf(),
        ensures
            final(self)@.wf(),
            id == old(self)@.next_proposal_id,
            final(self)@.next_proposal_id == sat_add_spec(id, 1),
            final(self)@.total_eligible_supply == old(self)@.total_eligible_supply,
            final(self)@.locks == old(self)@.locks,
            ({
                let p = Proposal {
                    id,
                    track,
                    title,
                    description,
                    payload,
                    proposer,
                    start_epoch: current_epoch,
                    status: ProposalStatus::Voting,
                };
                if old(self)@.has(id) {
                    &&& old(self)@.idx(id) == old(self)@.proposals.len() - 1
                    &&& final(self)@.proposals == old(self)@.proposals.drop_last().push(p)
                    &&& final(self)@.votes == old(self)@.votes.drop_last().push(Seq::empty())
                } else {
                    &&& final(self)@.proposals == old(self)@.proposals.push(p)
                    &&& final(self)@.votes == old(self)@.votes.push(Seq::empty())
                }
            }),
    {
        let id = self.next_proposal_id;
        self.next_proposal_id = self.next_proposal_id.saturating_add(1);
        let ghost old_view = old(self)@;
        let proposal = Proposal {
            id,
            track,
            title,
            description,
            payload,
            proposer,
            start_epoch: current_epoch,
            status: ProposalStatus::Voting,
        };
        let n = self.proposals.len();
        if n > 0 && self.proposals[n - 1].id == id {
            proof { lemma_idx(old_view, n - 1); }
            self.proposals.pop();
            self.votes.pop();
            self.proposals.push(proposal);
            self.votes.push(Vec::new());
            assert(self@.votes =~= old_view.votes.drop_last().push(Seq::empty()));
        } else {
            proof {
                if old_view.has(id) {
                    let k = old_view.idx(id);
                    if k < n - 1 {
                        assert(old_view.proposals[k].id < old_view.proposals[n - 1].id);
                    }
                }
            }
            self.proposals.push(proposal);
            self.votes.push(Vec::new());
            assert(self@.votes =~= old_view.votes.push(Seq::empty()));
        }
        id
    }

    fn find_vote(&self, i: usize, voter: &str) -> (r: Option<usize>)
        requires
            self@.wf(),
            i < self@.proposals.len(),
        ensures
            match r {
                Some(k) => k < self@.votes[i as int].len() && has_voter(self@.votes[i as int], voter@)
                    && voter_index(self@.votes[i as int], voter@) == k,
                None => !has_voter(self@.votes[i as int], voter@),
            },
    {
        let ghost vs = self@.votes[i as int];
        assert(vs == self.votes@[i as int]@);
        let mut k: usize = 0;
        while k < self.votes[i].len()
            invariant
                self@.wf(),
                i < self@.proposals.len(),
                vs == self.votes@[i as int]@,
                k <= vs.len(),
                forall|j: int| 0 <= j < k ==> vs[j].voter@ != voter@,
            decreases vs.len() - k,
        {
            if str_eq(self.votes[i][k].voter.as_str(), voter) {
                proof {
                    assert(vs[k as int].voter@ == voter@);
                    let c = voter_index(vs, voter@);
                    let w = self@.votes[i as int];
                    assert(w == vs);
                    if c != k {
                        if c < k {
                            assert(w[c].voter@ != w[k as int].voter@);
                        } else {
                            assert(w[k as int].voter@ != w[c].voter@);
                        }
                    }
                }
                return Some(k);
            }
            k = k + 1;
        }
        None
    }

    /// Drops every lock of `voter` on proposal `id`, keeping the order of
    /// the others.
    fn drop_locks_of(&mut self, voter: &String, id: u64)
        ensures
            final(self)@ == (GovernanceView {
                locks: old(self)@.locks.filter(lock_kept(voter@, id)),
                ..old(self)@
            }),
    {
        let ghost before = self@;
        let mut rest: Vec<ConvictionLock> = Vec::new();
        std::mem::swap(&mut rest, &mut self.conviction_locks);
        let ghost orig = rest@;
        let n = rest.len();
        let mut kept: Vec<ConvictionLock> = Vec::new();
        let mut i: usize = 0;
        assert(orig.skip(0) =~= orig);
        assert(orig.take(0) =~= Seq::<ConvictionLock>::empty());
        proof { reveal(Seq::filter); }
        while i < n
            invariant
                n == orig.len(),
                i <= n,
                rest@ == orig.skip(i as int),
                kept@ == orig.take(i as int).filter(lock_kept(voter@, id)),
            decreases n - i,
        {
            let l = rest.remove(0);
            proof {
                assert(l == orig[i as int]);
                assert(orig.take(i + 1).drop_last() =~= orig.take(i as int));
                assert(orig.take(i + 1).last() == orig[i as int]);
                assert(orig.skip(i + 1) =~= orig.skip(i as int).remove(0));
                reveal(Seq::filter);
            }
            let keep = !(l.voter == *voter && l.proposal_id == id);
            if keep {
                kept.push(l);
            }
            i = i + 1;
        }
        assert(orig.take(n as int) =~= orig);
        self.conviction_locks = kept;
        assert(self@.votes =~= before.votes);
    }

    /// Cast a vote on a proposal with conviction. A second vote by the
    /// same voter replaces the first and its conviction lock.
    pub fn vote_with_conviction(
        &mut self,
        proposal_id: u64,
        voter: String,
        choice: VoteChoice,
        stake: u64,
        conviction: Conviction,
    ) -> (r: Result<(), String>)
        requires
            old(self)@.wf(),
        ensures
            final(self)@.wf(),
            r is Ok <==> old(self)@.has(proposal_id) && old(self)@.proposal(proposal_id).status
                == ProposalStatus::Voting,
            r matches Err(e) ==> final(self)@ == old(self)@ && if old(self)@.has(proposal_id) {
                e@ == msg_not_voting()
            } else {
                e@ == msg_proposal_not_found(proposal_id)
            },
            r is Ok ==> ({
                let old_v = old(self)@;
                let i = old_v.idx(proposal_id);
                let vs = old_v.votes[i];
                let unlock = sat_add_spec(vote_end_spec(old_v.proposals[i]), conviction.spec_lock_epochs());
                let w = conviction.spec_weighted_stake(stake);
                let replaced = has_voter(vs, voter@);
                let new_votes = if replaced {
                    let k = voter_index(vs, voter@);
                    vs.update(
                        k,
                        Vote {
                            voter: vs[k].voter,
                            choice,
                            stake,
                            conviction,
                            weight: w,
                            unlock_epoch: unlock,
                        },
                    )
                } else {
                    vs.push(Vote { voter, choice, stake, conviction, weight: w, unlock_epoch: unlock })
                };
                let base_locks = if replaced {
                    old_v.locks.filter(lock_kept(voter@, proposal_id))
                } else {
                    old_v.locks
                };
                &&& final(self)@.proposals == old_v.proposals
                &&& final(self)@.next_proposal_id == old_v.next_proposal_id
                &&& final(self)@.total_eligible_supply == old_v.total_eligible_supply
                &&& final(self)@.votes == old_v.votes.update(i, new_votes)
                &&& final(self)@.locks == if conviction.spec_lock_epochs() > 0 {
                    base_locks.push(
                        ConvictionLock { voter, proposal_id, amount: stake, unlock_epoch: unlock },
                    )
                } else {
                    base_locks
                }
            }),
            r is Ok ==> final(self)@.locks.filter(on_other_proposal(proposal_id)) == old(self)@.locks.filter(
                on_other_proposal(proposal_id),
            ),
            r is Ok ==> forall|j: int|
                0 <= j < old(self)@.locks.len() && !(old(self)@.locks[j].voter@ == voter@ && old(self)@.locks[j].proposal_id
                    == proposal_id) ==> final(self)@.locks.contains(#[trigger] old(self)@.locks[j]),
    {
        let ghost old_v = self@;
        let ghost vname = voter@;
        let i = match self.find(proposal_id) {
            None => return Err(proposal_not_found(proposal_id)),
            Some(i) => i,
        };
        if self.proposals[i].status != ProposalStatus::Voting {
            return Err(string_of("proposal is not in voting status"));
        }
        let vote_end = self.proposals[i].start_epoch.saturating_add(
            self.proposals[i].track.vote_period_epochs(),
        );
        let unlock_epoch = vote_end.saturating_add(conviction.lock_epochs());
        let weight = conviction.weighted_stake(stake);
        let ghost vs = old_v.votes[i as int];
        match self.find_vote(i, voter.as_str()) {
            Some(k) => {
                self.drop_locks_of(&voter, proposal_id);
                let old_vote = self.votes[i].remove(k);
                let updated = Vote {
                    voter: old_vote.voter,
                    choice,
                    stake,
                    conviction,
                    weight,
                    unlock_epoch,
                };
                self.votes[i].insert(k, updated);
                proof {
                    let nv = vs.update(k as int, updated);
                    assert(self.votes@[i as int]@ =~= nv);
                    assert(self@.votes =~= old_v.votes.update(i as int, nv));
                    assert forall|a: int, b: int| 0 <= a < b < nv.len() implies #[trigger] nv[a].voter@
                        != #[trigger] nv[b].voter@ by {
                        assert(nv[a].voter@ == vs[a].voter@);
                        assert(nv[b].voter@ == vs[b].voter@);
                    }
                }
            },
            None => {
                let v = Vote {
                    voter: voter.clone(),
                    choice,
                    stake,
                    conviction,
                    weight,
                    unlock_epoch,
                };
                self.votes[i].push(v);
                proof {
                    let nv = vs.push(v);
                    assert(self.votes@[i as int]@ =~= nv);
                    assert(self@.votes =~= old_v.votes.update(i as int, nv));
                    assert forall|a: int, b: int| 0 <= a < b < nv.len() implies #[trigger] nv[a].voter@
                        != #[trigger] nv[b].voter@ by {
                        if b == nv.len() - 1 {
                            assert(nv[a] == vs[a]);
                            assert(vs[a].voter@ != voter@);
                        }
                    }
                }
            },
        }
        let ghost base_locks = self@.locks;
        if conviction.lock_epochs() > 0 {
            let ghost mid = self@;
            self.conviction_locks.push(
                ConvictionLock { voter, proposal_id, amount: stake, unlock_epoch },
            );
            assert(self@.votes =~= mid.votes);
        }
        proof {
            let others = on_other_proposal(proposal_id);
            lemma_vote_change_keeps_other_locks(old_v.locks, vname, proposal_id);
            assert(base_locks.filter(others) == old_v.locks.filter(others));
            if conviction.spec_lock_epochs() > 0 {
                let x = self@.locks.last();
                assert(self@.locks == base_locks.push(x));
                lemma_filter_push_excluded(base_locks, x, others);
            } else {
                assert(self@.locks == base_locks);
            }
            assert forall|j: int|
                0 <= j < old_v.locks.len() && !(old_v.locks[j].voter@ == vname && old_v.locks[j].proposal_id
                    == proposal_id) implies self@.locks.contains(#[trigger] old_v.locks[j]) by {
                assert(base_locks.contains(old_v.locks[j]));
                let t = choose|t: int| 0 <= t < base_locks.len() && base_locks[t] == old_v.locks[j];
                assert(self@.locks[t] == old_v.locks[j]);
            }
        }
        Ok(())
    }

    /// Cast a vote with 1x conviction.
    pub fn vote(&mut self, proposal_id: u64, voter: String, choice: VoteChoice, weight: u64) -> (r: Result<
        (),
        String,
    >)
        requires
            old(self)@.wf(),
        ensures
            final(self)@.wf(),
            r is Ok <==> old(self)@.has(proposal_id) && old(self)@.proposal(proposal_id).status
                == ProposalStatus::Voting,
            r matches Err(e) ==> final(self)@ == old(self)@ && if old(self)@.has(proposal_id) {
                e@ == msg_not_voting()
            } else {
                e@ == msg_proposal_not_found(proposal_id)
            },
            r is Ok ==> ({
                let old_v = old(self)@;
                let i = old_v.idx(proposal_id);
                let vs = old_v.votes[i];
                let unlock = sat_add_spec(vote_end_spec(old_v.proposals[i]), 1);
                let replaced = has_voter(vs, voter@);
                let new_votes = if replaced {
                    let k = voter_index(vs, voter@);
                    vs.update(
                        k,
                        Vote {
                            voter: vs[k].voter,
                            choice,
                            stake: weight,
                            conviction: Conviction::X1,
                            weight: Conviction::X1.spec_weighted_stake(weight),
                            unlock_epoch: unlock,
                        },
                    )
                } else {
                    vs.push(
                        Vote {
                            voter,
                            choice,
                            stake: weight,
                            conviction: Conviction::X1,
                            weight: Conviction::X1.spec_weighted_stake(weight),
                            unlock_epoch: unlock,
                        },
                    )
                };
                let base_locks = if replaced {
                    old_v.locks.filter(lock_kept(voter@, proposal_id))
                } else {
                    old_v.locks
                };
                &&& final(self)@.proposals == old_v.proposals
                &&& final(self)@.next_proposal_id == old_v.next_proposal_id
                &&& final(self)@.total_eligible_supply == old_v.total_eligible_supply
                &&& final(self)@.votes == old_v.votes.update(i, new_votes)
                &&& final(self)@.locks == base_locks.push(
                    ConvictionLock { voter, proposal_id, amount: weight, unlock_epoch: unlock },
                )
            }),
    {
        self.vote_with_conviction(proposal_id, voter, choice, weight, Conviction::X1)
    }

    /// Withdraw a vote. The conviction lock stays until its unlock epoch.
    pub fn withdraw_vote(&mut self, proposal_id: u64, voter: &str) -> (r: Result<(), String>)
        requires
            old(self)@.wf(),
        ensures
            final(self)@.wf(),
            r is Ok <==> old(self)@.has(proposal_id) && old(self)@.proposal(proposal_id).status
                == ProposalStatus::Voting && has_voter(old(self)@.votes_of(proposal_id), voter@),
            r matches Err(e) ==> final(self)@ == old(self)@ && if !old(self)@.has(proposal_id) {
                e@ == msg_proposal_not_found(proposal_id)
            } else if old(self)@.proposal(proposal_id).status != ProposalStatus::Voting {
                e@ == msg_not_voting()
            } else {
                e@ == msg_not_voted(voter@, proposal_id)
            },
            r is Ok ==> ({
                let old_v = old(self)@;
                let i = old_v.idx(proposal_id);
                let vs = old_v.votes[i];
                final(self)@ == (GovernanceView {
                    votes: old_v.votes.update(i, vs.remove(voter_index(vs, voter@))),
                    ..old_v
                })
            }),
    {
        let ghost old_v = self@;
        let i = match self.find(proposal_id) {
            None => return Err(proposal_not_found(proposal_id)),
            Some(i) => i,
        };
        if self.proposals[i].status != ProposalStatus::Voting {
            return Err(string_of("proposal is not in voting status"));
        }
        match self.find_vote(i, voter) {
            None => {
                let mut e = string_of(voter);
                e.append(" has not voted on proposal ");
                push_dec(&mut e, proposal_id);
                Err(e)
            },
            Some(k) => {
                let ghost vs = old_v.votes[i as int];
                self.votes[i].remove(k);
                proof {
                    let nv = vs.remove(k as int);
                    assert(self.votes@[i as int]@ =~= nv);
                    assert(self@.votes =~= old_v.votes.update(i as int, nv));
                    assert forall|a: int, b: int| 0 <= a < b < nv.len() implies #[trigger] nv[a].voter@
                        != #[trigger] nv[b].voter@ by {
                        let a2 = if a < k { a } else { a + 1 };
                        let b2 = if b < k { b } else { b + 1 };
                        assert(nv[a] == vs[a2]);
                        assert(nv[b] == vs[b2]);
                        assert(old_v.votes[i as int][a2].voter@ != old_v.votes[i as int][b2].voter@);
                    }
                }
                Ok(())
            },
        }
    }

    fn sum_votes(votes: &Vec<Vote>, supply: u64) -> (r: (u64, u64, u64))
        requires
            tally_sums_fit(votes@, supply),
        ensures
            r.0 == yes_weight(votes@),
            r.1 == no_weight(votes@),
            supply > 0 ==> r.2 == voted_stake(votes@),
    {
        let mut yes: u64 = 0;
        let mut no: u64 = 0;
        let mut raw: u64 = 0;
        let mut k: usize = 0;
        assert(votes@.take(0) =~= Seq::<Vote>::empty());
        while k < votes.len()
            invariant
                tally_sums_fit(votes@, supply),
                k <= votes@.len(),
                yes == yes_weight(votes@.take(k as int)),
                no == no_weight(votes@.take(k as int)),
                supply > 0 ==> raw == voted_stake(votes@.take(k as int)),
            decreases votes@.len() - k,
        {
            proof {
                lemma_yes_prefix(votes@, k + 1);
                assert(votes@.take(k + 1).drop_last() =~= votes@.take(k as int));
            }
            let v = &votes[k];
            if v.choice == VoteChoice::Yes {
                yes = yes + v.weight;
            }
            if v.choice == VoteChoice::No {
                no = no + v.weight;
            }
            if supply > 0 && v.choice != VoteChoice::Abstain {
                raw = raw + v.stake;
            }
            k = k + 1;
        }
        assert(votes@.take(votes@.len() as int) =~= votes@);
        (yes, no, raw)
    }

    fn sums_fit(votes: &Vec<Vote>, supply: u64) -> (r: bool)
        ensures
            r == tally_sums_fit(votes@, supply),
    {
        let mut yes: u64 = 0;
        let mut no: u64 = 0;
        let mut raw: u64 = 0;
        let mut yes_ok = true;
        let mut no_ok = true;
        let mut raw_ok = true;
        let mut k: usize = 0;
        assert(votes@.take(0) =~= Seq::<Vote>::empty());
        while k < votes.len()
            invariant
                k <= votes@.len(),
                yes_ok ==> yes == yes_weight(votes@.take(k as int)),
                !yes_ok ==> yes_weight(votes@.take(k as int)) > u64::MAX,
                no_ok ==> no == no_weight(votes@.take(k as int)),
                !no_ok ==> no_weight(votes@.take(k as int)) > u64::MAX,
                raw_ok ==> raw == voted_stake(votes@.take(k as int)),
                !raw_ok ==> voted_stake(votes@.take(k as int)) > u64::MAX,
            decreases votes@.len() - k,
        {
            proof {
                assert(votes@.take(k + 1).drop_last() =~= votes@.take(k as int));
            }
            let v = &votes[k];
            if v.choice == VoteChoice::Yes && yes_ok {
                match yes.checked_add(v.weight) {
                    Some(t) => yes = t,
                    None => yes_ok = false,
                }
            }
            if v.choice == VoteChoice::No && no_ok {
                match no.checked_add(v.weight) {
                    Some(t) => no = t,
                    None => no_ok = false,
                }
            }
            if v.choice != VoteChoice::Abstain && raw_ok {
                match raw.checked_add(v.stake) {
                    Some(t) => raw = t,
                    None => raw_ok = false,
                }
            }
            k = k + 1;
        }
        assert(votes@.take(votes@.len() as int) =~= votes@);
        yes_ok && no_ok && (supply == 0 || raw_ok)
    }

    /// Whether `tally(proposal_id, current_epoch)` can add up its votes
    /// without overflow (always, when it would refuse the tally).
    pub fn tally_fits(&self, proposal_id: u64, current_epoch: u64) -> (r: bool)
        requires
            self@.wf(),
        ensures
            r == (self@.has(proposal_id) && self@.proposal(proposal_id).status == ProposalStatus::Voting
                && current_epoch >= vote_end_spec(self@.proposal(proposal_id)) ==> tally_sums_fit(
                self@.votes_of(proposal_id),
                self@.total_eligible_supply,
            )),
    {
        match self.find(proposal_id) {
            None => true,
            Some(i) => {
                if self.proposals[i].status != ProposalStatus::Voting {
                    return true;
                }
                let vote_end = self.proposals[i].start_epoch.saturating_add(
                    self.proposals[i].track.vote_period_epochs(),
                );
                if current_epoch < vote_end {
                    return true;
                }
                assert(self.votes@[i as int]@ == self@.votes[i as int]);
                Self::sums_fit(&self.votes[i], self.total_eligible_supply)
            },
        }
    }

    /// Tally votes with adaptive quorum biasing; the proposal becomes
    /// timelocked or rejected.
    pub fn tally(&mut self, proposal_id: u64, current_epoch: u64) -> (r: Result<ProposalStatus, String>)
        requires
            old(self)@.wf(),
            old(self)@.has(proposal_id) && old(self)@.proposal(proposal_id).status == ProposalStatus::Voting
                && current_epoch >= vote_end_spec(old(self)@.proposal(proposal_id)) ==> tally_sums_fit(
                old(self)@.votes_of(proposal_id),
                old(self)@.total_eligible_supply,
            ),
        ensures
            final(self)@.wf(),
            r is Ok <==> old(self)@.has(proposal_id) && old(self)@.proposal(proposal_id).status
                == ProposalStatus::Voting && current_epoch >= vote_end_spec(old(self)@.proposal(proposal_id)),
            r matches Err(e) ==> final(self)@ == old(self)@ && if !old(self)@.has(proposal_id) {
                e@ == msg_proposal_not_found(proposal_id)
            } else if old(self)@.proposal(proposal_id).status != ProposalStatus::Voting {
                e@ == msg_not_voting()
            } else {
                e@ == msg_vote_period_open()
            },
            r matches Ok(status) ==> ({
                let old_v = old(self)@;
                let i = old_v.idx(proposal_id);
                let p = old_v.proposals[i];
                &&& status == tally_status(p, old_v.votes[i], old_v.total_eligible_supply, current_epoch)
                &&& final(self)@ == (GovernanceView {
                    proposals: old_v.proposals.update(i, Proposal { status, ..p }),
                    ..old_v
                })
            }),
    {
        let ghost old_v = self@;
        let i = match self.find(proposal_id) {
            None => return Err(proposal_not_found(proposal_id)),
            Some(i) => i,
        };
        if self.proposals[i].status != ProposalStatus::Voting {
            return Err(string_of("proposal is not in voting status"));
        }
        let track = self.proposals[i].track;
        let vote_end = self.proposals[i].start_epoch.saturating_add(track.vote_period_epochs());
        if current_epoch < vote_end {
            return Err(string_of("voting period not over yet"));
        }
        let supply = self.total_eligible_supply;
        assert(self.votes@[i as int]@ == old_v.votes[i as int]);
        let (total_yes, total_no, raw_stake_voted) = Self::sum_votes(&self.votes[i], supply);
        let total_voted = total_yes.saturating_add(total_no);
        let turnout_pct = if supply > 0 {
            sat_mul(raw_stake_voted, 100) / supply
        } else {
            100
        };
        let new_status = if turnout_pct < track.min_turnout() && supply > 0 {
            ProposalStatus::Rejected
        } else {
            let threshold = adaptive_threshold(
                track.base_approval_threshold(),
                track.quorum_bias(),
                turnout_pct,
            );
            if total_voted == 0 {
                ProposalStatus::Rejected
            } else if sat_mul(total_yes, 100) / total_voted >= threshold {
                let execute_at = current_epoch.saturating_add(track.timelock_epochs());
                ProposalStatus::Timelocked { execute_at_epoch: execute_at }
            } else {
                ProposalStatus::Rejected
            }
        };
        self.proposals[i].status = new_status;
        assert(self@.votes =~= old_v.votes);
        assert(self@.proposals =~= old_v.proposals.update(
            i as int,
            Proposal { status: new_status, ..old_v.proposals[i as int] },
        ));
        Ok(new_status)
    }

    /// Execute a timelocked proposal once its timelock has expired;
    /// returns the payload to apply.
    pub fn execute(&mut self, proposal_id: u64, current_epoch: u64) -> (r: Result<String, String>)
        requires
            old(self)@.wf(),
        ensures
            final(self)@.wf(),
            r is Ok <==> old(self)@.has(proposal_id) && (match old(self)@.proposal(proposal_id).status {
                ProposalStatus::Timelocked { execute_at_epoch } => current_epoch >= execute_at_epoch,
                _ => false,
            }),
            r matches Err(e) ==> final(self)@ == old(self)@ && if !old(self)@.has(proposal_id) {
                e@ == msg_proposal_not_found(proposal_id)
            } else {
                match old(self)@.proposal(proposal_id).status {
                    ProposalStatus::Timelocked { execute_at_epoch } => e@ == msg_timelock_remaining(
                        (execute_at_epoch - current_epoch) as u64,
                    ),
                    _ => e@ == msg_not_timelocked(),
                }
            },
            r matches Ok(payload) ==> ({
                let old_v = old(self)@;
                let i = old_v.idx(proposal_id);
                let p = old_v.proposals[i];
                &&& payload@ == p.payload@
                &&& final(self)@ == (GovernanceView {
                    proposals: old_v.proposals.update(i, Proposal { status: ProposalStatus::Executed, ..p }),
                    ..old_v
                })
            }),
    {
        let ghost old_v = self@;
        let i = match self.find(proposal_id) {
            None => return Err(proposal_not_found(proposal_id)),
            Some(i) => i,
        };
        match self.proposals[i].status {
            ProposalStatus::Timelocked { execute_at_epoch } => {
                if current_epoch < execute_at_epoch {
                    let mut e = string_of("timelock not expired: ");
                    push_dec(&mut e, execute_at_epoch - current_epoch);
                    e.append(" epochs remaining");
                    return Err(e);
                }
            },
            _ => return Err(string_of("proposal is not timelocked")),
        }
        let payload = self.proposals[i].payload.clone();
        self.proposals[i].status = ProposalStatus::Executed;
        assert(self@.votes =~= old_v.votes);
        assert(self@.proposals =~= old_v.proposals.update(
            i as int,
            Proposal { status: ProposalStatus::Executed, ..old_v.proposals[i as int] },
        ));
        Ok(payload)
    }

    /// Conviction locks that can be released at `current_epoch`.
    pub fn expired_locks(&self, current_epoch: u64) -> (r: Vec<&ConvictionLock>)
        ensures
            r@.map_values(|l: &ConvictionLock| *l) == self@.locks.filter(lock_expired(current_epoch)),
    {
        let ghost locks = self@.locks;
        let mut out: Vec<&ConvictionLock> = Vec::new();
        let mut k: usize = 0;
        assert(locks.take(0) =~= Seq::<ConvictionLock>::empty());
        proof { reveal(Seq::filter); }
        while k < self.conviction_locks.len()
            invariant
                locks == self.conviction_locks@,
                k <= locks.len(),
                out@.map_values(|l: &ConvictionLock| *l) == locks.take(k as int).filter(lock_expired(current_epoch)),
            decreases locks.len() - k,
        {
            let l = &self.conviction_locks[k];
            proof {
                assert(locks.take(k + 1).drop_last() =~= locks.take(k as int));
                assert(locks.take(k + 1).last() == locks[k as int]);
                reveal(Seq::filter);
            }
            let ghost before = out@;
            if current_epoch >= l.unlock_epoch {
                out.push(l);
                assert(out@.map_values(|l: &ConvictionLock| *l) =~= before.map_values(|l: &ConvictionLock| *l).push(*l));
            }
            k = k + 1;
        }
        assert(locks.take(locks.len() as int) =~= locks);
        out
    }

    /// Release expired conviction locks: returns them in order and keeps
    /// the active ones.
    pub fn release_expired_locks(&mut self, current_epoch: u64) -> (r: Vec<ConvictionLock>)
        requires
            old(self)@.wf(),
        ensures
            final(self)@.wf(),
            r@ == old(self)@.locks.filter(lock_expired(current_epoch)),
            final(self)@ == (GovernanceView {
                locks: old(self)@.locks.filter(lock_active(current_epoch)),
                ..old(self)@
            }),
    {
        let ghost before = self@;
        let mut rest: Vec<ConvictionLock> = Vec::new();
        std::mem::swap(&mut rest, &mut self.conviction_locks);
        let ghost orig = rest@;
        let n = rest.len();
        let mut expired: Vec<ConvictionLock> = Vec::new();
        let mut active: Vec<ConvictionLock> = Vec::new();
        let mut i: usize = 0;
        assert(orig.skip(0) =~= orig);
        assert(orig.take(0) =~= Seq::<ConvictionLock>::empty());
        proof { reveal(Seq::filter); }
        while i < n
            invariant
                n == orig.len(),
                i <= n,
                rest@ == orig.skip(i as int),
                expired@ == orig.take(i as int).filter(lock_expired(current_epoch)),
                active@ == orig.take(i as int).filter(lock_active(current_epoch)),
            decreases n - i,
        {
            let l = rest.remove(0);
            proof {
                assert(l == orig[i as int]);
                assert(orig.take(i + 1).drop_last() =~= orig.take(i as int));
                assert(orig.take(i + 1).last() == orig[i as int]);
                assert(orig.skip(i + 1) =~= orig.skip(i as int).remove(0));
                reveal(Seq::filter);
            }
            if current_epoch >= l.unlock_epoch {
                expired.push(l);
            } else {
                active.push(l);
            }
            i = i + 1;
        }
        assert(orig.take(n as int) =~= orig);
        self.conviction_locks = active;
        assert(self@.votes =~= before.votes);
        expired
    }

    /// Get a proposal by id.
    pub fn get_proposal(&self, id: u64) -> (r: Option<&Proposal>)
        requires
            self@.wf(),
        ensures
            match r {
                Some(p) => self@.has(id) && *p == self@.proposal(id),
                None => !self@.has(id),
            },
    {
        match self.find(id) {
            Some(i) => Some(&self.proposals[i]),
            None => None,
        }
    }

    /// List all proposals in increasing id order.
    pub fn list_proposals(&self) -> (r: Vec<&Proposal>)
        requires
            self@.wf(),
        ensures
            r@.map_values(|p: &Proposal| *p) == self@.proposals,
    {
        let mut out: Vec<&Proposal> = Vec::new();
        let mut k: usize = 0;
        while k < self.proposals.len()
            invariant
                k <= self.proposals@.len(),
                out@.map_values(|p: &Proposal| *p) =~= self.proposals@.take(k as int),
            decreases self.proposals@.len() - k,
        {
            out.push(&self.proposals[k]);
            proof {
                assert(self.proposals@.take(k + 1) =~= self.proposals@.take(k as int).push(self.proposals@[k as int]));
            }
            k = k + 1;
        }
        assert(self.proposals@.take(self.proposals@.len() as int) =~= self.proposals@);
        out
    }

    /// Get the votes for a proposal.
    /// Proposals made by `address`, in id order.
    pub fn proposals_by_proposer(&self, address: &str) -> (r: Vec<&Proposal>)
        requires
            self@.wf(),
        ensures
            r@.map_values(|p: &Proposal| *p) == self@.proposals.filter(proposed_by(address@)),
    {
        let ghost ps = self@.proposals;
        let mut out: Vec<&Proposal> = Vec::new();
        let mut k: usize = 0;
        assert(ps.take(0) =~= Seq::<Proposal>::empty());
        proof { reveal(Seq::filter); }
        while k < self.proposals.len()
            invariant
                ps == self@.proposals,
                ps.len() == self.proposals@.len(),
                k <= ps.len(),
                out@.map_values(|p: &Proposal| *p) == ps.take(k as int).filter(proposed_by(address@)),
            decreases ps.len() - k,
        {
            proof { reveal(Seq::filter); }
            assert(ps.take(k + 1).drop_last() =~= ps.take(k as int));
            assert(ps.take(k + 1).last() == ps[k as int]);
            let ghost before = out@;
            if str_eq(self.proposals[k].proposer.as_str(), address) {
                out.push(&self.proposals[k]);
                assert(out@.map_values(|p: &Proposal| *p) =~= before.map_values(|p: &Proposal| *p).push(ps[k as int]));
            }
            k = k + 1;
        }
        assert(ps.take(ps.len() as int) =~= ps);
        out
    }

    /// The votes cast by `voter`, with their proposal ids, in proposal
    /// (ascending id) order.
    pub fn votes_by_voter(&self, voter: &str) -> (r: Vec<(u64, &Vote)>)
        requires
            self@.wf(),
        ensures
            r@.map_values(|x: (u64, &Vote)| (x.0, *x.1)) == votes_of_voter(self@.proposals, self@.votes, voter@),
    {
        let ghost ps = self@.proposals;
        let ghost vs = self@.votes;
        let mut out: Vec<(u64, &Vote)> = Vec::new();
        let mut i: usize = 0;
        assert(ps.take(0) =~= Seq::<Proposal>::empty());
        assert(vs.take(0) =~= Seq::<Seq<Vote>>::empty());
        while i < self.proposals.len()
            invariant
                self@.wf(),
                ps == self@.proposals,
                vs == self@.votes,
                ps.len() == self.proposals@.len(),
                ps.len() == vs.len(),
                i <= ps.len(),
                out@.map_values(|x: (u64, &Vote)| (x.0, *x.1)) == votes_of_voter(
                    ps.take(i as int),
                    vs.take(i as int),
                    voter@,
                ),
            decreases ps.len() - i,
        {
            assert(ps.take(i + 1).drop_last() =~= ps.take(i as int));
            assert(vs.take(i + 1).drop_last() =~= vs.take(i as int));
            assert(ps.take(i + 1).last() == ps[i as int]);
            assert(vs.take(i + 1).last() == vs[i as int]);
            let ghost before = out@;
            match self.find_vote(i, voter) {
                Some(k) => {
                    assert(self.votes@[i as int]@ == vs[i as int]);
                    out.push((self.proposals[i].id, &self.votes[i][k]));
                    assert(out@.map_values(|x: (u64, &Vote)| (x.0, *x.1)) =~= before.map_values(
                        |x: (u64, &Vote)| (x.0, *x.1),
                    ).push((ps[i as int].id, vs[i as int][k as int])));
                },
                None => {},
            }
            i = i + 1;
        }
        assert(ps.take(ps.len() as int) =~= ps);
        assert(vs.take(vs.len() as int) =~= vs);
        out
    }

    /// Conviction locks of `voter`, by unlock epoch (earliest first), locks
    /// with the same unlock epoch in creation order.
    pub fn locks_by_voter(&self, voter: &str) -> (r: Vec<&ConvictionLock>)
        ensures
            ({
                let locks = self@.locks;
                let out = r@.map_values(|l: &ConvictionLock| *l);
                exists|idx: Seq<int>|
                    {
                        &&& idx.len() == out.len()
                        &&& forall|k: int| 0 <= k < idx.len() ==> 0 <= #[trigger] idx[k] < locks.len()
                            && locks[idx[k]].voter@ == voter@ && out[k] == locks[idx[k]]
                        &&& forall|j: int| 0 <= j < locks.len() && (#[trigger] locks[j]).voter@ == voter@ ==> idx.contains(j)
                        &&& forall|a: int, b: int| 0 <= a < b < idx.len() ==> lock_before(locks, #[trigger] idx[a], #[trigger] idx[b])
                    }
            }),
    {
        let ghost locks = self@.locks;
        let mut idx: Vec<usize> = Vec::new();
        let mut i: usize = 0;
        while i < self.conviction_locks.len()
            invariant
                locks == self@.locks,
                locks.len() == self.conviction_locks@.len(),
                i <= locks.len(),
                forall|k: int| 0 <= k < idx@.len() ==> (#[trigger] idx@[k]) < i && locks[idx@[k] as int].voter@ == voter@,
                forall|j: int|
                    0 <= j < i && (#[trigger] locks[j]).voter@ == voter@ ==> exists|k: int|
                        0 <= k < idx@.len() && (#[trigger] idx@[k]) as int == j,
                forall|a: int, b: int|
                    0 <= a < b < idx@.len() ==> lock_before(locks, #[trigger] idx@[a] as int, #[trigger] idx@[b] as int),
            decreases locks.len() - i,
        {
            if str_eq(self.conviction_locks[i].voter.as_str(), voter) {
                let unlock = self.conviction_locks[i].unlock_epoch;
                let mut p: usize = 0;
                while p < idx.len() && self.conviction_locks[idx[p]].unlock_epoch <= unlock
                    invariant
                        locks == self@.locks,
                        locks.len() == self.conviction_locks@.len(),
                        i < locks.len(),
                        unlock == locks[i as int].unlock_epoch,
                        p <= idx@.len(),
                        forall|k: int| 0 <= k < idx@.len() ==> (#[trigger] idx@[k]) < i,
                        forall|q: int| 0 <= q < p ==> locks[(#[trigger] idx@[q]) as int].unlock_epoch <= unlock,
                    decreases idx@.len() - p,
                {
                    p = p + 1;
                }
                let ghost old_idx = idx@;
                idx.insert(p, i);
                proof {
                    let ni = idx@;
                    old_idx.insert_ensures(p as int, i);
                    assert forall|k: int| 0 <= k < ni.len() implies (#[trigger] ni[k]) < i + 1 && locks[ni[k] as int].voter@
                        == voter@ by {
                        if k < p {
                            assert(ni[k] == old_idx[k]);
                        } else if k > p {
                            assert(ni[k] == old_idx[k - 1]);
                        }
                    }
                    assert forall|j: int| 0 <= j < i + 1 && (#[trigger] locks[j]).voter@ == voter@ implies exists|k: int|
                        0 <= k < ni.len() && (#[trigger] ni[k]) as int == j by {
                        if j == i {
                            assert(ni[p as int] == i);
                        } else {
                            let k = choose|k: int| 0 <= k < old_idx.len() && (#[trigger] old_idx[k]) as int == j;
                            if k < p {
                                assert(ni[k] == old_idx[k]);
                            } else {
                                assert(ni[k + 1] == old_idx[k]);
                            }
                        }
                    }
                    assert forall|a: int, b: int| 0 <= a < b < ni.len() implies lock_before(
                        locks,
                        #[trigger] ni[a] as int,
                        #[trigger] ni[b] as int,
                    ) by {
                        if b == p {
                            assert(ni[a] == old_idx[a]);
                        } else if a == p {
                            assert(ni[b] == old_idx[b - 1]);
                            if (p as int) < old_idx.len() {
                                assert(locks[old_idx[p as int] as int].unlock_epoch > unlock);
                                if b - 1 > p {
                                    assert(lock_before(locks, old_idx[p as int] as int, old_idx[b - 1] as int));
                                }
                            }
                        } else {
                            let a0 = if a < p { a } else { a - 1 };
                            let b0 = if b < p { b } else { b - 1 };
                            assert(ni[a] == old_idx[a0]);
                            assert(ni[b] == old_idx[b0]);
                        }
                    }
                }
            }
            i = i + 1;
        }
        let mut out: Vec<&ConvictionLock> = Vec::new();
        let mut k: usize = 0;
        while k < idx.len()
            invariant
                locks == self@.locks,
                locks.len() == self.conviction_locks@.len(),
                k <= idx@.len(),
                out@.len() == k,
                forall|t: int| 0 <= t < idx@.len() ==> (#[trigger] idx@[t]) < locks.len(),
                forall|t: int| 0 <= t < k ==> *out@[t] == locks[idx@[t] as int],
            decreases idx@.len() - k,
        {
            out.push(&self.conviction_locks[idx[k]]);
            k = k + 1;
        }
        proof {
            let is = idx@.map_values(|x: usize| x as int);
            let o = out@.map_values(|l: &ConvictionLock| *l);
            assert forall|j: int| 0 <= j < locks.len() && (#[trigger] locks[j]).voter@ == voter@ implies is.contains(j) by {
                let t = choose|t: int| 0 <= t < idx@.len() && (#[trigger] idx@[t]) as int == j;
                assert(is[t] == j);
            }
            assert forall|t: int| 0 <= t < is.len() implies 0 <= #[trigger] is[t] < locks.len() && locks[is[t]].voter@
                == voter@ && o[t] == locks[is[t]] by {
                assert(is[t] == idx@[t] as int);
            }
            assert forall|a: int, b: int| 0 <= a < b < is.len() implies lock_before(locks, #[trigger] is[a], #[trigger] is[b]) by {
                assert(is[a] == idx@[a] as int && is[b] == idx@[b] as int);
            }
        }
        out
    }

    pub fn get_votes(&self, proposal_id: u64) -> (r: Option<&Vec<Vote>>)
        requires
            self@.wf(),
        ensures
            match r {
                Some(v) => self@.has(proposal_id) && v@ == self@.votes_of(proposal_id),
                None => !self@.has(proposal_id),
            },
    {
        match self.find(proposal_id) {
            Some(i) => {
                assert(self.votes@[i as int]@ == self@.votes[i as int]);
                Some(&self.votes[i])
            },
            None => None,
        }
    }
}

} // verus!
