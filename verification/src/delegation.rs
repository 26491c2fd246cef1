//! Vote delegation.
//!
//! Token holders delegate their voting power to another address, per
//! proposal track. Delegated power stacks; a delegator has at most one
//! delegation per track (a new one replaces the old one) and can revoke
//! it at any time. A delegator's direct vote overrides the delegation.
//! A delegate should stay under 4% of the circulating supply.

use vstd::prelude::*;
use crate::governance::ProposalTrack;
use crate::text::{seq_lt, str_eq, str_lt, string_of, lemma_seq_lt_order};

verus! {

/// Maximum share of the circulating supply that can be delegated to a
/// single delegate, in basis points (400 bps = 4%).
pub const MAX_DELEGATE_CAP_BPS: u64 = 400;

/// A single delegation record.
#[derive(Clone, Debug)]
pub struct Delegation {
    /// Address of the delegator.
    pub delegator: String,
    /// Address of the delegate.
    pub delegate: String,
    /// Proposal track this delegation applies to.
    pub track: ProposalTrack,
    /// Weight being delegated (voting power).
    pub weight: u64,
}

/// Name of a track as its debug rendering prints it.
pub open spec fn track_name(t: ProposalTrack) -> Seq<char> {
    match t {
        ProposalTrack::ParameterChange => "ParameterChange"@,
        ProposalTrack::ProtocolUpgrade => "ProtocolUpgrade"@,
        ProposalTrack::TreasurySmall => "TreasurySmall"@,
        ProposalTrack::TreasuryLarge => "TreasuryLarge"@,
        ProposalTrack::Emergency => "Emergency"@,
        ProposalTrack::Constitutional => "Constitutional"@,
    }
}

/// Position of a track when tracks are ordered by name.
pub open spec fn track_rank(t: ProposalTrack) -> nat {
    match t {
        ProposalTrack::Constitutional => 0,
        ProposalTrack::Emergency => 1,
        ProposalTrack::ParameterChange => 2,
        ProposalTrack::ProtocolUpgrade => 3,
        ProposalTrack::TreasuryLarge => 4,
        ProposalTrack::TreasurySmall => 5,
    }
}

/// Debug name of a track.
pub fn track_name_str(t: &ProposalTrack) -> (s: &'static str)
    ensures
        s@ == track_name(*t),
{
    match t {
        ProposalTrack::ParameterChange => "ParameterChange",
        ProposalTrack::ProtocolUpgrade => "ProtocolUpgrade",
        ProposalTrack::TreasurySmall => "TreasurySmall",
        ProposalTrack::TreasuryLarge => "TreasuryLarge",
        ProposalTrack::Emergency => "Emergency",
        ProposalTrack::Constitutional => "Constitutional",
    }
}

/// Whether `d` is the record `(delegator, track)`.
pub open spec fn has_key(d: Delegation, delegator: Seq<char>, track: ProposalTrack) -> bool {
    d.delegator@ == delegator && d.track == track
}

/// Sum of the weights delegated to `delegate` on `track`, leaving out
/// the delegators listed in `excluded`.
pub open spec fn weight_to(
    entries: Seq<Delegation>,
    delegate: Seq<char>,
    track: ProposalTrack,
    excluded: Seq<Seq<char>>,
) -> nat
    decreases entries.len(),
{
    if entries.len() == 0 {
        0
    } else {
        let d = entries.last();
        weight_to(entries.drop_last(), delegate, track, excluded) + if d.delegate@ == delegate && d.track == track
            && !excluded.contains(d.delegator@) {
            d.weight as nat
        } else {
            0nat
        }
    }
}

/// A sum clamped to `u64::MAX`.
pub open spec fn saturate(n: nat) -> u64 {
    if n > u64::MAX { u64::MAX } else { n as u64 }
}

/// Whether `total` is strictly below 4% of `supply`, compared exactly:
/// `total / supply < 400 / 10_000`.
pub open spec fn under_delegate_cap(total: u64, supply: u64) -> bool {
    total * 10_000 < supply * MAX_DELEGATE_CAP_BPS
}

pub open spec fn msg_no_delegation(delegator: Seq<char>, track: ProposalTrack) -> Seq<char> {
    "no delegation found for "@ + delegator + " on track "@ + track_name(track)
}

/// Order of listed records: by track name, then by delegator.
pub open spec fn listed_before(a: Delegation, b: Delegation) -> bool {
    track_rank(a.track) < track_rank(b.track) || (track_rank(a.track) == track_rank(b.track) && seq_lt(
        a.delegator@,
        b.delegator@,
    ))
}

/// Whether a record is selected by a listing for address `who`: by its
/// delegator (`by_delegator`) or by its delegate.
pub open spec fn selected(d: Delegation, who: Seq<char>, by_delegator: bool) -> bool {
    if by_delegator { d.delegator@ == who } else { d.delegate@ == who }
}

/// `out` holds exactly the selected records of `entries`, each once,
/// in `listed_before` order.
pub open spec fn is_listing(out: Seq<Delegation>, entries: Seq<Delegation>, who: Seq<char>, by_delegator: bool) -> bool {
    &&& forall|k: int| 0 <= k < out.len() ==> selected(#[trigger] out[k], who, by_delegator) && entries.contains(out[k])
    &&& forall|i: int| 0 <= i < entries.len() && selected(#[trigger] entries[i], who, by_delegator) ==> out.contains(entries[i])
    &&& forall|a: int, b: int| 0 <= a < b < out.len() ==> listed_before(#[trigger] out[a], #[trigger] out[b])
}

/// A direct vote only takes weight away from a delegate: the weight
/// counted with any set of direct voters excluded is at most the total
/// delegated.
pub proof fn lemma_direct_votes_only_lower_weight(
    entries: Seq<Delegation>,
    delegate: Seq<char>,
    track: ProposalTrack,
    direct_voters: Seq<Seq<char>>,
)
    ensures
        weight_to(entries, delegate, track, direct_voters) <= weight_to(entries, delegate, track, Seq::empty()),
    decreases entries.len(),
{
    if entries.len() > 0 {
        lemma_direct_votes_only_lower_weight(entries.drop_last(), delegate, track, direct_voters);
    }
}

/// Delegated weight stacks without overflow: the (saturating) weight a
/// delegate carries on a track is at least the weight of every delegation
/// it receives there from a delegator who did not vote directly.
pub proof fn lemma_effective_weight_covers_each(
    entries: Seq<Delegation>,
    delegate: Seq<char>,
    track: ProposalTrack,
    direct_voters: Seq<Seq<char>>,
    k: int,
)
    requires
        0 <= k < entries.len(),
        entries[k].delegate@ == delegate,
        entries[k].track == track,
        !direct_voters.contains(entries[k].delegator@),
    ensures
        saturate(weight_to(entries, delegate, track, direct_voters)) >= entries[k].weight,
    decreases entries.len(),
{
    if k < entries.len() - 1 {
        lemma_effective_weight_covers_each(entries.drop_last(), delegate, track, direct_voters, k);
    }
}

/// Revoking a fresh delegation gives back the records as they were
/// before it was made.
pub proof fn lemma_revoke_undoes_delegate(
    before: Seq<Delegation>,
    after_delegate: Seq<Delegation>,
    after_revoke: Seq<Delegation>,
    delegator: Seq<char>,
    track: ProposalTrack,
)
    requires
        keys_unique(before),
        !has_record(before, delegator, track),
        after_delegate.len() == before.len() + 1,
        forall|j: int| 0 <= j < before.len() ==> after_delegate[j] == before[j],
        has_key(after_delegate[before.len() as int], delegator, track),
        after_revoke == after_delegate.remove(record_index(after_delegate, delegator, track)),
    ensures
        after_revoke == before,
{
    let n = before.len() as int;
    assert(has_record(after_delegate, delegator, track));
    let c = record_index(after_delegate, delegator, track);
    if c != n {
        assert(has_key(before[c], delegator, track));
    }
    assert(after_revoke =~= before);
}

/// Removing one record (as `revoke` does) lowers the weight counted for
/// any delegate and track by exactly that record's weight when the record
/// counts there, and leaves it unchanged otherwise.
pub proof fn lemma_revoke_lowers_weight(
    entries: Seq<Delegation>,
    k: int,
    delegate: Seq<char>,
    track: ProposalTrack,
    excluded: Seq<Seq<char>>,
)
    requires
        0 <= k < entries.len(),
    ensures
        weight_to(entries.remove(k), delegate, track, excluded) + (if entries[k].delegate@ == delegate
            && entries[k].track == track && !excluded.contains(entries[k].delegator@) {
            entries[k].weight as nat
        } else {
            0nat
        }) == weight_to(entries, delegate, track, excluded),
    decreases entries.len(),
{
    if k == entries.len() - 1 {
        assert(entries.remove(k) =~= entries.drop_last());
    } else {
        lemma_revoke_lowers_weight(entries.drop_last(), k, delegate, track, excluded);
        assert(entries.remove(k).drop_last() =~= entries.drop_last().remove(k));
        assert(entries.remove(k).last() == entries.last());
    }
}

/// Manages vote delegations across all tracks.
pub struct DelegationManager {
    delegations: Vec<Delegation>,
}

impl View for DelegationManager {
    type V = Seq<Delegation>;

    closed spec fn view(&self) -> Seq<Delegation> {
        self.delegations@
    }
}

/// At most one record per `(delegator, track)`.
pub open spec fn keys_unique(entries: Seq<Delegation>) -> bool {
    forall|i: int, j: int|
        0 <= i < j < entries.len() ==> !has_key(#[trigger] entries[j], (#[trigger] entries[i]).delegator@, entries[i].track)
}

/// Whether some record has key `(delegator, track)`.
pub open spec fn has_record(entries: Seq<Delegation>, delegator: Seq<char>, track: ProposalTrack) -> bool {
    exists|i: int| 0 <= i < entries.len() && has_key(#[trigger] entries[i], delegator, track)
}

/// Index of the record with key `(delegator, track)` (meaningful when
/// `has_record`).
pub open spec fn record_index(entries: Seq<Delegation>, delegator: Seq<char>, track: ProposalTrack) -> int {
    choose|i: int| 0 <= i < entries.len() && has_key(#[trigger] entries[i], delegator, track)
}

proof fn lemma_weight_prefix(entries: Seq<Delegation>, delegate: Seq<char>, track: ProposalTrack, excluded: Seq<Seq<char>>, i: int)
    requires
        0 <= i <= entries.len(),
    ensures
        weight_to(entries.take(i), delegate, track, excluded) <= weight_to(entries, delegate, track, excluded),
    decreases entries.len() - i,
{
    if i < entries.len() {
        lemma_weight_prefix(entries, delegate, track, excluded, i + 1);
        assert(entries.take(i + 1).drop_last() =~= entries.take(i));
    } else {
        assert(entries.take(i) =~= entries);
    }
}

/// Whether `s` is one of the strings of `list`.
fn contains_str(list: &[String], s: &str) -> (r: bool)
    ensures
        r == list@.map_values(|x: String| x@).contains(s@),
{
    let ghost names = list@.map_values(|x: String| x@);
    let mut j: usize = 0;
    while j < list.len()
        invariant
            j <= list@.len(),
            names == list@.map_values(|x: String| x@),
            forall|t: int| 0 <= t < j ==> names[t] != s@,
        decreases list@.len() - j,
    {
        if str_eq(list[j].as_str(), s) {
            assert(names[j as int] == s@);
            return true;
        }
        j = j + 1;
    }
    false
}

fn rank_of(t: &ProposalTrack) -> (r: u8)
    ensures
        r == track_rank(*t),
{
    match t {
        ProposalTrack::Constitutional => 0,
        ProposalTrack::Emergency => 1,
        ProposalTrack::ParameterChange => 2,
        ProposalTrack::ProtocolUpgrade => 3,
        ProposalTrack::TreasuryLarge => 4,
        ProposalTrack::TreasurySmall => 5,
    }
}

fn before(a: &Delegation, b: &Delegation) -> (r: bool)
    ensures
        r == listed_before(*a, *b),
{
    let ra = rank_of(&a.track);
    let rb = rank_of(&b.track);
    ra < rb || (ra == rb && str_lt(a.delegator.as_str(), b.delegator.as_str()))
}

/// `listed_before` is a strict order, total on records with distinct keys.
proof fn lemma_listed_before(a: Delegation, b: Delegation, c: Delegation)
    ensures
        !listed_before(a, a),
        listed_before(a, b) && listed_before(b, c) ==> listed_before(a, c),
        !has_key(b, a.delegator@, a.track) ==> listed_before(a, b) || listed_before(b, a),
{
    lemma_seq_lt_order(a.delegator@, b.delegator@, c.delegator@);
    if track_rank(a.track) == track_rank(b.track) {
        assert(a.track == b.track);
    }
}

impl DelegationManager {
    pub fn new() -> (m: Self)
        ensures
            m@.len() == 0,
            keys_unique(m@),
    {
        DelegationManager { delegations: Vec::new() }
    }

    fn find(&self, delegator: &str, track: &ProposalTrack) -> (r: Option<usize>)
        requires
            keys_unique(self@),
        ensures
            match r {
                Some(k) => k < self@.len() && has_record(self@, delegator@, *track) && record_index(
                    self@,
                    delegator@,
                    *track,
                ) == k,
                None => !has_record(self@, delegator@, *track),
            },
    {
        let mut i: usize = 0;
        while i < self.delegations.len()
            invariant
                keys_unique(self@),
                i <= self@.len(),
                forall|j: int| 0 <= j < i ==> !has_key(self@[j], delegator@, *track),
            decreases self@.len() - i,
        {
            let d = &self.delegations[i];
            if d.track == *track && str_eq(d.delegator.as_str(), delegator) {
                proof {
                    let e = self@;
                    assert(has_key(e[i as int], delegator@, *track));
                    let c = record_index(e, delegator@, *track);
                    if c < i {
                        assert(!has_key(e[i as int], e[c].delegator@, e[c].track));
                    } else if c > i {
                        assert(!has_key(e[c], e[i as int].delegator@, e[i as int].track));
                    }
                }
                return Some(i);
            }
            i = i + 1;
        }
        None
    }

    /// Delegate voting power from `delegator` to `delegate` on a track,
    /// replacing an earlier delegation of the same delegator on that
    /// track. Self-delegation and zero weight are refused.
    pub fn delegate(&mut self, delegator: &str, delegate: &str, track: &ProposalTrack, weight: u64) -> (r:
        Result<(), String>)
        requires
            keys_unique(old(self)@),
        ensures
            keys_unique(final(self)@),
            r is Ok <==> delegator@ != delegate@ && weight != 0,
            r matches Err(e) ==> final(self)@ == old(self)@ && if delegator@ == delegate@ {
                e@ == "cannot delegate to self"@
            } else {
                e@ == "delegation weight must be greater than zero"@
            },
            r is Ok ==> ({
                let old_e = old(self)@;
                let new_e = final(self)@;
                let replaced = has_record(old_e, delegator@, *track);
                let k = if replaced { record_index(old_e, delegator@, *track) } else { old_e.len() as int };
                &&& new_e.len() == if replaced { old_e.len() } else { old_e.len() + 1 }
                &&& forall|j: int| 0 <= j < old_e.len() && j != k ==> new_e[j] == old_e[j]
                &&& new_e[k].delegator@ == delegator@
                &&& new_e[k].delegate@ == delegate@
                &&& new_e[k].track == *track
                &&& new_e[k].weight == weight
            }),
    {
        if str_eq(delegator, delegate) {
            return Err(string_of("cannot delegate to self"));
        }
        if weight == 0 {
            return Err(string_of("delegation weight must be greater than zero"));
        }
        let record = Delegation {
            delegator: string_of(delegator),
            delegate: string_of(delegate),
            track: *track,
            weight,
        };
        let ghost old_e = self@;
        match self.find(delegator, track) {
            Some(k) => {
                self.delegations.set(k, record);
                proof {
                    let e = self@;
                    assert forall|i: int, j: int| 0 <= i < j < e.len() implies !has_key(
                        #[trigger] e[j],
                        (#[trigger] e[i]).delegator@,
                        e[i].track,
                    ) by {
                        if i == k {
                            assert(!has_key(old_e[j], old_e[i].delegator@, old_e[i].track));
                        } else if j == k {
                            assert(!has_key(old_e[j], old_e[i].delegator@, old_e[i].track));
                        } else {
                            assert(!has_key(old_e[j], old_e[i].delegator@, old_e[i].track));
                        }
                    }
                }
            },
            None => {
                self.delegations.push(record);
                proof {
                    let e = self@;
                    assert forall|i: int, j: int| 0 <= i < j < e.len() implies !has_key(
                        #[trigger] e[j],
                        (#[trigger] e[i]).delegator@,
                        e[i].track,
                    ) by {
                        if j == old_e.len() {
                            assert(!has_key(old_e[i], delegator@, *track));
                        } else {
                            assert(!has_key(old_e[j], old_e[i].delegator@, old_e[i].track));
                        }
                    }
                }
            },
        }
        Ok(())
    }

    /// Revoke the delegation of `delegator` on a track.
    pub fn revoke(&mut self, delegator: &str, track: &ProposalTrack) -> (r: Result<(), String>)
        requires
            keys_unique(old(self)@),
        ensures
            keys_unique(final(self)@),
            r is Ok <==> has_record(old(self)@, delegator@, *track),
            r matches Err(e) ==> final(self)@ == old(self)@ && e@ == msg_no_delegation(delegator@, *track),
            r is Ok ==> final(self)@ == old(self)@.remove(record_index(old(self)@, delegator@, *track)),
            !has_record(final(self)@, delegator@, *track),
    {
        let ghost old_e = self@;
        match self.find(delegator, track) {
            Some(k) => {
                self.delegations.remove(k);
                proof {
                    let e = self@;
                    assert forall|i: int, j: int| 0 <= i < j < e.len() implies !has_key(
                        #[trigger] e[j],
                        (#[trigger] e[i]).delegator@,
                        e[i].track,
                    ) by {
                        let i2 = if i < k { i } else { i + 1 };
                        let j2 = if j < k { j } else { j + 1 };
                        assert(e[i] == old_e[i2] && e[j] == old_e[j2]);
                        assert(!has_key(old_e[j2], old_e[i2].delegator@, old_e[i2].track));
                    }
                    if has_record(e, delegator@, *track) {
                        let c = choose|c: int| 0 <= c < e.len() && has_key(#[trigger] e[c], delegator@, *track);
                        let c2 = if c < k { c } else { c + 1 };
                        assert(e[c] == old_e[c2]);
                        if c2 < k {
                            assert(!has_key(old_e[k as int], old_e[c2].delegator@, old_e[c2].track));
                        } else {
                            assert(!has_key(old_e[c2], old_e[k as int].delegator@, old_e[k as int].track));
                        }
                    }
                }
                Ok(())
            },
            None => {
                let mut e = string_of("no delegation found for ");
                e.append(delegator);
                e.append(" on track ");
                e.append(track_name_str(track));
                Err(e)
            },
        }
    }

    fn sum_to(&self, delegate: &str, track: &ProposalTrack, excluded: &[String]) -> (r: u64)
        ensures
            r == saturate(weight_to(self@, delegate@, *track, excluded@.map_values(|s: String| s@))),
    {
        let ghost ex = excluded@.map_values(|s: String| s@);
        let ghost e = self@;
        let mut acc: u64 = 0;
        let mut i: usize = 0;
        assert(e.take(0) =~= Seq::<Delegation>::empty());
        while i < self.delegations.len()
            invariant
                e == self@,
                ex == excluded@.map_values(|s: String| s@),
                i <= e.len(),
                acc == saturate(weight_to(e.take(i as int), delegate@, *track, ex)),
            decreases e.len() - i,
        {
            let d = &self.delegations[i];
            assert(e.take(i + 1).drop_last() =~= e.take(i as int));
            assert(e.take(i + 1).last() == e[i as int]);
            if d.track == *track && str_eq(d.delegate.as_str(), delegate) && !contains_str(excluded, d.delegator.as_str()) {
                acc = acc.saturating_add(d.weight);
            }
            i = i + 1;
        }
        assert(e.take(e.len() as int) =~= e);
        acc
    }

    /// Weight delegated to `voter` on `track`, excluding delegators who
    /// voted directly (their direct vote overrides the delegation);
    /// saturates at `u64::MAX`.
    pub fn effective_weight(&self, voter: &str, track: &ProposalTrack, direct_voters: &[String]) -> (r: u64)
        ensures
            r == saturate(weight_to(self@, voter@, *track, direct_voters@.map_values(|s: String| s@))),
    {
        self.sum_to(voter, track, direct_voters)
    }

    /// Total weight delegated to `delegate` on `track`, saturating.
    pub fn total_delegated_to(&self, delegate: &str, track: &ProposalTrack) -> (r: u64)
        ensures
            r == saturate(weight_to(self@, delegate@, *track, Seq::empty())),
    {
        let none: Vec<String> = Vec::new();
        let r = self.sum_to(delegate, track, none.as_slice());
        assert(none@.map_values(|s: String| s@) =~= Seq::<Seq<char>>::empty());
        r
    }

    /// Whether the total delegated to `delegate` on `track` is strictly
    /// below 4% of the circulating supply.
    pub fn check_delegate_cap(&self, delegate: &str, track: &ProposalTrack, circulating_supply: u64) -> (r: bool)
        ensures
            r == under_delegate_cap(saturate(weight_to(self@, delegate@, *track, Seq::empty())), circulating_supply),
    {
        let total = self.total_delegated_to(delegate, track);
        (total as u128) * 10_000 < (circulating_supply as u128) * (MAX_DELEGATE_CAP_BPS as u128)
    }
    /// Indices of the selected records, in listing order.
    fn listing_indices(&self, who: &str, by_delegator: bool) -> (idx: Vec<usize>)
        requires
            keys_unique(self@),
        ensures
            forall|k: int| 0 <= k < idx@.len() ==> (#[trigger] idx@[k]) < self@.len() && selected(
                self@[idx@[k] as int],
                who@,
                by_delegator,
            ),
            forall|j: int|
                0 <= j < self@.len() && selected(#[trigger] self@[j], who@, by_delegator) ==> exists|k: int|
                    0 <= k < idx@.len() && (#[trigger] idx@[k]) as int == j,
            forall|a: int, b: int|
                0 <= a < b < idx@.len() ==> listed_before(
                    #[trigger] self@[idx@[a] as int],
                    #[trigger] self@[idx@[b] as int],
                ),
    {
        let ghost e = self@;
        let mut idx: Vec<usize> = Vec::new();
        let mut i: usize = 0;
        while i < self.delegations.len()
            invariant
                e == self@,
                keys_unique(e),
                i <= e.len(),
                forall|k: int| 0 <= k < idx@.len() ==> (#[trigger] idx@[k]) < i && selected(e[idx@[k] as int], who@, by_delegator),
                forall|j: int|
                    0 <= j < i && selected(#[trigger] e[j], who@, by_delegator) ==> exists|k: int|
                        0 <= k < idx@.len() && (#[trigger] idx@[k]) as int == j,
                forall|a: int, b: int|
                    0 <= a < b < idx@.len() ==> listed_before(#[trigger] e[idx@[a] as int], #[trigger] e[idx@[b] as int]),
            decreases e.len() - i,
        {
            let d = &self.delegations[i];
            let hit = if by_delegator {
                str_eq(d.delegator.as_str(), who)
            } else {
                str_eq(d.delegate.as_str(), who)
            };
            if hit {
                let mut p: usize = 0;
                while p < idx.len() && !before(d, &self.delegations[idx[p]])
                    invariant
                        e == self@,
                        d == e[i as int],
                        i < e.len(),
                        p <= idx@.len(),
                        forall|k: int| 0 <= k < idx@.len() ==> (#[trigger] idx@[k]) < i,
                        forall|q: int| 0 <= q < p ==> !listed_before(e[i as int], #[trigger] e[idx@[q] as int]),
                    decreases idx@.len() - p,
                {
                    p = p + 1;
                }
                let ghost old_idx = idx@;
                idx.insert(p, i);
                proof {
                    let ni = idx@;
                    old_idx.insert_ensures(p as int, i);
                    assert forall|k: int| 0 <= k < ni.len() implies (#[trigger] ni[k]) < i + 1 && selected(
                        e[ni[k] as int],
                        who@,
                        by_delegator,
                    ) by {
                        if k < p {
                            assert(ni[k] == old_idx[k]);
                        } else if k > p {
                            assert(ni[k] == old_idx[k - 1]);
                        }
                    }
                    assert forall|j: int| 0 <= j < i + 1 && selected(#[trigger] e[j], who@, by_delegator) implies exists|k: int|
                        0 <= k < ni.len() && (#[trigger] ni[k]) as int == j by {
                        if j == i {
                            assert(ni[p as int] == i);
                        } else {
                            let k = choose|k: int| 0 <= k < old_idx.len() && (#[trigger] old_idx[k]) as int == j;
                            if k < p {
                                assert(ni[k] == old_idx[k]);
                            } else {
                                assert(ni[k + 1] == old_idx[k]);
                            }
                        }
                    }
                    assert forall|a: int, b: int| 0 <= a < b < ni.len() implies listed_before(
                        #[trigger] e[ni[a] as int],
                        #[trigger] e[ni[b] as int],
                    ) by {
                        let x = e[i as int];
                        if b == p {
                            let y = e[old_idx[a] as int];
                            assert(ni[a] == old_idx[a]);
                            assert(!listed_before(x, y));
                            assert(!has_key(x, y.delegator@, y.track));
                            lemma_listed_before(y, x, x);
                        } else if a == p {
                            assert(ni[b] == old_idx[b - 1]);
                            let z = e[old_idx[b - 1] as int];
                            if p < idx@.len() - 1 {
                                let w = e[old_idx[p as int] as int];
                                assert(listed_before(x, w));
                                if b - 1 > p {
                                    assert(listed_before(w, z));
                                }
                                lemma_listed_before(x, w, z);
                            }
                        } else {
                            let a0 = if a < p { a } else { a - 1 };
                            let b0 = if b < p { b } else { b - 1 };
                            assert(ni[a] == old_idx[a0]);
                            assert(ni[b] == old_idx[b0]);
                        }
                    }
                }
            }
            i = i + 1;
        }
        idx
    }

    fn listing(&self, who: &str, by_delegator: bool) -> (out: Vec<&Delegation>)
        requires
            keys_unique(self@),
        ensures
            is_listing(out@.map_values(|r: &Delegation| *r), self@, who@, by_delegator),
    {
        let idx = self.listing_indices(who, by_delegator);
        let ghost e = self@;
        let mut out: Vec<&Delegation> = Vec::new();
        let mut k: usize = 0;
        while k < idx.len()
            invariant
                e == self@,
                k <= idx@.len(),
                out@.len() == k,
                forall|t: int| 0 <= t < idx@.len() ==> (#[trigger] idx@[t]) < e.len(),
                forall|t: int| 0 <= t < k ==> *out@[t] == e[idx@[t] as int],
            decreases idx@.len() - k,
        {
            out.push(&self.delegations[idx[k]]);
            k = k + 1;
        }
        proof {
            let os = out@.map_values(|r: &Delegation| *r);
            assert forall|t: int| 0 <= t < os.len() implies selected(#[trigger] os[t], who@, by_delegator) && e.contains(
                os[t],
            ) by {
                assert(os[t] == e[idx@[t] as int]);
            }
            assert forall|j: int| 0 <= j < e.len() && selected(#[trigger] e[j], who@, by_delegator) implies os.contains(e[j]) by {
                let t = choose|t: int| 0 <= t < idx@.len() && (#[trigger] idx@[t]) as int == j;
                assert(os[t] == e[idx@[t] as int]);
                assert(idx@[t] as int == j);
                assert(os[t] == e[j]);
            }
            assert forall|a: int, b: int| 0 <= a < b < os.len() implies listed_before(#[trigger] os[a], #[trigger] os[b]) by {
                assert(os[a] == e[idx@[a] as int]);
                assert(os[b] == e[idx@[b] as int]);
            }
        }
        out
    }

    /// All delegations made by `delegator`, one per track, ordered by
    /// track name.
    pub fn delegations_from(&self, delegator: &str) -> (out: Vec<&Delegation>)
        requires
            keys_unique(self@),
        ensures
            is_listing(out@.map_values(|r: &Delegation| *r), self@, delegator@, true),
    {
        self.listing(delegator, true)
    }

    /// All delegations made to `delegate`, ordered by track name, then by
    /// delegator.
    pub fn delegations_to(&self, delegate: &str) -> (out: Vec<&Delegation>)
        requires
            keys_unique(self@),
        ensures
            is_listing(out@.map_values(|r: &Delegation| *r), self@, delegate@, false),
    {
        self.listing(delegate, false)
    }
}

} // verus!
