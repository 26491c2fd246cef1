//! The Technical Council and the Service Operators Council.
//!
//! The Technical Council (at most 11 members, quorum 7) whitelists
//! emergency proposals by simple majority, vetoes timelocked proposals
//! with 3 approvals (or a majority of a smaller council), and gates
//! emergency actions behind a 2/3 supermajority. The Service Operators
//! Council endorses proposals by majority and can veto SLA-breaking
//! changes with 2 operators (or a majority if fewer).

use vstd::prelude::*;
use crate::text::{dec, push_dec, seq_lt, str_eq, str_lt, string_of, lemma_seq_lt_order};

verus! {

/// A council member.
#[derive(Clone, Debug)]
pub struct CouncilMember {
    /// Member's public key (hex-encoded).
    pub pubkey: String,
    /// Human-readable name.
    pub name: String,
    /// Epoch when the term started.
    pub term_start_epoch: u64,
    /// Epoch when the term expires.
    pub term_end_epoch: u64,
}

/// Information about a service operator council member.
#[derive(Clone, Debug)]
pub struct OperatorInfo {
    /// Operator identifier (public key or organization name).
    pub operator_id: String,
    /// Description of the operator's infrastructure.
    pub description: String,
    /// Number of nodes operated.
    pub node_count: u32,
    /// Whether this operator runs TEE-attested nodes.
    pub tee_attested: bool,
}

/// The keys of a sequence of strings.
pub open spec fn string_views(s: Seq<String>) -> Seq<Seq<char>> {
    s.map_values(|x: String| x@)
}

/// Number of distinct entries of `keys` that belong to `members`.
pub open spec fn distinct_hits(keys: Seq<Seq<char>>, members: Seq<Seq<char>>) -> nat
    decreases keys.len(),
{
    if keys.len() == 0 {
        0
    } else {
        let prefix = keys.drop_last();
        distinct_hits(prefix, members) + if members.contains(keys.last()) && !prefix.contains(keys.last()) {
            1nat
        } else {
            0nat
        }
    }
}

/// Smallest number of members that is a strict majority of `n`.
pub open spec fn majority(n: nat) -> nat {
    n / 2 + 1
}

/// `ceil(2n / 3)`: the smallest `k` with `3k >= 2n`.
pub open spec fn two_thirds(n: nat) -> nat {
    (2 * n + 2) / 3
}

/// The two-thirds threshold is the ceiling of two thirds of the council
/// size: it covers `2n/3`, and one approval fewer would not.
pub proof fn lemma_two_thirds_is_ceiling(n: nat)
    ensures
        3 * two_thirds(n) >= 2 * n,
        two_thirds(n) == 0 || 3 * (two_thirds(n) - 1) < 2 * n,
        two_thirds(n) <= n,
{
}

pub open spec fn msg_council_full(max_size: usize) -> Seq<char> {
    "council is full ("@ + dec(max_size as nat) + " members)"@
}

pub open spec fn msg_need_approvals(required: nat, got: nat) -> Seq<char> {
    "need "@ + dec(required) + " council approvals, got "@ + dec(got)
}

pub open spec fn msg_need_veto_approvals(required: nat, got: nat) -> Seq<char> {
    "need "@ + dec(required) + " council approvals for veto, got "@ + dec(got)
}

pub open spec fn msg_need_endorsements(required: nat, got: nat) -> Seq<char> {
    "need "@ + dec(required) + " operator endorsements, got "@ + dec(got)
}

pub open spec fn msg_need_sla_vetoes(required: nat, got: nat) -> Seq<char> {
    "need "@ + dec(required) + " operators for SLA veto, got "@ + dec(got)
}

/// Whether `members` holds the key `k`.
fn contains_key(members: &Vec<String>, k: &str) -> (r: bool)
    ensures
        r == string_views(members@).contains(k@),
{
    let mut i: usize = 0;
    while i < members.len()
        invariant
            i <= members@.len(),
            forall|j: int| 0 <= j < i ==> members@[j]@ != k@,
        decreases members@.len() - i,
    {
        if str_eq(members[i].as_str(), k) {
            assert(string_views(members@)[i as int] == k@);
            return true;
        }
        i = i + 1;
    }
    proof {
        if string_views(members@).contains(k@) {
            let j = choose|j: int| 0 <= j < string_views(members@).len() && string_views(members@)[j] == k@;
            assert(members@[j]@ == k@);
        }
    }
    false
}

/// Whether `k` occurs among the first `i` entries of `keys`.
fn occurs_before(keys: &[String], i: usize, k: &str) -> (r: bool)
    requires
        i <= keys@.len(),
    ensures
        r == string_views(keys@).take(i as int).contains(k@),
{
    let ghost pre = string_views(keys@).take(i as int);
    let mut j: usize = 0;
    while j < i
        invariant
            i <= keys@.len(),
            j <= i,
            pre == string_views(keys@).take(i as int),
            forall|t: int| 0 <= t < j ==> keys@[t]@ != k@,
        decreases i - j,
    {
        if str_eq(keys[j].as_str(), k) {
            assert(pre[j as int] == k@);
            return true;
        }
        j = j + 1;
    }
    proof {
        if pre.contains(k@) {
            let t = choose|t: int| 0 <= t < pre.len() && pre[t] == k@;
            assert(keys@[t]@ == k@);
        }
    }
    false
}

/// Number of distinct entries of `keys` found in `members`.
fn count_distinct_hits(keys: &[String], members: &Vec<String>) -> (r: usize)
    ensures
        r == distinct_hits(string_views(keys@), string_views(members@)),
{
    let mut c: usize = 0;
    let mut i: usize = 0;
    let ghost ks = string_views(keys@);
    let ghost ms = string_views(members@);
    assert(ks.take(0) =~= Seq::<Seq<char>>::empty());
    while i < keys.len()
        invariant
            ks == string_views(keys@),
            ms == string_views(members@),
            i <= keys@.len(),
            c == distinct_hits(ks.take(i as int), ms),
            c <= i,
        decreases keys@.len() - i,
    {
        let k = &keys[i];
        let hit = contains_key(members, k.as_str());
        let repeat = occurs_before(keys, i, k.as_str());
        assert(ks.take(i + 1).drop_last() =~= ks.take(i as int));
        assert(ks.take(i + 1).last() == k@);
        if hit && !repeat {
            c = c + 1;
        }
        i = i + 1;
    }
    assert(ks.take(keys@.len() as int) =~= ks);
    c
}

/// Members whose term has ended by `epoch`.
pub open spec fn term_over(epoch: u64) -> spec_fn(CouncilMember) -> bool {
    |m: CouncilMember| m.term_end_epoch <= epoch
}

/// Members whose term runs past `epoch`.
pub open spec fn term_running(epoch: u64) -> spec_fn(CouncilMember) -> bool {
    |m: CouncilMember| m.term_end_epoch > epoch
}

/// Abstract state of the Technical Council.
pub struct TechnicalCouncilView {
    /// Seated members in increasing public-key order.
    pub members: Seq<CouncilMember>,
    pub max_size: usize,
    pub min_size: usize,
    pub whitelisted: Seq<u64>,
    pub vetoed: Seq<u64>,
}

impl TechnicalCouncilView {
    pub open spec fn keys(self) -> Seq<Seq<char>> {
        self.members.map_values(|m: CouncilMember| m.pubkey@)
    }

    /// Members are kept in strictly increasing public-key order (so no
    /// public key is seated twice), and no proposal is listed twice.
    pub open spec fn wf(self) -> bool {
        &&& forall|i: int, j: int|
            0 <= i < j < self.members.len() ==> seq_lt(
                #[trigger] self.members[i].pubkey@,
                #[trigger] self.members[j].pubkey@,
            )
        &&& self.whitelisted.no_duplicates()
        &&& self.vetoed.no_duplicates()
    }
}

/// Technical Council: elected members with fixed terms.
pub struct TechnicalCouncil {
    members: Vec<CouncilMember>,
    max_size: usize,
    min_size: usize,
    whitelisted: Vec<u64>,
    vetoed: Vec<u64>,
}

impl View for TechnicalCouncil {
    type V = TechnicalCouncilView;

    closed spec fn view(&self) -> TechnicalCouncilView {
        TechnicalCouncilView {
            members: self.members@,
            max_size: self.max_size,
            min_size: self.min_size,
            whitelisted: self.whitelisted@,
            vetoed: self.vetoed@,
        }
    }
}

/// A copy of `m` with equal fields.
fn copy_member(m: &CouncilMember) -> (r: CouncilMember)
    ensures
        r == *m,
{
    CouncilMember {
        pubkey: m.pubkey.clone(),
        name: m.name.clone(),
        term_start_epoch: m.term_start_epoch,
        term_end_epoch: m.term_end_epoch,
    }
}

/// Pushes `id` unless it is already present.
fn push_unique(v: &mut Vec<u64>, id: u64)
    requires
        old(v)@.no_duplicates(),
    ensures
        final(v)@.no_duplicates(),
        final(v)@ == if old(v)@.contains(id) { old(v)@ } else { old(v)@.push(id) },
{
    let mut i: usize = 0;
    while i < v.len()
        invariant
            i <= v@.len(),
            v@ == old(v)@,
            old(v)@.no_duplicates(),
            forall|j: int| 0 <= j < i ==> v@[j] != id,
        decreases v@.len() - i,
    {
        if v[i] == id {
            assert(old(v)@[i as int] == id);
            return;
        }
        i = i + 1;
    }
    v.push(id);
    proof {
        assert forall|a: int, b: int| 0 <= a < b < v@.len() implies v@[a] != v@[b] by {
            if b == v@.len() - 1 {
                assert(old(v)@[a] != id);
            }
        }
    }
}

/// Whether `v` holds `id`.
fn contains_id(v: &Vec<u64>, id: u64) -> (r: bool)
    ensures
        r == v@.contains(id),
{
    let mut i: usize = 0;
    while i < v.len()
        invariant
            i <= v@.len(),
            forall|j: int| 0 <= j < i ==> v@[j] != id,
        decreases v@.len() - i,
    {
        if v[i] == id {
            return true;
        }
        i = i + 1;
    }
    false
}

impl TechnicalCouncil {
    /// An empty council with room for 11 members and a quorum of 7.
    pub fn new() -> (c: Self)
        ensures
            c@.wf(),
            c@.members.len() == 0,
            c@.max_size == 11,
            c@.min_size == 7,
            c@.whitelisted.len() == 0,
            c@.vetoed.len() == 0,
    {
        TechnicalCouncil {
            members: Vec::new(),
            max_size: 11,
            min_size: 7,
            whitelisted: Vec::new(),
            vetoed: Vec::new(),
        }
    }

    fn keys_vec(&self) -> (r: Vec<String>)
        ensures
            string_views(r@) == self@.keys(),
    {
        let mut out: Vec<String> = Vec::new();
        let mut i: usize = 0;
        while i < self.members.len()
            invariant
                i <= self.members@.len(),
                string_views(out@) =~= self.members@.take(i as int).map_values(|m: CouncilMember| m.pubkey@),
            decreases self.members@.len() - i,
        {
            let ghost prev = out@;
            out.push(self.members[i].pubkey.clone());
            proof {
                assert(string_views(out@) =~= string_views(prev).push(self.members@[i as int].pubkey@));
                assert(self.members@.take(i + 1) =~= self.members@.take(i as int).push(self.members@[i as int]));
            }
            i = i + 1;
        }
        assert(self.members@.take(self.members@.len() as int) =~= self.members@);
        out
    }

    /// Position at which `pubkey` is or would be seated: every earlier
    /// member's key is smaller.
    fn position(&self, pubkey: &str) -> (r: usize)
        requires
            self@.wf(),
        ensures
            r <= self@.members.len(),
            forall|j: int| 0 <= j < r ==> seq_lt(self@.members[j].pubkey@, pubkey@),
            r < self@.members.len() ==> !seq_lt(self@.members[r as int].pubkey@, pubkey@),
    {
        let mut i: usize = 0;
        while i < self.members.len()
            invariant
                i <= self.members@.len(),
                forall|j: int| 0 <= j < i ==> seq_lt(self.members@[j].pubkey@, pubkey@),
            decreases self.members@.len() - i,
        {
            if !str_lt(self.members[i].pubkey.as_str(), pubkey) {
                return i;
            }
            i = i + 1;
        }
        i
    }

    proof fn lemma_seated(v: TechnicalCouncilView, r: int, k: Seq<char>)
        requires
            v.wf(),
            0 <= r <= v.members.len(),
            forall|j: int| 0 <= j < r ==> seq_lt(v.members[j].pubkey@, k),
            r < v.members.len() ==> !seq_lt(v.members[r].pubkey@, k),
        ensures
            v.keys().contains(k) <==> (r < v.members.len() && v.members[r].pubkey@ == k),
    {
        if v.keys().contains(k) {
            let j = choose|j: int| 0 <= j < v.keys().len() && v.keys()[j] == k;
            assert(v.members[j].pubkey@ == k);
            if j < r {
                lemma_seq_lt_order(k, k, k);
            } else if j > r {
                assert(seq_lt(v.members[r].pubkey@, v.members[j].pubkey@));
                lemma_seq_lt_order(v.members[r].pubkey@, k, k);
            }
        }
        if r < v.members.len() && v.members[r].pubkey@ == k {
            assert(v.keys()[r] == k);
        }
    }

    /// Add a member (via Token House election).
    pub fn add_member(&mut self, member: CouncilMember) -> (r: Result<(), String>)
        requires
            old(self)@.wf(),
        ensures
            final(self)@.wf(),
            r is Ok <==> old(self)@.members.len() < old(self)@.max_size && !old(self)@.keys().contains(
                member.pubkey@,
            ),
            r matches Err(e) ==> final(self)@ == old(self)@ && if old(self)@.members.len() >= old(self)@.max_size {
                e@ == msg_council_full(old(self)@.max_size)
            } else {
                e@ == "member already on council"@
            },
            r is Ok ==> ({
                let m = old(self)@.members;
                &&& final(self)@.members.len() == m.len() + 1
                &&& exists|p: int|
                    0 <= p <= m.len() && final(self)@.members == m.take(p).push(member) + m.skip(p)
                &&& final(self)@.max_size == old(self)@.max_size
                &&& final(self)@.min_size == old(self)@.min_size
                &&& final(self)@.whitelisted == old(self)@.whitelisted
                &&& final(self)@.vetoed == old(self)@.vetoed
            }),
    {
        if self.members.len() >= self.max_size {
            let mut e = string_of("council is full (");
            push_dec(&mut e, self.max_size as u64);
            e.append(" members)");
            return Err(e);
        }
        let p = self.position(member.pubkey.as_str());
        proof { Self::lemma_seated(self@, p as int, member.pubkey@); }
        if p < self.members.len() && str_eq(self.members[p].pubkey.as_str(), member.pubkey.as_str()) {
            return Err(string_of("member already on council"));
        }
        let ghost m = self.members@;
        let ghost k = member.pubkey@;
        proof {
            if p < m.len() {
                lemma_seq_lt_order(m[p as int].pubkey@, k, k);
            }
        }
        self.members.insert(p, member);
        proof {
            let nm = self.members@;
            assert(nm =~= m.take(p as int).push(member) + m.skip(p as int));
            assert forall|i: int, j: int| 0 <= i < j < nm.len() implies seq_lt(
                #[trigger] nm[i].pubkey@,
                #[trigger] nm[j].pubkey@,
            ) by {
                if j < p {
                    assert(nm[i] == m[i] && nm[j] == m[j]);
                } else if j == p {
                    assert(nm[i] == m[i]);
                } else if i == p {
                    assert(nm[j] == m[j - 1]);
                    if j - 1 > p {
                        assert(seq_lt(m[p as int].pubkey@, m[j - 1].pubkey@));
                        lemma_seq_lt_order(k, m[p as int].pubkey@, m[j - 1].pubkey@);
                    }
                } else if i < p {
                    assert(nm[i] == m[i] && nm[j] == m[j - 1]);
                    if i < j - 1 {
                        assert(seq_lt(m[i].pubkey@, m[j - 1].pubkey@));
                    } else {
                        assert(seq_lt(m[i].pubkey@, k));
                        lemma_seq_lt_order(m[i].pubkey@, k, m[j - 1].pubkey@);
                    }
                } else {
                    assert(nm[i] == m[i - 1] && nm[j] == m[j - 1]);
                }
            }
        }
        Ok(())
    }

    /// Remove a member (term expiry or removal vote).
    pub fn remove_member(&mut self, pubkey: &str) -> (r: Result<(), String>)
        requires
            old(self)@.wf(),
        ensures
            final(self)@.wf(),
            r is Ok <==> old(self)@.keys().contains(pubkey@),
            r matches Err(e) ==> final(self)@ == old(self)@ && e@ == "member not found"@,
            r is Ok ==> ({
                let m = old(self)@.members;
                exists|p: int|
                    0 <= p < m.len() && m[p].pubkey@ == pubkey@ && final(self)@ == (TechnicalCouncilView {
                        members: m.remove(p),
                        ..old(self)@
                    })
            }),
    {
        let p = self.position(pubkey);
        proof { Self::lemma_seated(self@, p as int, pubkey@); }
        if p < self.members.len() && str_eq(self.members[p].pubkey.as_str(), pubkey) {
            let ghost m = self.members@;
            self.members.remove(p);
            proof {
                let nm = self.members@;
                assert(nm =~= m.remove(p as int));
                assert forall|i: int, j: int| 0 <= i < j < nm.len() implies seq_lt(
                    #[trigger] nm[i].pubkey@,
                    #[trigger] nm[j].pubkey@,
                ) by {
                    let i2 = if i < p { i } else { i + 1 };
                    let j2 = if j < p { j } else { j + 1 };
                    assert(nm[i] == m[i2] && nm[j] == m[j2]);
                    assert(seq_lt(m[i2].pubkey@, m[j2].pubkey@));
                }
                assert(self@ == (TechnicalCouncilView { members: m.remove(p as int), ..old(self)@ }));
            }
            Ok(())
        } else {
            Err(string_of("member not found"))
        }
    }

    /// Remove and return the members whose terms have expired
    /// (`term_end_epoch <= current_epoch`), in public-key order.
    pub fn expire_terms(&mut self, current_epoch: u64) -> (r: Vec<CouncilMember>)
        requires
            old(self)@.wf(),
        ensures
            final(self)@.wf(),
            r@ == old(self)@.members.filter(term_over(current_epoch)),
            final(self)@ == (TechnicalCouncilView {
                members: old(self)@.members.filter(term_running(current_epoch)),
                ..old(self)@
            }),
    {
        let ghost before = self@;
        let mut rest: Vec<CouncilMember> = Vec::new();
        std::mem::swap(&mut rest, &mut self.members);
        let ghost orig = rest@;
        let n = rest.len();
        let mut expired: Vec<CouncilMember> = Vec::new();
        let mut active: Vec<CouncilMember> = Vec::new();
        let mut i: usize = 0;
        assert(orig.skip(0) =~= orig);
        assert(orig.take(0) =~= Seq::<CouncilMember>::empty());
        proof { reveal(Seq::filter); }
        while i < n
            invariant
                n == orig.len(),
                i <= n,
                rest@ == orig.skip(i as int),
                expired@ == orig.take(i as int).filter(term_over(current_epoch)),
                active@ == orig.take(i as int).filter(term_running(current_epoch)),
                forall|a: int, b: int| 0 <= a < b < active@.len() ==> seq_lt(
                    #[trigger] active@[a].pubkey@,
                    #[trigger] active@[b].pubkey@,
                ),
                forall|a: int, b: int| 0 <= a < active@.len() && i <= b < n ==> seq_lt(
                    #[trigger] active@[a].pubkey@,
                    #[trigger] orig[b].pubkey@,
                ),
                forall|a: int, b: int| 0 <= a < b < orig.len() ==> seq_lt(
                    #[trigger] orig[a].pubkey@,
                    #[trigger] orig[b].pubkey@,
                ),
            decreases n - i,
        {
            let m = rest.remove(0);
            proof {
                assert(m == orig[i as int]);
                assert(orig.take(i + 1).drop_last() =~= orig.take(i as int));
                assert(orig.take(i + 1).last() == orig[i as int]);
                assert(orig.skip(i + 1) =~= orig.skip(i as int).remove(0));
                reveal(Seq::filter);
            }
            if m.term_end_epoch <= current_epoch {
                expired.push(m);
            } else {
                let ghost prev = active@;
                active.push(m);
                proof {
                    assert forall|a: int, b: int| 0 <= a < active@.len() && i + 1 <= b < n implies seq_lt(
                        #[trigger] active@[a].pubkey@,
                        #[trigger] orig[b].pubkey@,
                    ) by {
                        if a < prev.len() {
                            assert(active@[a] == prev[a]);
                        } else {
                            assert(active@[a] == orig[i as int]);
                        }
                    }
                }
            }
            i = i + 1;
        }
        assert(orig.take(n as int) =~= orig);
        self.members = active;
        expired
    }

    /// Whitelist a proposal for emergency fast-track. Needs approvals from
    /// a simple majority of the council; each seated member counts once.
    pub fn whitelist_proposal(&mut self, proposal_id: u64, approving_members: &[String]) -> (r: Result<
        (),
        String,
    >)
        requires
            old(self)@.wf(),
        ensures
            final(self)@.wf(),
            ({
                let valid = distinct_hits(string_views(approving_members@), old(self)@.keys());
                let required = majority(old(self)@.members.len());
                &&& r is Ok <==> valid >= required
                &&& r matches Err(e) ==> final(self)@ == old(self)@ && e@ == msg_need_approvals(required, valid)
                &&& r is Ok ==> final(self)@ == (TechnicalCouncilView {
                    whitelisted: if old(self)@.whitelisted.contains(proposal_id) {
                        old(self)@.whitelisted
                    } else {
                        old(self)@.whitelisted.push(proposal_id)
                    },
                    ..old(self)@
                })
            }),
    {
        let keys = self.keys_vec();
        let valid = count_distinct_hits(approving_members, &keys);
        let required = self.members.len() / 2 + 1;
        if valid < required {
            let mut e = string_of("need ");
            push_dec(&mut e, required as u64);
            e.append(" council approvals, got ");
            push_dec(&mut e, valid as u64);
            return Err(e);
        }
        push_unique(&mut self.whitelisted, proposal_id);
        Ok(())
    }

    /// Veto a queued proposal during its timelock. Needs 3 distinct seated
    /// members, or a majority if the council is smaller.
    pub fn veto_proposal(&mut self, proposal_id: u64, approving_members: &[String]) -> (r: Result<
        (),
        String,
    >)
        requires
            old(self)@.wf(),
        ensures
            final(self)@.wf(),
            ({
                let valid = distinct_hits(string_views(approving_members@), old(self)@.keys());
                let maj = majority(old(self)@.members.len());
                let required = if maj < 3 { maj } else { 3 };
                &&& r is Ok <==> valid >= required
                &&& r matches Err(e) ==> final(self)@ == old(self)@ && e@ == msg_need_veto_approvals(required, valid)
                &&& r is Ok ==> final(self)@ == (TechnicalCouncilView {
                    vetoed: if old(self)@.vetoed.contains(proposal_id) {
                        old(self)@.vetoed
                    } else {
                        old(self)@.vetoed.push(proposal_id)
                    },
                    ..old(self)@
                })
            }),
    {
        let keys = self.keys_vec();
        let valid = count_distinct_hits(approving_members, &keys);
        let maj = self.members.len() / 2 + 1;
        let required: usize = if maj < 3 { maj } else { 3 };
        if valid < required {
            let mut e = string_of("need ");
            push_dec(&mut e, required as u64);
            e.append(" council approvals for veto, got ");
            push_dec(&mut e, valid as u64);
            return Err(e);
        }
        push_unique(&mut self.vetoed, proposal_id);
        Ok(())
    }

    /// Whether a proposal is whitelisted for emergency fast-track.
    pub fn is_whitelisted(&self, proposal_id: u64) -> (r: bool)
        ensures
            r == self@.whitelisted.contains(proposal_id),
    {
        contains_id(&self.whitelisted, proposal_id)
    }

    /// Whether a proposal has been vetoed.
    pub fn is_vetoed(&self, proposal_id: u64) -> (r: bool)
        ensures
            r == self@.vetoed.contains(proposal_id),
    {
        contains_id(&self.vetoed, proposal_id)
    }

    /// Current council size.
    pub fn member_count(&self) -> (r: usize)
        ensures
            r == self@.members.len(),
    {
        self.members.len()
    }

    /// Whether the council has at least its minimum size.
    pub fn has_quorum(&self) -> (r: bool)
        ensures
            r == (self@.members.len() >= self@.min_size),
    {
        self.members.len() >= self.min_size
    }

    /// How many distinct keys among `approving_members` belong to seated
    /// members.
    pub fn count_valid_approvers(&self, approving_members: &[String]) -> (r: usize)
        ensures
            r == distinct_hits(string_views(approving_members@), self@.keys()),
    {
        let keys = self.keys_vec();
        count_distinct_hits(approving_members, &keys)
    }

    /// Smallest number of members for a 2/3 supermajority: `ceil(2n/3)`.
    pub fn two_thirds_threshold(&self) -> (r: usize)
        ensures
            r == two_thirds(self@.members.len()),
    {
        let n = self.members.len();
        let m: u128 = (n as u128) * 2;
        let q: u128 = (m + 2) / 3;
        assert(q <= n);
        q as usize
    }

    /// Whether `approving_members` covers a 2/3 supermajority of seated
    /// members. An empty council never approves.
    pub fn has_two_thirds_approval(&self, approving_members: &[String]) -> (r: bool)
        ensures
            r == (self@.members.len() > 0 && distinct_hits(string_views(approving_members@), self@.keys())
                >= two_thirds(self@.members.len())),
    {
        if self.members.len() == 0 {
            return false;
        }
        self.count_valid_approvers(approving_members) >= self.two_thirds_threshold()
    }

    /// All seated members, sorted by public key.
    pub fn list_members(&self) -> (r: Vec<CouncilMember>)
        requires
            self@.wf(),
        ensures
            r@ == self@.members,
            forall|i: int, j: int| 0 <= i < j < r@.len() ==> seq_lt(#[trigger] r@[i].pubkey@, #[trigger] r@[j].pubkey@),
    {
        let mut out: Vec<CouncilMember> = Vec::new();
        let mut i: usize = 0;
        while i < self.members.len()
            invariant
                i <= self.members@.len(),
                out@ =~= self.members@.take(i as int),
            decreases self.members@.len() - i,
        {
            out.push(copy_member(&self.members[i]));
            i = i + 1;
        }
        assert(self.members@.take(self.members@.len() as int) =~= self.members@);
        proof {
            let v = self@;
            assert forall|i: int, j: int| 0 <= i < j < out@.len() implies seq_lt(
                #[trigger] out@[i].pubkey@,
                #[trigger] out@[j].pubkey@,
            ) by {
                assert(seq_lt(v.members[i].pubkey@, v.members[j].pubkey@));
            }
        }
        out
    }
}

/// Abstract state of the Service Operators Council.
pub struct OperatorsCouncilView {
    /// Registered operators in registration order.
    pub members: Seq<OperatorInfo>,
    pub endorsed: Seq<u64>,
    pub sla_vetoed: Seq<u64>,
}

impl OperatorsCouncilView {
    pub open spec fn keys(self) -> Seq<Seq<char>> {
        self.members.map_values(|m: OperatorInfo| m.operator_id@)
    }

    /// No operator id is registered twice and no proposal is listed twice.
    pub open spec fn wf(self) -> bool {
        &&& self.keys().no_duplicates()
        &&& self.endorsed.no_duplicates()
        &&& self.sla_vetoed.no_duplicates()
    }
}

/// Service Operators Council: representatives of node and TEE operators.
pub struct ServiceOperatorsCouncil {
    members: Vec<OperatorInfo>,
    endorsed: Vec<u64>,
    sla_vetoed: Vec<u64>,
}

impl View for ServiceOperatorsCouncil {
    type V = OperatorsCouncilView;

    closed spec fn view(&self) -> OperatorsCouncilView {
        OperatorsCouncilView { members: self.members@, endorsed: self.endorsed@, sla_vetoed: self.sla_vetoed@ }
    }
}

impl ServiceOperatorsCouncil {
    pub fn new() -> (c: Self)
        ensures
            c@.wf(),
            c@.members.len() == 0,
            c@.endorsed.len() == 0,
            c@.sla_vetoed.len() == 0,
    {
        let c = ServiceOperatorsCouncil { members: Vec::new(), endorsed: Vec::new(), sla_vetoed: Vec::new() };
        assert(c@.keys() =~= Seq::<Seq<char>>::empty());
        c
    }

    fn keys_vec(&self) -> (r: Vec<String>)
        ensures
            string_views(r@) == self@.keys(),
    {
        let mut out: Vec<String> = Vec::new();
        let mut i: usize = 0;
        while i < self.members.len()
            invariant
                i <= self.members@.len(),
                string_views(out@) =~= self.members@.take(i as int).map_values(|m: OperatorInfo| m.operator_id@),
            decreases self.members@.len() - i,
        {
            let ghost prev = out@;
            out.push(self.members[i].operator_id.clone());
            proof {
                assert(string_views(out@) =~= string_views(prev).push(self.members@[i as int].operator_id@));
                assert(self.members@.take(i + 1) =~= self.members@.take(i as int).push(self.members@[i as int]));
            }
            i = i + 1;
        }
        assert(self.members@.take(self.members@.len() as int) =~= self.members@);
        out
    }

    fn index_of(&self, operator_id: &str) -> (r: Option<usize>)
        requires
            self@.wf(),
        ensures
            match r {
                Some(p) => p < self@.members.len() && self@.members[p as int].operator_id@ == operator_id@,
                None => !self@.keys().contains(operator_id@),
            },
    {
        let mut i: usize = 0;
        while i < self.members.len()
            invariant
                i <= self.members@.len(),
                forall|j: int| 0 <= j < i ==> self.members@[j].operator_id@ != operator_id@,
            decreases self.members@.len() - i,
        {
            if str_eq(self.members[i].operator_id.as_str(), operator_id) {
                return Some(i);
            }
            i = i + 1;
        }
        proof {
            if self@.keys().contains(operator_id@) {
                let j = choose|j: int| 0 <= j < self@.keys().len() && self@.keys()[j] == operator_id@;
                assert(self.members@[j].operator_id@ == operator_id@);
            }
        }
        None
    }

    /// Register a service operator.
    pub fn register_operator(&mut self, info: OperatorInfo) -> (r: Result<(), String>)
        requires
            old(self)@.wf(),
        ensures
            final(self)@.wf(),
            r is Ok <==> !old(self)@.keys().contains(info.operator_id@),
            r matches Err(e) ==> final(self)@ == old(self)@ && e@ == "operator already registered"@,
            r is Ok ==> final(self)@ == (OperatorsCouncilView { members: old(self)@.members.push(info), ..old(self)@ }),
    {
        match self.index_of(info.operator_id.as_str()) {
            Some(p) => {
                assert(self@.keys()[p as int] == info.operator_id@);
                return Err(string_of("operator already registered"));
            },
            None => {},
        }
        let ghost old_keys = self@.keys();
        self.members.push(info);
        proof {
            assert(self@.keys() =~= old_keys.push(info.operator_id@));
        }
        Ok(())
    }

    /// Remove a service operator.
    pub fn remove_operator(&mut self, operator_id: &str) -> (r: Result<(), String>)
        requires
            old(self)@.wf(),
        ensures
            final(self)@.wf(),
            r is Ok <==> old(self)@.keys().contains(operator_id@),
            r matches Err(e) ==> final(self)@ == old(self)@ && e@ == "operator not found"@,
            r is Ok ==> ({
                let m = old(self)@.members;
                exists|p: int|
                    0 <= p < m.len() && m[p].operator_id@ == operator_id@ && final(self)@ == (OperatorsCouncilView {
                        members: m.remove(p),
                        ..old(self)@
                    })
            }),
    {
        match self.index_of(operator_id) {
            None => Err(string_of("operator not found")),
            Some(p) => {
                let ghost m = self.members@;
                let ghost ks = self@.keys();
                assert(ks[p as int] == operator_id@);
                self.members.remove(p);
                proof {
                    assert(self@.keys() =~= ks.remove(p as int));
                    assert(self@ == (OperatorsCouncilView { members: m.remove(p as int), ..old(self)@ }));
                }
                Ok(())
            },
        }
    }

    /// Advisory endorsement of a proposal; needs a majority of registered
    /// operators, each counted once.
    pub fn endorse_proposal(&mut self, proposal_id: u64, approving_operators: &[String]) -> (r: Result<
        (),
        String,
    >)
        requires
            old(self)@.wf(),
        ensures
            final(self)@.wf(),
            ({
                let valid = distinct_hits(string_views(approving_operators@), old(self)@.keys());
                let required = majority(old(self)@.members.len());
                &&& r is Ok <==> valid >= required
                &&& r matches Err(e) ==> final(self)@ == old(self)@ && e@ == msg_need_endorsements(required, valid)
                &&& r is Ok ==> final(self)@ == (OperatorsCouncilView {
                    endorsed: if old(self)@.endorsed.contains(proposal_id) {
                        old(self)@.endorsed
                    } else {
                        old(self)@.endorsed.push(proposal_id)
                    },
                    ..old(self)@
                })
            }),
    {
        let keys = self.keys_vec();
        let valid = count_distinct_hits(approving_operators, &keys);
        let required = self.members.len() / 2 + 1;
        if valid < required {
            let mut e = string_of("need ");
            push_dec(&mut e, required as u64);
            e.append(" operator endorsements, got ");
            push_dec(&mut e, valid as u64);
            return Err(e);
        }
        push_unique(&mut self.endorsed, proposal_id);
        Ok(())
    }

    /// SLA veto: binding rejection of a proposal that would break SLAs.
    /// Needs 2 distinct registered operators, or a majority if fewer.
    pub fn sla_veto(&mut self, proposal_id: u64, vetoing_operators: &[String]) -> (r: Result<(), String>)
        requires
            old(self)@.wf(),
        ensures
            final(self)@.wf(),
            ({
                let valid = distinct_hits(string_views(vetoing_operators@), old(self)@.keys());
                let maj = majority(old(self)@.members.len());
                let required = if maj < 2 { maj } else { 2 };
                &&& r is Ok <==> valid >= required
                &&& r matches Err(e) ==> final(self)@ == old(self)@ && e@ == msg_need_sla_vetoes(required, valid)
                &&& r is Ok ==> final(self)@ == (OperatorsCouncilView {
                    sla_vetoed: if old(self)@.sla_vetoed.contains(proposal_id) {
                        old(self)@.sla_vetoed
                    } else {
                        old(self)@.sla_vetoed.push(proposal_id)
                    },
                    ..old(self)@
                })
            }),
    {
        let keys = self.keys_vec();
        let valid = count_distinct_hits(vetoing_operators, &keys);
        let maj = self.members.len() / 2 + 1;
        let required: usize = if maj < 2 { maj } else { 2 };
        if valid < required {
            let mut e = string_of("need ");
            push_dec(&mut e, required as u64);
            e.append(" operators for SLA veto, got ");
            push_dec(&mut e, valid as u64);
            return Err(e);
        }
        push_unique(&mut self.sla_vetoed, proposal_id);
        Ok(())
    }

    /// Whether a proposal has been endorsed.
    pub fn is_endorsed(&self, proposal_id: u64) -> (r: bool)
        ensures
            r == self@.endorsed.contains(proposal_id),
    {
        contains_id(&self.endorsed, proposal_id)
    }

    /// Whether a proposal has been SLA-vetoed.
    pub fn is_sla_vetoed(&self, proposal_id: u64) -> (r: bool)
        ensures
            r == self@.sla_vetoed.contains(proposal_id),
    {
        contains_id(&self.sla_vetoed, proposal_id)
    }

    /// Current operator count.
    pub fn operator_count(&self) -> (r: usize)
        ensures
            r == self@.members.len(),
    {
        self.members.len()
    }
}

} // verus!
