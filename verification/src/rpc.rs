//! JSON-RPC policy: configuration, method classification,
//! authentication and admin requirements, transfer policies, rate
//! limiting, and the parsing of governance parameters.
//!
//! The server itself (HTTP, JSON, signature checks, locking) drives
//! these decisions; every rule it applies to a request is decided here.

use vstd::prelude::*;
use crate::governance::{Conviction, ProposalTrack, VoteChoice};
use crate::text::{dec, push_dec, str_eq, string_of};

verus! {

// ---------------------------------------------------------------------------
// A set of names
// ---------------------------------------------------------------------------

/// A set of names (addresses, namespaces), each held once.
#[derive(Clone, Debug)]
pub struct NameSet {
    names: Vec<String>,
}

impl View for NameSet {
    type V = Set<Seq<char>>;

    closed spec fn view(&self) -> Set<Seq<char>> {
        self.names@.map_values(|s: String| s@).to_set()
    }
}

impl NameSet {
    /// The names in insertion order.
    pub closed spec fn entries(&self) -> Seq<Seq<char>> {
        self.names@.map_values(|s: String| s@)
    }

    /// No name is held twice.
    pub closed spec fn wf(&self) -> bool {
        self.entries().no_duplicates()
    }

    proof fn lemma_view(&self)
        ensures
            self@ == self.entries().to_set(),
            self.wf() ==> self@.len() == self.entries().len(),
            forall|k: int| 0 <= k < self.entries().len() ==> self.entries()[k] == (#[trigger] self.names@[k])@,
            self.entries().len() == self.names@.len(),
    {
        if self.wf() {
            self.entries().unique_seq_to_set();
        }
    }

    /// An empty set.
    pub fn new() -> (s: Self)
        ensures
            s.wf(),
            s@ == Set::<Seq<char>>::empty(),
    {
        let s = NameSet { names: Vec::new() };
        proof {
            assert(s.entries() =~= Seq::<Seq<char>>::empty());
            s.lemma_view();
        }
        s
    }

    /// Whether `name` is in the set.
    pub fn contains(&self, name: &str) -> (r: bool)
        ensures
            r == self@.contains(name@),
    {
        proof { self.lemma_view(); }
        let mut i: usize = 0;
        while i < self.names.len()
            invariant
                i <= self.names@.len(),
                forall|k: int| 0 <= k < i ==> self.entries()[k] != name@,
                forall|k: int| 0 <= k < self.entries().len() ==> self.entries()[k] == (#[trigger] self.names@[k])@,
                self.entries().len() == self.names@.len(),
            decreases self.names@.len() - i,
        {
            if str_eq(self.names[i].as_str(), name) {
                assert(self.entries()[i as int] == name@);
                assert(self.entries().contains(name@));
                return true;
            }
            i = i + 1;
        }
        assert(!self.entries().contains(name@));
        false
    }

    /// Adds `name`; returns whether it was absent.
    pub fn insert(&mut self, name: String) -> (r: bool)
        requires
            old(self).wf(),
        ensures
            final(self).wf(),
            r == !old(self)@.contains(name@),
            final(self)@ == old(self)@.insert(name@),
    {
        if self.contains(name.as_str()) {
            proof { assert(self@.insert(name@) =~= self@); }
            return false;
        }
        let ghost old_e = self.entries();
        self.names.push(name);
        proof {
            assert(self.entries() =~= old_e.push(name@));
            old_e.lemma_push_to_set_commute(name@);
            self.lemma_view();
            assert(old_e.push(name@).no_duplicates()) by {
                assert(!old_e.contains(name@));
            }
        }
        true
    }

    /// Number of names.
    pub fn len(&self) -> (n: usize)
        requires
            self.wf(),
        ensures
            n == self@.len(),
    {
        proof { self.lemma_view(); }
        self.names.len()
    }

    /// Whether the set is empty.
    pub fn is_empty(&self) -> (r: bool)
        ensures
            r == (self@ == Set::<Seq<char>>::empty()),
    {
        proof {
            self.lemma_view();
            if self.names@.len() > 0 {
                assert(self.entries().contains(self.entries()[0]));
                assert(self@.contains(self.entries()[0]));
            } else {
                assert(self.entries() =~= Seq::<Seq<char>>::empty());
                assert(self@ =~= Set::<Seq<char>>::empty());
            }
        }
        self.names.len() == 0
    }
}

// ---------------------------------------------------------------------------
// Configuration
// ---------------------------------------------------------------------------

/// RPC server configuration.
#[derive(Clone, Debug)]
pub struct RpcConfig {
    /// Namespaces this node serves (empty = serve all).
    pub served_namespaces: NameSet,
    /// Whether to require authentication for reads.
    pub require_auth_for_reads: bool,
    /// Maximum SQL query length in bytes.
    pub max_query_length: usize,
    /// Maximum requests per IP per minute.
    pub max_requests_per_minute: u64,
    /// Dev-only faucet (never on mainnet).
    pub dev_faucet: bool,
    /// Max base units one address can pull from the dev faucet per 24h.
    pub dev_faucet_cap: u64,
    /// Encode caller-derived addresses with the testnet prefix.
    pub testnet: bool,
    /// Addresses allowed to call admin-gated methods; empty = open mode.
    pub admin_addresses: NameSet,
    /// Skip the new-recipient check entirely ("allow mode").
    pub allow_new_recipients: bool,
    /// Minimum amount a transfer to a new recipient must carry; 0 = off.
    pub min_opening_balance: u64,
    /// Requests per minute for the default group.
    pub rpm_default: u64,
    /// Requests per minute for the expensive group.
    pub rpm_expensive: u64,
    /// Requests per minute for the admin group.
    pub rpm_admin: u64,
    /// Fee burned on every bridge withdrawal; 0 = off.
    pub bridge_withdrawal_fee: u64,
    /// Admin multisig threshold; 0 or 1 = single signature.
    pub admin_threshold: usize,
}

impl RpcConfig {
    /// Both name sets hold each name once.
    pub open spec fn wf(&self) -> bool {
        self.served_namespaces.wf() && self.admin_addresses.wf()
    }
}

impl Default for RpcConfig {
    fn default() -> (c: Self)
        ensures
            c.wf(),
            c.served_namespaces@ == Set::<Seq<char>>::empty(),
            !c.require_auth_for_reads,
            c.max_query_length == 64 * 1024,
            c.max_requests_per_minute == 120,
            !c.dev_faucet,
            c.dev_faucet_cap == 1_000 * 1_000_000_000,
            c.testnet,
            c.admin_addresses@ == Set::<Seq<char>>::empty(),
            !c.allow_new_recipients,
            c.min_opening_balance == 0,
            c.rpm_default == 120,
            c.rpm_expensive == 20,
            c.rpm_admin == 5,
            c.bridge_withdrawal_fee == 0,
            c.admin_threshold == 0,
    {
        RpcConfig {
            served_namespaces: NameSet::new(),
            require_auth_for_reads: false,
            max_query_length: 64 * 1024,
            max_requests_per_minute: 120,
            dev_faucet: false,
            dev_faucet_cap: 1_000 * 1_000_000_000,
            testnet: true,
            admin_addresses: NameSet::new(),
            allow_new_recipients: false,
            min_opening_balance: 0,
            rpm_default: 120,
            rpm_expensive: 20,
            rpm_admin: 5,
            bridge_withdrawal_fee: 0,
            admin_threshold: 0,
        }
    }
}

// ---------------------------------------------------------------------------
// Transfer policies
// ---------------------------------------------------------------------------

pub open spec fn msg_new_recipient(recipient: Seq<char>) -> Seq<char> {
    "recipient "@ + recipient
        + " is a new account with no prior ledger entry; re-submit with confirm_new_recipient=true to acknowledge, or run the node with --allow-new-recipients"@
}

pub open spec fn msg_below_opening_balance(recipient: Seq<char>, amount: u64, threshold: u64) -> Seq<char> {
    "recipient "@ + recipient + " is new and amount "@ + dec(amount as nat)
        + " is below the min-opening-balance threshold "@ + dec(threshold as nat)
        + "; raise the amount or send to an existing account"@
}

/// The new-recipient policy: a transfer proceeds in allow mode, when
/// the caller confirmed a new recipient, or when the recipient already
/// has a ledger entry; otherwise it is refused with code -32007.
pub fn check_recipient_policy(config: &RpcConfig, confirmed: bool, recipient_known: bool, recipient_addr: &str) -> (r:
    Result<(), (i32, String)>)
    ensures
        r is Ok <==> config.allow_new_recipients || confirmed || recipient_known,
        r matches Err(e) ==> e.0 == -32007 && e.1@ == msg_new_recipient(recipient_addr@),
{
    if config.allow_new_recipients || confirmed || recipient_known {
        return Ok(());
    }
    let mut msg = string_of("recipient ");
    msg.append(recipient_addr);
    msg.append(
        " is a new account with no prior ledger entry; re-submit with confirm_new_recipient=true to acknowledge, or run the node with --allow-new-recipients",
    );
    Err((-32007, msg))
}

/// The minimum-opening-balance policy: when it is on (threshold above
/// zero), a transfer to a new recipient must carry at least the
/// threshold; otherwise it is refused with code -32008. Known
/// recipients are always exempt.
pub fn check_min_opening_balance(config: &RpcConfig, recipient_known: bool, amount: u64, recipient_addr: &str) -> (r:
    Result<(), (i32, String)>)
    ensures
        r is Ok <==> config.min_opening_balance == 0 || recipient_known || amount >= config.min_opening_balance,
        r matches Err(e) ==> e.0 == -32008 && e.1@ == msg_below_opening_balance(
            recipient_addr@,
            amount,
            config.min_opening_balance,
        ),
{
    if config.min_opening_balance == 0 || recipient_known {
        return Ok(());
    }
    if amount < config.min_opening_balance {
        let mut msg = string_of("recipient ");
        msg.append(recipient_addr);
        msg.append(" is new and amount ");
        push_dec(&mut msg, amount);
        msg.append(" is below the min-opening-balance threshold ");
        push_dec(&mut msg, config.min_opening_balance);
        msg.append("; raise the amount or send to an existing account");
        return Err((-32008, msg));
    }
    Ok(())
}

// ---------------------------------------------------------------------------
// Method classification
// ---------------------------------------------------------------------------

/// Methods that need a signed caller.
pub open spec fn is_auth_method(m: Seq<char>) -> bool {
    ||| m == "seal_submitSql"@
    ||| m == "seal_deployNamespace"@
    ||| m == "seal_transfer"@
    ||| m == "seal_createToken"@
    ||| m == "seal_mintToken"@
    ||| m == "seal_transferToken"@
    ||| m == "seal_burnToken"@
    ||| m == "seal_freezeAccount"@
    ||| m == "seal_unfreezeAccount"@
    ||| m == "seal_setTokenFrozen"@
    ||| m == "seal_setMintAuthority"@
    ||| m == "seal_setFreezeAuthority"@
    ||| m == "seal_setFeeAuthority"@
    ||| m == "seal_renounceMintAuthority"@
    ||| m == "seal_renounceFreezeAuthority"@
    ||| m == "seal_renounceFeeAuthority"@
    ||| m == "seal_setTransferFee"@
    ||| m == "seal_setFeeRecipient"@
    ||| m == "seal_createPair"@
    ||| m == "seal_placeOrder"@
    ||| m == "seal_cancelOrder"@
    ||| m == "seal_createPrivateTable"@
    ||| m == "seal_bridgeWithdraw"@
    ||| m == "seal_bridgeMarkExecuted"@
    ||| m == "seal_govPropose"@
    ||| m == "seal_govVote"@
    ||| m == "seal_govWithdrawVote"@
    ||| m == "seal_govDelegate"@
    ||| m == "seal_govRevokeDelegation"@
}

/// Bridge-bootstrap methods gated on the admin set.
pub open spec fn is_admin_method(m: Seq<char>) -> bool {
    ||| m == "seal_addBridgeObserver"@
    ||| m == "seal_bridgeCouncilAdd"@
    ||| m == "seal_bridgeCouncilRemove"@
    ||| m == "seal_bridgePauseChain"@
    ||| m == "seal_bridgeUnpauseChain"@
    ||| m == "seal_bridgeRotateCommitteeKey"@
}

/// Writes and withdrawals: the expensive rate-limit group.
pub open spec fn is_expensive_method(m: Seq<char>) -> bool {
    ||| m == "seal_submitSql"@
    ||| m == "seal_bridgeWithdraw"@
    ||| m == "seal_bridgeMarkExecuted"@
    ||| m == "seal_transfer"@
    ||| m == "seal_transferToken"@
    ||| m == "seal_mintToken"@
    ||| m == "seal_burnToken"@
    ||| m == "seal_createToken"@
    ||| m == "seal_createPair"@
    ||| m == "seal_placeOrder"@
    ||| m == "seal_govPropose"@
    ||| m == "seal_govVote"@
}

/// Whether a method needs a signed caller.
pub fn requires_auth(method: &str) -> (r: bool)
    ensures
        r == is_auth_method(method@),
{
    str_eq(method, "seal_submitSql") || str_eq(method, "seal_deployNamespace") || str_eq(method, "seal_transfer")
        || str_eq(method, "seal_createToken") || str_eq(method, "seal_mintToken") || str_eq(
        method,
        "seal_transferToken",
    ) || str_eq(method, "seal_burnToken") || str_eq(method, "seal_freezeAccount") || str_eq(
        method,
        "seal_unfreezeAccount",
    ) || str_eq(method, "seal_setTokenFrozen") || str_eq(method, "seal_setMintAuthority") || str_eq(
        method,
        "seal_setFreezeAuthority",
    ) || str_eq(method, "seal_setFeeAuthority") || str_eq(method, "seal_renounceMintAuthority") || str_eq(
        method,
        "seal_renounceFreezeAuthority",
    ) || str_eq(method, "seal_renounceFeeAuthority") || str_eq(method, "seal_setTransferFee") || str_eq(
        method,
        "seal_setFeeRecipient",
    ) || str_eq(method, "seal_createPair") || str_eq(method, "seal_placeOrder") || str_eq(method, "seal_cancelOrder")
        || str_eq(method, "seal_createPrivateTable") || str_eq(method, "seal_bridgeWithdraw") || str_eq(
        method,
        "seal_bridgeMarkExecuted",
    ) || str_eq(method, "seal_govPropose") || str_eq(method, "seal_govVote") || str_eq(method, "seal_govWithdrawVote")
        || str_eq(method, "seal_govDelegate") || str_eq(method, "seal_govRevokeDelegation")
}

/// Whether a method is gated on the admin set.
pub fn requires_admin_auth(method: &str) -> (r: bool)
    ensures
        r == is_admin_method(method@),
{
    str_eq(method, "seal_addBridgeObserver") || str_eq(method, "seal_bridgeCouncilAdd") || str_eq(
        method,
        "seal_bridgeCouncilRemove",
    ) || str_eq(method, "seal_bridgePauseChain") || str_eq(method, "seal_bridgeUnpauseChain") || str_eq(
        method,
        "seal_bridgeRotateCommitteeKey",
    )
}

/// Whether `address` may call admin-gated methods: any caller in open
/// mode (no admin addresses), only members otherwise.
pub fn is_admin(address: &str, config: &RpcConfig) -> (r: bool)
    ensures
        r == (config.admin_addresses@ == Set::<Seq<char>>::empty() || config.admin_addresses@.contains(address@)),
{
    config.admin_addresses.is_empty() || config.admin_addresses.contains(address)
}

/// Rate-limit group of a method.
#[derive(Clone, Copy, Debug, PartialEq, Eq, Hash, Structural)]
pub enum RpcGroup {
    /// Cheap reads and chain-state queries.
    Default,
    /// Writes and mutations.
    Expensive,
    /// Bridge-bootstrap and governance-gated calls.
    Admin,
}

/// The rate-limit group of a method name.
pub open spec fn group_of(m: Seq<char>) -> RpcGroup {
    if is_admin_method(m) {
        RpcGroup::Admin
    } else if is_expensive_method(m) {
        RpcGroup::Expensive
    } else {
        RpcGroup::Default
    }
}

/// Maps a method name to its rate-limit group: admin-gated methods
/// first, then writes, then everything else.
pub fn rpc_group_for_method(method: &str) -> (g: RpcGroup)
    ensures
        g == group_of(method@),
{
    if requires_admin_auth(method) {
        return RpcGroup::Admin;
    }
    if str_eq(method, "seal_submitSql") || str_eq(method, "seal_bridgeWithdraw") || str_eq(
        method,
        "seal_bridgeMarkExecuted",
    ) || str_eq(method, "seal_transfer") || str_eq(method, "seal_transferToken") || str_eq(method, "seal_mintToken")
        || str_eq(method, "seal_burnToken") || str_eq(method, "seal_createToken") || str_eq(method, "seal_createPair")
        || str_eq(method, "seal_placeOrder") || str_eq(method, "seal_govPropose") || str_eq(method, "seal_govVote") {
        RpcGroup::Expensive
    } else {
        RpcGroup::Default
    }
}

/// The writes are rate-limited as expensive: every one of the node's
/// state-changing calls (SQL, bridge withdrawals, transfers, token and
/// market operations, governance proposals and votes) falls in the
/// expensive group, and no other method does.
pub proof fn lemma_writes_are_expensive(m: Seq<char>)
    ensures
        ({
        ||| m == "seal_submitSql"@
        ||| m == "seal_bridgeWithdraw"@
        ||| m == "seal_bridgeMarkExecuted"@
        ||| m == "seal_transfer"@
        ||| m == "seal_transferToken"@
        ||| m == "seal_mintToken"@
        ||| m == "seal_burnToken"@
        ||| m == "seal_createToken"@
        ||| m == "seal_createPair"@
        ||| m == "seal_placeOrder"@
        ||| m == "seal_govPropose"@
        ||| m == "seal_govVote"@
        }) <==> group_of(m) == RpcGroup::Expensive,
{
    reveal_strlit("seal_submitSql");
    reveal_strlit("seal_bridgeWithdraw");
    reveal_strlit("seal_bridgeMarkExecuted");
    reveal_strlit("seal_transfer");
    reveal_strlit("seal_transferToken");
    reveal_strlit("seal_mintToken");
    reveal_strlit("seal_burnToken");
    reveal_strlit("seal_createToken");
    reveal_strlit("seal_createPair");
    reveal_strlit("seal_placeOrder");
    reveal_strlit("seal_govPropose");
    reveal_strlit("seal_govVote");
    reveal_strlit("seal_addBridgeObserver");
    reveal_strlit("seal_bridgeCouncilAdd");
    reveal_strlit("seal_bridgeCouncilRemove");
    reveal_strlit("seal_bridgePauseChain");
    reveal_strlit("seal_bridgeUnpauseChain");
    reveal_strlit("seal_bridgeRotateCommitteeKey");
    assert("seal_submitSql"@.len() != "seal_addBridgeObserver"@.len());
    assert("seal_submitSql"@.len() != "seal_bridgeCouncilAdd"@.len());
    assert("seal_submitSql"@.len() != "seal_bridgeCouncilRemove"@.len());
    assert("seal_submitSql"@.len() != "seal_bridgePauseChain"@.len());
    assert("seal_submitSql"@.len() != "seal_bridgeUnpauseChain"@.len());
    assert("seal_submitSql"@.len() != "seal_bridgeRotateCommitteeKey"@.len());
    assert("seal_bridgeWithdraw"@.len() != "seal_addBridgeObserver"@.len());
    assert("seal_bridgeWithdraw"@.len() != "seal_bridgeCouncilAdd"@.len());
    assert("seal_bridgeWithdraw"@.len() != "seal_bridgeCouncilRemove"@.len());
    assert("seal_bridgeWithdraw"@.len() != "seal_bridgePauseChain"@.len());
    assert("seal_bridgeWithdraw"@.len() != "seal_bridgeUnpauseChain"@.len());
    assert("seal_bridgeWithdraw"@.len() != "seal_bridgeRotateCommitteeKey"@.len());
    assert("seal_bridgeMarkExecuted"@.len() != "seal_addBridgeObserver"@.len());
    assert("seal_bridgeMarkExecuted"@.len() != "seal_bridgeCouncilAdd"@.len());
    assert("seal_bridgeMarkExecuted"@.len() != "seal_bridgeCouncilRemove"@.len());
    assert("seal_bridgeMarkExecuted"@.len() != "seal_bridgePauseChain"@.len());
    assert("seal_bridgeMarkExecuted"@[11] != "seal_bridgeUnpauseChain"@[11]);
    assert("seal_bridgeMarkExecuted"@.len() != "seal_bridgeRotateCommitteeKey"@.len());
    assert("seal_transfer"@.len() != "seal_addBridgeObserver"@.len());
    assert("seal_transfer"@.len() != "seal_bridgeCouncilAdd"@.len());
    assert("seal_transfer"@.len() != "seal_bridgeCouncilRemove"@.len());
    assert("seal_transfer"@.len() != "seal_bridgePauseChain"@.len());
    assert("seal_transfer"@.len() != "seal_bridgeUnpauseChain"@.len());
    assert("seal_transfer"@.len() != "seal_bridgeRotateCommitteeKey"@.len());
    assert("seal_transferToken"@.len() != "seal_addBridgeObserver"@.len());
    assert("seal_transferToken"@.len() != "seal_bridgeCouncilAdd"@.len());
    assert("seal_transferToken"@.len() != "seal_bridgeCouncilRemove"@.len());
    assert("seal_transferToken"@.len() != "seal_bridgePauseChain"@.len());
    assert("seal_transferToken"@.len() != "seal_bridgeUnpauseChain"@.len());
    assert("seal_transferToken"@.len() != "seal_bridgeRotateCommitteeKey"@.len());
    assert("seal_mintToken"@.len() != "seal_addBridgeObserver"@.len());
    assert("seal_mintToken"@.len() != "seal_bridgeCouncilAdd"@.len());
    assert("seal_mintToken"@.len() != "seal_bridgeCouncilRemove"@.len());
    assert("seal_mintToken"@.len() != "seal_bridgePauseChain"@.len());
    assert("seal_mintToken"@.len() != "seal_bridgeUnpauseChain"@.len());
    assert("seal_mintToken"@.len() != "seal_bridgeRotateCommitteeKey"@.len());
    assert("seal_burnToken"@.len() != "seal_addBridgeObserver"@.len());
    assert("seal_burnToken"@.len() != "seal_bridgeCouncilAdd"@.len());
    assert("seal_burnToken"@.len() != "seal_bridgeCouncilRemove"@.len());
    assert("seal_burnToken"@.len() != "seal_bridgePauseChain"@.len());
    assert("seal_burnToken"@.len() != "seal_bridgeUnpauseChain"@.len());
    assert("seal_burnToken"@.len() != "seal_bridgeRotateCommitteeKey"@.len());
    assert("seal_createToken"@.len() != "seal_addBridgeObserver"@.len());
    assert("seal_createToken"@.len() != "seal_bridgeCouncilAdd"@.len());
    assert("seal_createToken"@.len() != "seal_bridgeCouncilRemove"@.len());
    assert("seal_createToken"@.len() != "seal_bridgePauseChain"@.len());
    assert("seal_createToken"@.len() != "seal_bridgeUnpauseChain"@.len());
    assert("seal_createToken"@.len() != "seal_bridgeRotateCommitteeKey"@.len());
    assert("seal_createPair"@.len() != "seal_addBridgeObserver"@.len());
    assert("seal_createPair"@.len() != "seal_bridgeCouncilAdd"@.len());
    assert("seal_createPair"@.len() != "seal_bridgeCouncilRemove"@.len());
    assert("seal_createPair"@.len() != "seal_bridgePauseChain"@.len());
    assert("seal_createPair"@.len() != "seal_bridgeUnpauseChain"@.len());
    assert("seal_createPair"@.len() != "seal_bridgeRotateCommitteeKey"@.len());
    assert("seal_placeOrder"@.len() != "seal_addBridgeObserver"@.len());
    assert("seal_placeOrder"@.len() != "seal_bridgeCouncilAdd"@.len());
    assert("seal_placeOrder"@.len() != "seal_bridgeCouncilRemove"@.len());
    assert("seal_placeOrder"@.len() != "seal_bridgePauseChain"@.len());
    assert("seal_placeOrder"@.len() != "seal_bridgeUnpauseChain"@.len());
    assert("seal_placeOrder"@.len() != "seal_bridgeRotateCommitteeKey"@.len());
    assert("seal_govPropose"@.len() != "seal_addBridgeObserver"@.len());
    assert("seal_govPropose"@.len() != "seal_bridgeCouncilAdd"@.len());
    assert("seal_govPropose"@.len() != "seal_bridgeCouncilRemove"@.len());
    assert("seal_govPropose"@.len() != "seal_bridgePauseChain"@.len());
    assert("seal_govPropose"@.len() != "seal_bridgeUnpauseChain"@.len());
    assert("seal_govPropose"@.len() != "seal_bridgeRotateCommitteeKey"@.len());
    assert("seal_govVote"@.len() != "seal_addBridgeObserver"@.len());
    assert("seal_govVote"@.len() != "seal_bridgeCouncilAdd"@.len());
    assert("seal_govVote"@.len() != "seal_bridgeCouncilRemove"@.len());
    assert("seal_govVote"@.len() != "seal_bridgePauseChain"@.len());
    assert("seal_govVote"@.len() != "seal_bridgeUnpauseChain"@.len());
    assert("seal_govVote"@.len() != "seal_bridgeRotateCommitteeKey"@.len());
}

/// Requests-per-minute cap of a group.
pub open spec fn cap_of(config: RpcConfig, g: RpcGroup) -> u64 {
    match g {
        RpcGroup::Default => config.rpm_default,
        RpcGroup::Expensive => config.rpm_expensive,
        RpcGroup::Admin => config.rpm_admin,
    }
}

/// Requests-per-minute cap of a group under `config`.
pub fn group_cap(config: &RpcConfig, group: RpcGroup) -> (r: u64)
    ensures
        r == cap_of(*config, group),
{
    match group {
        RpcGroup::Default => config.rpm_default,
        RpcGroup::Expensive => config.rpm_expensive,
        RpcGroup::Admin => config.rpm_admin,
    }
}

// ---------------------------------------------------------------------------
// Admin gate and multisig
// ---------------------------------------------------------------------------

/// Whether `address` passes the admin check under `config`.
pub open spec fn admin_ok(address: Seq<char>, config: RpcConfig) -> bool {
    config.admin_addresses@ == Set::<Seq<char>>::empty() || config.admin_addresses@.contains(address)
}

/// The distinct admin signers of a request: the caller, and every
/// cosigner address that passes the admin check.
pub open spec fn admin_signers(caller: Seq<char>, cosigners: Seq<Seq<char>>, config: RpcConfig) -> Set<Seq<char>> {
    Set::new(|a: Seq<char>| cosigners.contains(a) && admin_ok(a, config)).insert(caller)
}

pub open spec fn msg_multisig(method: Seq<char>, threshold: usize, admins: nat, got: nat) -> Seq<char> {
    method + " requires "@ + dec(threshold as nat) + "-of-"@ + dec(admins) + " admin multisig; got "@ + dec(got)
        + " distinct admin signature(s)"@
}

pub open spec fn msg_not_admin(method: Seq<char>, address: Seq<char>) -> Seq<char> {
    method + " requires admin authorization (address "@ + address + " not in admin set)"@
}

/// Admin multisig: the caller (already authenticated) and the cosigners
/// whose signatures verified must make up at least `admin_threshold`
/// distinct admin addresses. `cosigner_addresses` are the addresses
/// derived from the cosignatures that verified.
pub fn verify_admin_multisig(method: &str, caller_address: &str, cosigner_addresses: &[String], config: &RpcConfig) -> (r:
    Result<(), String>)
    requires
        config.wf(),
    ensures
        ({
            let signers = admin_signers(
                caller_address@,
                cosigner_addresses@.map_values(|s: String| s@),
                *config,
            );
            &&& signers.finite()
            &&& r is Ok <==> signers.len() >= config.admin_threshold
            &&& r matches Err(e) ==> e@ == msg_multisig(
                method@,
                config.admin_threshold,
                config.admin_addresses@.len(),
                signers.len(),
            )
        }),
{
    let ghost cos = cosigner_addresses@.map_values(|s: String| s@);
    let mut verified = NameSet::new();
    verified.insert(string_of(caller_address));
    let mut i: usize = 0;
    while i < cosigner_addresses.len()
        invariant
            verified.wf(),
            config.wf(),
            i <= cos.len(),
            cos == cosigner_addresses@.map_values(|s: String| s@),
            verified@ == admin_signers(caller_address@, cos.take(i as int), *config),
        decreases cos.len() - i,
    {
        let c = &cosigner_addresses[i];
        let ghost before = verified@;
        if is_admin(c.as_str(), config) {
            verified.insert(c.clone());
        }
        proof {
            let lhs = verified@;
            let rhs = admin_signers(caller_address@, cos.take(i + 1), *config);
            let ci = cos[i as int];
            assert(ci == c@);
            assert(cos.take(i + 1) =~= cos.take(i as int).push(ci));
            assert forall|a: Seq<char>| #[trigger] lhs.contains(a) == rhs.contains(a) by {
                let in_old = cos.take(i as int).contains(a);
                let in_new = cos.take(i + 1).contains(a);
                if in_old {
                    let j = choose|j: int| 0 <= j < i && #[trigger] cos.take(i as int)[j] == a;
                    assert(cos.take(i + 1)[j] == a);
                }
                if in_new && a != ci {
                    let j = choose|j: int| 0 <= j < i + 1 && #[trigger] cos.take(i + 1)[j] == a;
                    assert(j < i);
                    assert(cos.take(i as int)[j] == a);
                }
                if a == ci {
                    assert(cos.take(i + 1)[i as int] == a);
                }
                assert(in_new == (in_old || a == ci));
                assert(before.contains(a) == (a == caller_address@ || (in_old && admin_ok(a, *config))));
                assert(rhs.contains(a) == (a == caller_address@ || (in_new && admin_ok(a, *config))));
            }
            assert(lhs =~= rhs);
        }
        i = i + 1;
    }
    proof {
        assert(cos.take(cos.len() as int) =~= cos);
    }
    let n = verified.len();
    if n < config.admin_threshold {
        let mut msg = string_of(method);
        msg.append(" requires ");
        push_dec(&mut msg, config.admin_threshold as u64);
        msg.append("-of-");
        push_dec(&mut msg, config.admin_addresses.len() as u64);
        msg.append(" admin multisig; got ");
        push_dec(&mut msg, n as u64);
        msg.append(" distinct admin signature(s)");
        return Err(msg);
    }
    Ok(())
}

/// The admin gate applied after authentication when the method is
/// admin-gated and the admin set is populated: the caller (or the empty
/// address when unsigned) must be an admin, and with a threshold of 2 or
/// more the admin multisig must hold. Both refusals carry code -32004.
pub fn check_admin_gate(method: &str, caller: Option<&str>, cosigner_addresses: &[String], config: &RpcConfig) -> (r:
    Result<(), (i64, String)>)
    requires
        config.wf(),
    ensures
        ({
            let address = match caller {
                Some(a) => a@,
                None => Seq::<char>::empty(),
            };
            let signers = admin_signers(address, cosigner_addresses@.map_values(|s: String| s@), *config);
            &&& r is Ok <==> admin_ok(address, *config) && (config.admin_threshold < 2 || signers.len()
                >= config.admin_threshold)
            &&& r matches Err(e) ==> e.0 == -32004 && if !admin_ok(address, *config) {
                e.1@ == msg_not_admin(method@, address)
            } else {
                e.1@ == msg_multisig(method@, config.admin_threshold, config.admin_addresses@.len(), signers.len())
            }
        }),
{
    let address: &str = match caller {
        Some(a) => a,
        None => "",
    };
    proof {
        reveal_strlit("");
        assert(address@ == match caller {
            Some(a) => a@,
            None => Seq::<char>::empty(),
        });
    }
    if !is_admin(address, config) {
        let mut msg = string_of(method);
        msg.append(" requires admin authorization (address ");
        msg.append(address);
        msg.append(" not in admin set)");
        return Err((-32004, msg));
    }
    if config.admin_threshold >= 2 {
        match verify_admin_multisig(method, address, cosigner_addresses, config) {
            Ok(()) => {},
            Err(msg) => {
                return Err((-32004, msg));
            },
        }
    }
    Ok(())
}

// ---------------------------------------------------------------------------
// Rate limiting
// ---------------------------------------------------------------------------

/// Length of a rate-limit window, in milliseconds.
pub const RATE_WINDOW_MS: u64 = 60_000;

/// Age after which an idle window is dropped, in milliseconds.
pub const RATE_EXPIRY_MS: u64 = 120_000;

/// Requests counted in the current window of one `(ip, group)` bucket.
#[derive(Clone, Copy, Debug, PartialEq, Eq, Structural)]
pub struct RateWindow {
    /// Client address (IPv4 addresses mapped into IPv6).
    pub ip: u128,
    pub group: RpcGroup,
    /// Requests seen in this window.
    pub count: u64,
    /// Start of the window, in milliseconds on a monotonic clock.
    pub started_ms: u64,
}

/// Elapsed time from `start` to `now`, zero when `now` is earlier.
pub open spec fn elapsed(now: u64, start: u64) -> u64 {
    if now >= start { (now - start) as u64 } else { 0 }
}

/// At most one window per `(ip, group)`.
pub open spec fn windows_unique(w: Seq<RateWindow>) -> bool {
    forall|i: int, j: int|
        0 <= i < j < w.len() ==> !((#[trigger] w[i]).ip == (#[trigger] w[j]).ip && w[i].group == w[j].group)
}

/// Whether a window exists for `(ip, group)`.
pub open spec fn has_window(w: Seq<RateWindow>, ip: u128, group: RpcGroup) -> bool {
    exists|k: int| 0 <= k < w.len() && (#[trigger] w[k]).ip == ip && w[k].group == group
}

/// Index of the window for `(ip, group)` (meaningful when `has_window`).
pub open spec fn window_index(w: Seq<RateWindow>, ip: u128, group: RpcGroup) -> int {
    choose|k: int| 0 <= k < w.len() && (#[trigger] w[k]).ip == ip && w[k].group == group
}

/// One request of `(ip, group)` at time `now`: a fresh bucket counts it
/// as the first; a window older than a minute restarts and admits it;
/// otherwise it is counted and admitted while the count stays within
/// `max`. Gives the new windows and whether the request is admitted.
pub open spec fn rate_step(w: Seq<RateWindow>, ip: u128, group: RpcGroup, max: u64, now: u64) -> (
    Seq<RateWindow>,
    bool,
) {
    if !has_window(w, ip, group) {
        (w.push(RateWindow { ip, group, count: 1, started_ms: now }), 1 <= max)
    } else {
        let k = window_index(w, ip, group);
        let e = w[k];
        if elapsed(now, e.started_ms) >= RATE_WINDOW_MS {
            (w.update(k, RateWindow { count: 1, started_ms: now, ..e }), true)
        } else {
            (w.update(k, RateWindow { count: (e.count + 1) as u64, ..e }), e.count + 1 <= max)
        }
    }
}

/// Count of the bucket `(ip, group)` (0 when absent).
pub open spec fn bucket_count(w: Seq<RateWindow>, ip: u128, group: RpcGroup) -> u64 {
    if has_window(w, ip, group) { w[window_index(w, ip, group)].count } else { 0 }
}

/// Buckets are keyed by address and group: a request counted in one
/// bucket leaves the count of every other bucket as it was, so a client
/// that exhausts its expensive allowance keeps its cheap one, and one
/// client's traffic never counts against another's.
pub proof fn lemma_rate_buckets_independent(
    w: Seq<RateWindow>,
    ip: u128,
    group: RpcGroup,
    max: u64,
    now: u64,
    other_ip: u128,
    other_group: RpcGroup,
)
    requires
        windows_unique(w),
        !(other_ip == ip && other_group == group),
    ensures
        bucket_count(rate_step(w, ip, group, max, now).0, other_ip, other_group) == bucket_count(
            w,
            other_ip,
            other_group,
        ),
{
    let w2 = rate_step(w, ip, group, max, now).0;
    assert(w2.len() >= w.len());
    assert forall|k: int| 0 <= k < w.len() && (#[trigger] w[k]).ip == other_ip && w[k].group == other_group implies w2[k]
        == w[k] by {
        if has_window(w, ip, group) {
            let i = window_index(w, ip, group);
            assert(k != i);
        }
    }
    assert forall|k: int| 0 <= k < w2.len() && (#[trigger] w2[k]).ip == other_ip && w2[k].group == other_group implies k
        < w.len() && w2[k] == w[k] by {
        if has_window(w, ip, group) {
            let i = window_index(w, ip, group);
            if k == i {
                assert(w2[k].ip == ip && w2[k].group == group);
            }
        } else if k == w.len() {
            assert(w2[k].ip == ip && w2[k].group == group);
        }
    }
    if has_window(w2, other_ip, other_group) {
        let k2 = window_index(w2, other_ip, other_group);
        assert(k2 < w.len() && w2[k2] == w[k2]);
        assert(has_window(w, other_ip, other_group));
        let k = window_index(w, other_ip, other_group);
        if k != k2 {
            if k < k2 {
                assert(!(w[k].ip == w[k2].ip && w[k].group == w[k2].group));
            } else {
                assert(!(w[k2].ip == w[k].ip && w[k2].group == w[k].group));
            }
        }
    } else if has_window(w, other_ip, other_group) {
        let k = window_index(w, other_ip, other_group);
        assert(w2[k] == w[k]);
        assert(has_window(w2, other_ip, other_group));
    }
}

/// Whether a window is still fresh at `now`.
pub open spec fn window_fresh(now: u64) -> spec_fn(RateWindow) -> bool {
    |e: RateWindow| elapsed(now, e.started_ms) < RATE_EXPIRY_MS
}

/// Per-IP, per-group request counter over one-minute windows.
pub struct RateLimiter {
    windows: Vec<RateWindow>,
}

impl View for RateLimiter {
    type V = Seq<RateWindow>;

    closed spec fn view(&self) -> Seq<RateWindow> {
        self.windows@
    }
}

impl Default for RateLimiter {
    fn default() -> (l: Self)
        ensures
            l@.len() == 0,
            windows_unique(l@),
    {
        RateLimiter { windows: Vec::new() }
    }
}

impl RateLimiter {
    fn find(&self, ip: u128, group: RpcGroup) -> (r: Option<usize>)
        requires
            windows_unique(self@),
        ensures
            match r {
                Some(k) => k < self@.len() && has_window(self@, ip, group) && window_index(self@, ip, group) == k,
                None => !has_window(self@, ip, group),
            },
    {
        let mut i: usize = 0;
        while i < self.windows.len()
            invariant
                windows_unique(self@),
                i <= self@.len(),
                forall|j: int| 0 <= j < i ==> !((#[trigger] self@[j]).ip == ip && self@[j].group == group),
            decreases self@.len() - i,
        {
            if self.windows[i].ip == ip && self.windows[i].group == group {
                proof {
                    let w = self@;
                    let k = window_index(w, ip, group);
                    if k < i {
                        assert(!(w[k].ip == w[i as int].ip && w[k].group == w[i as int].group));
                    } else if k > i {
                        assert(!(w[i as int].ip == w[k].ip && w[i as int].group == w[k].group));
                    }
                }
                return Some(i);
            }
            i = i + 1;
        }
        None
    }

    /// Requests counted so far in the bucket of `ip` and `group` (0 when
    /// it has none).
    pub fn count(&self, ip: u128, group: RpcGroup) -> (r: u64)
        requires
            windows_unique(self@),
        ensures
            r == bucket_count(self@, ip, group),
    {
        match self.find(ip, group) {
            Some(k) => self.windows[k].count,
            None => 0,
        }
    }

    /// Counts one request of `ip` in `group` at `now_ms` and says whether
    /// it is admitted under `max_per_minute` (see `rate_step`).
    pub fn check(&mut self, ip: u128, group: RpcGroup, max_per_minute: u64, now_ms: u64) -> (r: bool)
        requires
            windows_unique(old(self)@),
            bucket_count(old(self)@, ip, group) < u64::MAX,
        ensures
            windows_unique(final(self)@),
            (final(self)@, r) == rate_step(old(self)@, ip, group, max_per_minute, now_ms),
    {
        let ghost w = self@;
        match self.find(ip, group) {
            None => {
                self.windows.push(RateWindow { ip, group, count: 1, started_ms: now_ms });
                proof {
                    let n = self@;
                    assert forall|i: int, j: int| 0 <= i < j < n.len() implies !((#[trigger] n[i]).ip == (
                    #[trigger] n[j]).ip && n[i].group == n[j].group) by {
                        if j < w.len() {
                            assert(!(w[i].ip == w[j].ip && w[i].group == w[j].group));
                        }
                    }
                }
                1 <= max_per_minute
            },
            Some(k) => {
                let e = self.windows[k];
                let age = now_ms.saturating_sub(e.started_ms);
                let (next, admitted) = if age >= RATE_WINDOW_MS {
                    (RateWindow { count: 1, started_ms: now_ms, ..e }, true)
                } else {
                    (RateWindow { count: e.count + 1, ..e }, e.count + 1 <= max_per_minute)
                };
                self.windows.set(k, next);
                proof {
                    let n = self@;
                    assert forall|i: int, j: int| 0 <= i < j < n.len() implies !((#[trigger] n[i]).ip == (
                    #[trigger] n[j]).ip && n[i].group == n[j].group) by {
                        assert(!(w[i].ip == w[j].ip && w[i].group == w[j].group));
                    }
                }
                admitted
            },
        }
    }

    /// Drops the windows that started two minutes or more before `now_ms`.
    pub fn cleanup(&mut self, now_ms: u64)
        requires
            windows_unique(old(self)@),
        ensures
            windows_unique(final(self)@),
            final(self)@ == old(self)@.filter(window_fresh(now_ms)),
    {
        let ghost old_w = self@;
        let ghost keep = window_fresh(now_ms);
        let mut kept: Vec<RateWindow> = Vec::new();
        let mut i: usize = 0;
        assert(old_w.take(0) =~= Seq::<RateWindow>::empty());
        proof { reveal(Seq::filter); }
        while i < self.windows.len()
            invariant
                old_w == self@,
                keep == window_fresh(now_ms),
                i <= old_w.len(),
                kept@ == old_w.take(i as int).filter(keep),
                forall|k: int| 0 <= k < kept@.len() ==> exists|j: int| 0 <= j < i && old_w[j] == #[trigger] kept@[k],
                forall|a: int, b: int| 0 <= a < b < kept@.len() ==> exists|x: int, y: int|
                    0 <= x < y < i && old_w[x] == #[trigger] kept@[a] && old_w[y] == #[trigger] kept@[b],
                windows_unique(old_w),
            decreases old_w.len() - i,
        {
            proof { reveal(Seq::filter); }
            assert(old_w.take(i + 1).drop_last() =~= old_w.take(i as int));
            let e = self.windows[i];
            if now_ms.saturating_sub(e.started_ms) < RATE_EXPIRY_MS {
                kept.push(e);
            }
            i = i + 1;
        }
        assert(old_w.take(old_w.len() as int) =~= old_w);
        self.windows = kept;
        proof {
            let n = self@;
            assert forall|a: int, b: int| 0 <= a < b < n.len() implies !((#[trigger] n[a]).ip == (
            #[trigger] n[b]).ip && n[a].group == n[b].group) by {
                let (x, y) = choose|x: int, y: int| 0 <= x < y < old_w.len() && old_w[x] == n[a] && old_w[y] == n[b];
                assert(!(old_w[x].ip == old_w[y].ip && old_w[x].group == old_w[y].group));
            }
        }
    }
}

// ---------------------------------------------------------------------------
// Admission of a request
// ---------------------------------------------------------------------------

/// Name of a group as its debug rendering prints it.
pub open spec fn group_name(g: RpcGroup) -> Seq<char> {
    match g {
        RpcGroup::Default => "Default"@,
        RpcGroup::Expensive => "Expensive"@,
        RpcGroup::Admin => "Admin"@,
    }
}

fn group_name_str(g: RpcGroup) -> (s: &'static str)
    ensures
        s@ == group_name(g),
{
    match g {
        RpcGroup::Default => "Default",
        RpcGroup::Expensive => "Expensive",
        RpcGroup::Admin => "Admin",
    }
}

pub open spec fn msg_rate_limited(g: RpcGroup, cap: u64) -> Seq<char> {
    "rate limit exceeded for "@ + group_name(g) + " group ("@ + dec(cap as nat) + " req/min)"@
}

/// Whether a request must be signed: methods that need auth, and
/// admin-gated methods once the admin set is populated.
pub open spec fn needs_signature(m: Seq<char>, config: RpcConfig) -> bool {
    is_auth_method(m) || admin_gated(m, config)
}

/// Whether the admin gate applies: an admin-gated method with a
/// populated admin set.
pub open spec fn admin_gated(m: Seq<char>, config: RpcConfig) -> bool {
    is_admin_method(m) && config.admin_addresses@ != Set::<Seq<char>>::empty()
}

/// What happens to a request before its handler runs.
pub enum Admission {
    /// Refused; `too_many_requests` marks a rate-limit refusal.
    Refused { too_many_requests: bool, code: i64, message: String },
    /// Goes on: signature checked when `needs_signature`, admin gate
    /// applied when `admin_gated`.
    Proceed { needs_signature: bool, admin_gated: bool },
}

/// First steps of serving a request: the per-group rate limit (code
/// -32005 and HTTP 429 when exceeded), the SQL length limit (code
/// -32000), then what authentication the method needs. `sql_len` is the
/// byte length of the `sql` parameter when it is a string.
pub fn admit_request(
    limiter: &mut RateLimiter,
    ip: u128,
    now_ms: u64,
    method: &str,
    sql_len: Option<usize>,
    config: &RpcConfig,
) -> (a: Admission)
    requires
        windows_unique(old(limiter)@),
        bucket_count(old(limiter)@, ip, group_of(method@)) < u64::MAX,
    ensures
        windows_unique(final(limiter)@),
        ({
            let g = group_of(method@);
            let cap = cap_of(*config, g);
            let (windows, admitted) = rate_step(old(limiter)@, ip, g, cap, now_ms);
            let too_large = match sql_len {
                Some(n) => n > config.max_query_length,
                None => false,
            };
            &&& final(limiter)@ == windows
            &&& !admitted ==> (a matches Admission::Refused { too_many_requests, code, message } && too_many_requests
                && code == -32005 && message@ == msg_rate_limited(g, cap))
            &&& admitted && too_large ==> (a matches Admission::Refused { too_many_requests, code, message }
                && !too_many_requests && code == -32000 && message@ == "query too large"@)
            &&& admitted && !too_large ==> a == (Admission::Proceed {
                needs_signature: needs_signature(method@, *config),
                admin_gated: admin_gated(method@, *config),
            })
        }),
{
    let group = rpc_group_for_method(method);
    let cap = group_cap(config, group);
    if !limiter.check(ip, group, cap, now_ms) {
        let mut msg = string_of("rate limit exceeded for ");
        msg.append(group_name_str(group));
        msg.append(" group (");
        push_dec(&mut msg, cap);
        msg.append(" req/min)");
        return Admission::Refused { too_many_requests: true, code: -32005, message: msg };
    }
    match sql_len {
        Some(n) => {
            if n > config.max_query_length {
                return Admission::Refused {
                    too_many_requests: false,
                    code: -32000,
                    message: string_of("query too large"),
                };
            }
        },
        None => {},
    }
    let admin_method = requires_admin_auth(method);
    let gated = admin_method && !config.admin_addresses.is_empty();
    let needs = requires_auth(method) || gated;
    Admission::Proceed { needs_signature: needs, admin_gated: gated }
}

// ---------------------------------------------------------------------------
// Governance parameters
// ---------------------------------------------------------------------------

/// ASCII lower case of a character; other characters are unchanged.
pub open spec fn ascii_lower_char(c: char) -> char {
    if ('A' as int) <= (c as int) <= ('Z' as int) {
        ((c as int) + 32) as char
    } else {
        c
    }
}

/// ASCII lower case of a string.
pub open spec fn ascii_lower(s: Seq<char>) -> Seq<char> {
    s.map_values(|c: char| ascii_lower_char(c))
}

/// Calls `str::to_ascii_lowercase`, which std documents as mapping the
/// ASCII letters 'A' to 'Z' to 'a' to 'z' and leaving every other
/// character unchanged.
#[verifier::external_body]
pub(crate) fn to_ascii_lowercase(s: &str) -> (r: String)
    ensures
        r@ == ascii_lower(s@),
{
    s.to_ascii_lowercase()
}

/// ASCII upper case of a character; other characters are unchanged.
pub open spec fn ascii_upper_char(c: char) -> char {
    if ('a' as int) <= (c as int) <= ('z' as int) {
        ((c as int) - 32) as char
    } else {
        c
    }
}

/// ASCII upper case of a string.
pub open spec fn ascii_upper(s: Seq<char>) -> Seq<char> {
    s.map_values(|c: char| ascii_upper_char(c))
}

/// Calls `str::to_ascii_uppercase`, which std documents as mapping the
/// ASCII letters 'a' to 'z' to 'A' to 'Z' and leaving every other
/// character unchanged.
#[verifier::external_body]
pub(crate) fn to_ascii_uppercase(s: &str) -> (r: String)
    ensures
        r@ == ascii_upper(s@),
{
    s.to_ascii_uppercase()
}

/// Whether a character is an ASCII hexadecimal digit.
pub open spec fn is_hex_char(c: char) -> bool {
    ('0' as int) <= (c as int) <= ('9' as int) || ('a' as int) <= (c as int) <= ('f' as int) || ('A' as int) <= (
    c as int) <= ('F' as int)
}

/// Whether an address is written as 32 bytes of hex: 64 bytes, all of
/// them ASCII hexadecimal digits.
pub open spec fn is_hex_address(addr: &str) -> bool {
    addr.len() == 64 && forall|i: int| 0 <= i < addr@.len() ==> is_hex_char(#[trigger] addr@[i])
}

/// The lookup key of an address given as 32 bytes of hex: the digits in
/// lower case. Any other form gives `None` (the bech32m form of an
/// address is decoded where the address codec lives).
pub fn hex_address_key(addr: &str) -> (r: Option<String>)
    ensures
        is_hex_address(addr) ==> (r matches Some(k) && k@ == ascii_lower(addr@)),
        !is_hex_address(addr) ==> r is None,
{
    if addr.len() != 64 {
        return None;
    }
    let n = addr.unicode_len();
    let mut i: usize = 0;
    while i < n
        invariant
            n == addr@.len(),
            i <= n,
            forall|j: int| 0 <= j < i ==> is_hex_char(#[trigger] addr@[j]),
        decreases n - i,
    {
        let c = addr.get_char(i);
        if !(('0' <= c && c <= '9') || ('a' <= c && c <= 'f') || ('A' <= c && c <= 'F')) {
            assert(!is_hex_char(addr@[i as int]));
            return None;
        }
        i = i + 1;
    }
    Some(to_ascii_lowercase(addr))
}

/// The track named by a lower-case alias.
pub open spec fn track_alias(s: Seq<char>) -> Option<ProposalTrack> {
    if s == "parameter"@ || s == "parameter_change"@ || s == "parameterchange"@ {
        Some(ProposalTrack::ParameterChange)
    } else if s == "protocol"@ || s == "protocol_upgrade"@ || s == "protocolupgrade"@ {
        Some(ProposalTrack::ProtocolUpgrade)
    } else if s == "treasury_small"@ || s == "treasurysmall"@ {
        Some(ProposalTrack::TreasurySmall)
    } else if s == "treasury_large"@ || s == "treasurylarge"@ {
        Some(ProposalTrack::TreasuryLarge)
    } else if s == "emergency"@ {
        Some(ProposalTrack::Emergency)
    } else if s == "constitutional"@ {
        Some(ProposalTrack::Constitutional)
    } else {
        None
    }
}

/// The conviction named by a lower-case alias.
pub open spec fn conviction_alias(s: Seq<char>) -> Option<Conviction> {
    if s == "none"@ || s == "0"@ {
        Some(Conviction::NoLock)
    } else if s == "x1"@ || s == "1"@ {
        Some(Conviction::X1)
    } else if s == "x2"@ || s == "2"@ {
        Some(Conviction::X2)
    } else if s == "x3"@ || s == "3"@ {
        Some(Conviction::X3)
    } else if s == "x4"@ || s == "4"@ {
        Some(Conviction::X4)
    } else if s == "x5"@ || s == "5"@ {
        Some(Conviction::X5)
    } else if s == "x6"@ || s == "6"@ {
        Some(Conviction::X6)
    } else {
        None
    }
}

/// The vote choice named by a lower-case alias.
pub open spec fn choice_alias(s: Seq<char>) -> Option<VoteChoice> {
    if s == "yes"@ || s == "aye"@ {
        Some(VoteChoice::Yes)
    } else if s == "no"@ || s == "nay"@ {
        Some(VoteChoice::No)
    } else if s == "abstain"@ {
        Some(VoteChoice::Abstain)
    } else {
        None
    }
}

fn unknown(what: &str, lower: &str) -> (e: (i32, String))
    ensures
        e.0 == -32602,
        e.1@ == "unknown "@ + what@ + " '"@ + lower@ + "'"@,
{
    let mut msg = string_of("unknown ");
    msg.append(what);
    msg.append(" '");
    msg.append(lower);
    msg.append("'");
    (-32602, msg)
}

/// Parses a proposal track, ignoring ASCII case; unknown names are
/// refused with code -32602.
pub fn parse_track(s: &str) -> (r: Result<ProposalTrack, (i32, String)>)
    ensures
        match track_alias(ascii_lower(s@)) {
            Some(t) => r == Ok::<ProposalTrack, (i32, String)>(t),
            None => r matches Err(e) && e.0 == -32602 && e.1@ == "unknown track '"@ + ascii_lower(s@) + "'"@,
        },
{
    let lower = to_ascii_lowercase(s);
    let l = lower.as_str();
    if str_eq(l, "parameter") || str_eq(l, "parameter_change") || str_eq(l, "parameterchange") {
        Ok(ProposalTrack::ParameterChange)
    } else if str_eq(l, "protocol") || str_eq(l, "protocol_upgrade") || str_eq(l, "protocolupgrade") {
        Ok(ProposalTrack::ProtocolUpgrade)
    } else if str_eq(l, "treasury_small") || str_eq(l, "treasurysmall") {
        Ok(ProposalTrack::TreasurySmall)
    } else if str_eq(l, "treasury_large") || str_eq(l, "treasurylarge") {
        Ok(ProposalTrack::TreasuryLarge)
    } else if str_eq(l, "emergency") {
        Ok(ProposalTrack::Emergency)
    } else if str_eq(l, "constitutional") {
        Ok(ProposalTrack::Constitutional)
    } else {
        let e = unknown("track", l);
        proof { reveal_strlit("track"); reveal_strlit("unknown "); reveal_strlit(" '"); reveal_strlit("unknown track '"); }
        Err(e)
    }
}

/// Parses a conviction (`none`/`0` through `x6`/`6`), ignoring ASCII
/// case; unknown names are refused with code -32602.
pub fn parse_conviction(s: &str) -> (r: Result<Conviction, (i32, String)>)
    ensures
        match conviction_alias(ascii_lower(s@)) {
            Some(c) => r == Ok::<Conviction, (i32, String)>(c),
            None => r matches Err(e) && e.0 == -32602 && e.1@ == "unknown conviction '"@ + ascii_lower(s@) + "'"@,
        },
{
    let lower = to_ascii_lowercase(s);
    let l = lower.as_str();
    if str_eq(l, "none") || str_eq(l, "0") {
        Ok(Conviction::NoLock)
    } else if str_eq(l, "x1") || str_eq(l, "1") {
        Ok(Conviction::X1)
    } else if str_eq(l, "x2") || str_eq(l, "2") {
        Ok(Conviction::X2)
    } else if str_eq(l, "x3") || str_eq(l, "3") {
        Ok(Conviction::X3)
    } else if str_eq(l, "x4") || str_eq(l, "4") {
        Ok(Conviction::X4)
    } else if str_eq(l, "x5") || str_eq(l, "5") {
        Ok(Conviction::X5)
    } else if str_eq(l, "x6") || str_eq(l, "6") {
        Ok(Conviction::X6)
    } else {
        let e = unknown("conviction", l);
        proof {
            reveal_strlit("conviction");
            reveal_strlit("unknown ");
            reveal_strlit(" '");
            reveal_strlit("unknown conviction '");
        }
        Err(e)
    }
}

/// Parses a vote choice (`yes`/`aye`, `no`/`nay`, `abstain`), ignoring
/// ASCII case; unknown names are refused with code -32602.
pub fn parse_choice(s: &str) -> (r: Result<VoteChoice, (i32, String)>)
    ensures
        match choice_alias(ascii_lower(s@)) {
            Some(c) => r == Ok::<VoteChoice, (i32, String)>(c),
            None => r matches Err(e) && e.0 == -32602 && e.1@ == "unknown vote choice '"@ + ascii_lower(s@) + "'"@,
        },
{
    let lower = to_ascii_lowercase(s);
    let l = lower.as_str();
    if str_eq(l, "yes") || str_eq(l, "aye") {
        Ok(VoteChoice::Yes)
    } else if str_eq(l, "no") || str_eq(l, "nay") {
        Ok(VoteChoice::No)
    } else if str_eq(l, "abstain") {
        Ok(VoteChoice::Abstain)
    } else {
        let e = unknown("vote choice", l);
        proof {
            reveal_strlit("vote choice");
            reveal_strlit("unknown ");
            reveal_strlit(" '");
            reveal_strlit("unknown vote choice '");
        }
        Err(e)
    }
}

// ---------------------------------------------------------------------------
// Records
// ---------------------------------------------------------------------------

/// A registered namespace.
#[derive(Clone, Debug)]
pub struct NamespaceEntry {
    pub name: String,
    pub owner: String,
    pub schema_hash: String,
    pub visibility: String,
    pub replication: u64,
}

/// A JSON-RPC 2.0 error.
#[derive(Debug)]
pub struct RpcError {
    pub code: i64,
    pub message: String,
}

} // verus!
