//! Prometheus text exposition of the node's gauges: chain state, ledger
//! roots, bridge health and the RPC policy in force.

use vstd::prelude::*;
use crate::hash::{bytes_eq, hex_decode, hex_decode_spec, hex_encode, hex_of};
use crate::rpc::RpcConfig;
use crate::text::{dec, push_dec};

verus! {

/// The `# HELP` and `# TYPE` lines of a gauge.
#[verifier::opaque]
pub open spec fn gauge_head(name: Seq<char>, help: Seq<char>) -> Seq<char> {
    "# HELP "@ + name + " "@ + help + "\n# TYPE "@ + name + " gauge\n"@
}

/// A gauge with its header and one unlabelled sample.
#[verifier::opaque]
pub open spec fn gauge_text(name: Seq<char>, help: Seq<char>, value: nat) -> Seq<char> {
    gauge_head(name, help) + name + " "@ + dec(value) + "\n"@
}

/// A flag as a sample value.
pub open spec fn flag(b: bool) -> nat {
    if b { 1 } else { 0 }
}

fn push_head(out: &mut String, name: &str, help: &str)
    ensures
        final(out)@ == old(out)@ + gauge_head(name@, help@),
{
    proof { reveal(gauge_head); }
    out.append("# HELP ");
    out.append(name);
    out.append(" ");
    out.append(help);
    out.append("\n# TYPE ");
    out.append(name);
    out.append(" gauge\n");
}

fn push_gauge(out: &mut String, name: &str, help: &str, value: u64)
    ensures
        final(out)@ == old(out)@ + gauge_text(name@, help@, value as nat),
{
    proof { reveal(gauge_text); }
    push_head(out, name, help);
    out.append(name);
    out.append(" ");
    push_dec(out, value);
    out.append("\n");
}

fn flag_value(b: bool) -> (r: u64)
    ensures
        r as nat == flag(b),
{
    if b { 1 } else { 0 }
}

// ---------------------------------------------------------------------------
// Chain and ledger gauges
// ---------------------------------------------------------------------------

/// Gauges read from the node's chain and ledgers.
#[derive(Clone, Copy, Debug, PartialEq, Eq, Structural)]
pub struct NodeGauges {
    pub height: u64,
    pub uptime_secs: u64,
    pub leases_active: u64,
    /// Accounts with a non-zero balance.
    pub account_count: u64,
    /// Minted minus burned, in micro-SEAL.
    pub total_supply: u64,
    pub tokens_registered: u64,
    /// (symbol, address) pairs frozen across all tokens.
    pub frozen_accounts: u64,
    /// Tokens frozen as a whole.
    pub frozen_tokens: u64,
}

/// The chain and ledger gauges, in order.
pub open spec fn node_gauges_text(g: NodeGauges) -> Seq<char> {
    gauge_text("seal_chain_height"@, "Current chain height"@, g.height as nat)
        + gauge_text("seal_uptime_seconds"@, "Node uptime in seconds"@, g.uptime_secs as nat)
        + gauge_text("seal_leases_active"@, "Number of active storage leases"@, g.leases_active as nat)
        + gauge_text(
            "seal_account_count"@,
            "Number of SEAL accounts in the native ledger"@,
            g.account_count as nat,
        )
        + gauge_text(
            "seal_total_supply_micro"@,
            "Total SEAL supply (minted - burned, micro-SEAL)"@,
            g.total_supply as nat,
        )
        + gauge_text(
            "seal_tokens_registered"@,
            "Number of custom tokens created via seal_createToken"@,
            g.tokens_registered as nat,
        )
        + gauge_text(
            "seal_frozen_accounts"@,
            "Total (symbol, address) frozen-account entries across all tokens"@,
            g.frozen_accounts as nat,
        )
        + gauge_text(
            "seal_frozen_tokens"@,
            "Number of tokens currently in the global-frozen kill-switch state"@,
            g.frozen_tokens as nat,
        )
}

/// Appends the chain and ledger gauges.
pub fn push_node_gauges(out: &mut String, g: &NodeGauges)
    ensures
        final(out)@ == old(out)@ + node_gauges_text(*g),
{
    push_gauge(out, "seal_chain_height", "Current chain height", g.height);
    push_gauge(out, "seal_uptime_seconds", "Node uptime in seconds", g.uptime_secs);
    push_gauge(out, "seal_leases_active", "Number of active storage leases", g.leases_active);
    push_gauge(
        out,
        "seal_account_count",
        "Number of SEAL accounts in the native ledger",
        g.account_count,
    );
    push_gauge(
        out,
        "seal_total_supply_micro",
        "Total SEAL supply (minted - burned, micro-SEAL)",
        g.total_supply,
    );
    push_gauge(
        out,
        "seal_tokens_registered",
        "Number of custom tokens created via seal_createToken",
        g.tokens_registered,
    );
    push_gauge(
        out,
        "seal_frozen_accounts",
        "Total (symbol, address) frozen-account entries across all tokens",
        g.frozen_accounts,
    );
    push_gauge(
        out,
        "seal_frozen_tokens",
        "Number of tokens currently in the global-frozen kill-switch state",
        g.frozen_tokens,
    );
}

/// The two ledger roots as label-only gauges, given their hex renderings.
pub open spec fn state_roots_text(balance_hex: Seq<char>, token_hex: Seq<char>) -> Seq<char> {
    gauge_head(
        "seal_balance_state_root"@,
        "HAMT root over the native SEAL ledger (hex label)"@,
    ) + "seal_balance_state_root{root_hex=\""@ + balance_hex + "\"} 1\n"@ + gauge_head(
        "seal_token_state_root"@,
        "HAMT root over per-token ledgers (hex label)"@,
    ) + "seal_token_state_root{root_hex=\""@ + token_hex + "\"} 1\n"@
}

/// Appends the two ledger roots, rendered in hexadecimal.
pub fn push_state_roots(out: &mut String, balance_root: &[u8], token_root: &[u8])
    ensures
        final(out)@ == old(out)@ + state_roots_text(hex_of(balance_root@), hex_of(token_root@)),
{
    let balance_hex = hex_encode(balance_root);
    let token_hex = hex_encode(token_root);
    push_head(
        out,
        "seal_balance_state_root",
        "HAMT root over the native SEAL ledger (hex label)",
    );
    out.append("seal_balance_state_root{root_hex=\"");
    out.append(balance_hex.as_str());
    out.append("\"} 1\n");
    push_head(out, "seal_token_state_root", "HAMT root over per-token ledgers (hex label)");
    out.append("seal_token_state_root{root_hex=\"");
    out.append(token_hex.as_str());
    out.append("\"} 1\n");
}

// ---------------------------------------------------------------------------
// Bridge gauges
// ---------------------------------------------------------------------------

/// Locked and minted amounts of one wrapped token.
#[derive(Clone, Debug)]
pub struct TokenSupply {
    pub symbol: String,
    pub locked: u64,
    pub minted: u64,
}

/// Bridge health as read from the bridge manager.
#[derive(Clone, Debug)]
pub struct BridgeGauges {
    pub committee_key_set: bool,
    pub paused_chains: u64,
    pub deposits_total: u64,
    pub deposits_pending: u64,
    pub withdrawals_total: u64,
    /// SHA-256 fingerprint of the committee key, when one is installed.
    pub key_fingerprint: Option<Vec<u8>>,
    /// Whether the key on disk matches the one in memory.
    pub key_persisted: bool,
    /// Whether any wrapped token has more minted than locked.
    pub invariant_violated: bool,
    pub tokens: Vec<TokenSupply>,
}

/// Whether the committee key written on disk (`file_text`, trimmed, when
/// the file could be read) is the one in memory: the gauge that lets
/// operators see a rotation whose write to disk failed.
pub fn committee_key_persisted(in_memory: Option<&[u8]>, file_text: Option<&str>) -> (r: bool)
    ensures
        r == (in_memory is Some && file_text is Some && hex_decode_spec(file_text.unwrap()@) == Some(
            in_memory.unwrap()@) && in_memory.unwrap()@.len() == 32),
{
    let key = match in_memory {
        Some(k) => k,
        None => return false,
    };
    let text = match file_text {
        Some(t) => t,
        None => return false,
    };
    match hex_decode(text) {
        Ok(bytes) => bytes.len() == 32 && bytes_eq(bytes.as_slice(), key),
        Err(_) => false,
    }
}

/// The locked and minted samples of each token, in order.
pub open spec fn token_lines(ts: Seq<TokenSupply>) -> Seq<char>
    decreases ts.len(),
{
    if ts.len() == 0 {
        Seq::empty()
    } else {
        let t = ts.last();
        token_lines(ts.drop_last()) + "seal_bridge_total_locked{token=\""@ + t.symbol@ + "\"} "@
            + dec(t.locked as nat) + "\nseal_bridge_total_minted{token=\""@ + t.symbol@ + "\"} "@
            + dec(t.minted as nat) + "\n"@
    }
}

/// The hex label of the committee key fingerprint; empty without a key.
pub open spec fn fingerprint_hex(fp: Option<Vec<u8>>) -> Seq<char> {
    match fp {
        Some(bytes) => hex_of(bytes@),
        None => Seq::empty(),
    }
}

/// The bridge's record counts.
pub open spec fn bridge_counts_text(b: BridgeGauges) -> Seq<char> {
    gauge_text(
        "seal_bridge_committee_key_set"@,
        "1 if BridgeManager has a committee MAC key installed, else 0"@,
        flag(b.committee_key_set),
    ) + gauge_text(
        "seal_bridge_paused_chains"@,
        "Number of source chains currently paused by council vote"@,
        b.paused_chains as nat,
    ) + gauge_text(
        "seal_bridge_deposits_total"@,
        "Total deposit records (observed + processed)"@,
        b.deposits_total as nat,
    ) + gauge_text(
        "seal_bridge_deposits_pending"@,
        "Deposits observed but not yet processed (waiting for confirmations or paused)"@,
        b.deposits_pending as nat,
    ) + gauge_text(
        "seal_bridge_withdrawals_total"@,
        "Total withdrawal records initiated against the host"@,
        b.withdrawals_total as nat,
    )
}

/// The committee key fingerprint as a label, with the key-set flag as
/// its sample.
pub open spec fn fingerprint_text(b: BridgeGauges) -> Seq<char> {
    gauge_head(
        "seal_bridge_committee_key_fingerprint"@,
        "SHA-256 of the host's installed committee key (label-info; empty pre-key)"@,
    ) + "seal_bridge_committee_key_fingerprint{sha2_hex=\""@ + fingerprint_hex(b.key_fingerprint)
        + "\"} "@ + dec(flag(b.committee_key_set)) + "\n"@
}

/// Persistence, the safety flag and the per-token supplies.
pub open spec fn bridge_tail_text(b: BridgeGauges) -> Seq<char> {
    gauge_text(
        "seal_bridge_committee_key_persisted"@,
        "1 if <data_dir>/bridge-committee-key.hex matches the in-memory key; 0 means a rotation succeeded in-memory but the on-disk file is missing/stale and the next restart will revert"@,
        flag(b.key_persisted),
    ) + gauge_text(
        "seal_bridge_invariant_violated"@,
        "1 if total_minted > total_locked on any wrapped token (bridge safety break), else 0"@,
        flag(b.invariant_violated),
    ) + gauge_head(
        "seal_bridge_total_locked"@,
        "Total source-chain tokens locked in the bridge vault (per wrapped token)"@,
    ) + gauge_head(
        "seal_bridge_total_minted"@,
        "Total wrapped tokens minted on Seal (per wrapped token)"@,
    ) + token_lines(b.tokens@)
}

/// The bridge gauges, in order.
pub open spec fn bridge_text(b: BridgeGauges) -> Seq<char> {
    bridge_counts_text(b) + fingerprint_text(b) + bridge_tail_text(b)
}

fn push_token_lines(out: &mut String, tokens: &Vec<TokenSupply>)
    ensures
        final(out)@ == old(out)@ + token_lines(tokens@),
{
    let ghost start = out@;
    let mut i: usize = 0;
    while i < tokens.len()
        invariant
            i <= tokens.len(),
            out@ == start + token_lines(tokens@.take(i as int)),
        decreases tokens.len() - i,
    {
        let t = &tokens[i];
        out.append("seal_bridge_total_locked{token=\"");
        out.append(t.symbol.as_str());
        out.append("\"} ");
        push_dec(out, t.locked);
        out.append("\nseal_bridge_total_minted{token=\"");
        out.append(t.symbol.as_str());
        out.append("\"} ");
        push_dec(out, t.minted);
        out.append("\n");
        proof {
            assert(tokens@.take(i + 1).drop_last() =~= tokens@.take(i as int));
        }
        i = i + 1;
    }
    assert(tokens@.take(i as int) =~= tokens@);
}

fn push_bridge_counts(out: &mut String, b: &BridgeGauges)
    ensures
        final(out)@ == old(out)@ + bridge_counts_text(*b),
{
    push_gauge(
        out,
        "seal_bridge_committee_key_set",
        "1 if BridgeManager has a committee MAC key installed, else 0",
        flag_value(b.committee_key_set),
    );
    push_gauge(
        out,
        "seal_bridge_paused_chains",
        "Number of source chains currently paused by council vote",
        b.paused_chains,
    );
    push_gauge(
        out,
        "seal_bridge_deposits_total",
        "Total deposit records (observed + processed)",
        b.deposits_total,
    );
    push_gauge(
        out,
        "seal_bridge_deposits_pending",
        "Deposits observed but not yet processed (waiting for confirmations or paused)",
        b.deposits_pending,
    );
    push_gauge(
        out,
        "seal_bridge_withdrawals_total",
        "Total withdrawal records initiated against the host",
        b.withdrawals_total,
    );
}

fn push_fingerprint(out: &mut String, b: &BridgeGauges)
    ensures
        final(out)@ == old(out)@ + fingerprint_text(*b),
{
    push_head(
        out,
        "seal_bridge_committee_key_fingerprint",
        "SHA-256 of the host's installed committee key (label-info; empty pre-key)",
    );
    out.append("seal_bridge_committee_key_fingerprint{sha2_hex=\"");
    match &b.key_fingerprint {
        Some(bytes) => {
            let fp = hex_encode(bytes.as_slice());
            out.append(fp.as_str());
        },
        None => {},
    }
    out.append("\"} ");
    push_dec(out, flag_value(b.committee_key_set));
    out.append("\n");
}

fn push_bridge_tail(out: &mut String, b: &BridgeGauges)
    ensures
        final(out)@ == old(out)@ + bridge_tail_text(*b),
{
    push_gauge(
        out,
        "seal_bridge_committee_key_persisted",
        "1 if <data_dir>/bridge-committee-key.hex matches the in-memory key; 0 means a rotation succeeded in-memory but the on-disk file is missing/stale and the next restart will revert",
        flag_value(b.key_persisted),
    );
    push_gauge(
        out,
        "seal_bridge_invariant_violated",
        "1 if total_minted > total_locked on any wrapped token (bridge safety break), else 0",
        flag_value(b.invariant_violated),
    );
    push_head(
        out,
        "seal_bridge_total_locked",
        "Total source-chain tokens locked in the bridge vault (per wrapped token)",
    );
    push_head(
        out,
        "seal_bridge_total_minted",
        "Total wrapped tokens minted on Seal (per wrapped token)",
    );
    push_token_lines(out, &b.tokens);
}

/// Appends the bridge gauges.
pub fn push_bridge_gauges(out: &mut String, b: &BridgeGauges)
    ensures
        final(out)@ == old(out)@ + bridge_text(*b),
{
    push_bridge_counts(out, b);
    push_fingerprint(out, b);
    push_bridge_tail(out, b);
}

// ---------------------------------------------------------------------------
// Policy gauges
// ---------------------------------------------------------------------------

/// The policy gauges of a configuration whose admin set has `admins`
/// addresses.
pub open spec fn config_text(config: RpcConfig, admins: nat) -> Seq<char> {
    gauge_text(
        "seal_bridge_withdrawal_fee_base_units"@,
        "Configured per-withdrawal SEAL fee"@,
        config.bridge_withdrawal_fee as nat,
    ) + gauge_text(
        "seal_admin_threshold"@,
        "M-of-N admin multisig threshold (0 or 1 = single-sig)"@,
        config.admin_threshold as nat,
    ) + gauge_text(
        "seal_admin_addresses_count"@,
        "Number of addresses in the admin set"@,
        admins,
    ) + gauge_head(
        "seal_rpc_rate_limit_per_minute"@,
        "Per-method-group RPC rate limit (req/min)"@,
    ) + "seal_rpc_rate_limit_per_minute{group=\"default\"} "@ + dec(config.rpm_default as nat)
        + "\nseal_rpc_rate_limit_per_minute{group=\"expensive\"} "@ + dec(config.rpm_expensive as nat)
        + "\nseal_rpc_rate_limit_per_minute{group=\"admin\"} "@ + dec(config.rpm_admin as nat)
        + "\n"@
}

/// Appends the policy gauges of `config`.
pub fn push_config_gauges(out: &mut String, config: &RpcConfig)
    requires
        config.wf(),
    ensures
        final(out)@ == old(out)@ + config_text(*config, config.admin_addresses@.len()),
{
    push_gauge(
        out,
        "seal_bridge_withdrawal_fee_base_units",
        "Configured per-withdrawal SEAL fee",
        config.bridge_withdrawal_fee,
    );
    push_gauge(
        out,
        "seal_admin_threshold",
        "M-of-N admin multisig threshold (0 or 1 = single-sig)",
        config.admin_threshold as u64,
    );
    push_gauge(
        out,
        "seal_admin_addresses_count",
        "Number of addresses in the admin set",
        config.admin_addresses.len() as u64,
    );
    push_head(
        out,
        "seal_rpc_rate_limit_per_minute",
        "Per-method-group RPC rate limit (req/min)",
    );
    out.append("seal_rpc_rate_limit_per_minute{group=\"default\"} ");
    push_dec(out, config.rpm_default);
    out.append("\nseal_rpc_rate_limit_per_minute{group=\"expensive\"} ");
    push_dec(out, config.rpm_expensive);
    out.append("\nseal_rpc_rate_limit_per_minute{group=\"admin\"} ");
    push_dec(out, config.rpm_admin);
    out.append("\n");
}

/// The whole exposition: the counters' own text, then the chain and
/// ledger gauges, the ledger roots, the bridge gauges and the policy
/// gauges.
pub open spec fn exposition_text(
    counters: Seq<char>,
    node: NodeGauges,
    balance_root: Seq<u8>,
    token_root: Seq<u8>,
    bridge: BridgeGauges,
    config: RpcConfig,
) -> Seq<char> {
    counters + node_gauges_text(node) + state_roots_text(hex_of(balance_root), hex_of(token_root))
        + bridge_text(bridge) + config_text(config, config.admin_addresses@.len())
}

/// Renders the node's metrics page from the counters' exposition and the
/// gauges read from the node.
pub fn metrics_exposition(
    counters: String,
    node: &NodeGauges,
    balance_root: &[u8],
    token_root: &[u8],
    bridge: &BridgeGauges,
    config: &RpcConfig,
) -> (r: String)
    requires
        config.wf(),
    ensures
        r@ == exposition_text(counters@, *node, balance_root@, token_root@, *bridge, *config),
{
    let mut out = counters;
    push_node_gauges(&mut out, node);
    push_state_roots(&mut out, balance_root, token_root);
    push_bridge_gauges(&mut out, bridge);
    push_config_gauges(&mut out, config);
    out
}

// ---------------------------------------------------------------------------
// Health
// ---------------------------------------------------------------------------

/// Coarse health of a node.
#[derive(Clone, Copy, Debug, PartialEq, Eq, Structural)]
pub enum HealthStatus {
    /// Up for less than 30 seconds: too early to judge.
    Starting,
    /// Peers are connected but the chain has not left genesis.
    Stalled,
    /// Anything else; reported as "ok".
    Healthy,
}

/// The health of a node from its uptime, chain height and peer count.
pub fn health_status(uptime_secs: u64, height: u64, peers: u64) -> (h: HealthStatus)
    ensures
        h == if uptime_secs < 30 {
            HealthStatus::Starting
        } else if height == 0 && peers > 0 {
            HealthStatus::Stalled
        } else {
            HealthStatus::Healthy
        },
{
    if uptime_secs < 30 {
        HealthStatus::Starting
    } else if height == 0 && peers > 0 {
        HealthStatus::Stalled
    } else {
        HealthStatus::Healthy
    }
}

/// The word a health status is reported as.
pub fn health_word(h: HealthStatus) -> (s: &'static str)
    ensures
        s@ == match h {
            HealthStatus::Starting => "starting"@,
            HealthStatus::Stalled => "stalled"@,
            HealthStatus::Healthy => "ok"@,
        },
{
    match h {
        HealthStatus::Starting => "starting",
        HealthStatus::Stalled => "stalled",
        HealthStatus::Healthy => "ok",
    }
}

} // verus!
