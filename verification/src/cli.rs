//! Command-line flags of the node: `--flag value` pairs, repeatable
//! flags, and the check of a validator keyfile's network.

use vstd::prelude::*;
use crate::rpc::NameSet;
use crate::hash::{bytes_eq, hex_decode, hex_decode_spec, hex_error_text};
use crate::text::{dec, push_dec, str_eq, string_of};

verus! {

/// The arguments as character sequences.
pub open spec fn arg_views(args: Seq<String>) -> Seq<Seq<char>> {
    args.map_values(|s: String| s@)
}

/// Index of the first occurrence of `flag` in `args` (-1 when absent).
pub open spec fn first_index(args: Seq<Seq<char>>, flag: Seq<char>) -> int
    decreases args.len(),
{
    if args.len() == 0 {
        -1
    } else {
        let rest = first_index(args.drop_first(), flag);
        if args[0] == flag { 0 } else if rest < 0 { -1 } else { rest + 1 }
    }
}

/// The value following the first occurrence of `flag`, if any.
pub open spec fn flag_value_spec(args: Seq<Seq<char>>, flag: Seq<char>) -> Option<Seq<char>> {
    let i = first_index(args, flag);
    if 0 <= i && i + 1 < args.len() { Some(args[i + 1]) } else { None }
}

/// Values of a repeatable flag, scanning from position `i`: every
/// occurrence of `flag` followed by a value contributes that value, and
/// the value is not scanned again as a flag.
pub open spec fn flag_values_from(args: Seq<Seq<char>>, flag: Seq<char>, i: int) -> Seq<Seq<char>>
    decreases args.len() - i,
{
    if i < 0 || i >= args.len() {
        Seq::empty()
    } else if args[i] == flag && i + 1 < args.len() {
        seq![args[i + 1]] + flag_values_from(args, flag, i + 2)
    } else {
        flag_values_from(args, flag, i + 1)
    }
}

proof fn lemma_first_index(args: Seq<Seq<char>>, flag: Seq<char>)
    ensures
        -1 <= first_index(args, flag) < args.len(),
        first_index(args, flag) >= 0 ==> args[first_index(args, flag)] == flag,
        forall|j: int| 0 <= j < args.len() && (first_index(args, flag) < 0 || j < first_index(args, flag)) ==> args[j]
            != flag,
    decreases args.len(),
{
    if args.len() > 0 {
        lemma_first_index(args.drop_first(), flag);
        assert forall|j: int|
            0 <= j < args.len() && (first_index(args, flag) < 0 || j < first_index(args, flag)) implies args[j]
            != flag by {
            if j > 0 {
                assert(args[j] == args.drop_first()[j - 1]);
            }
        }
    }
}

/// The value following the first occurrence of `flag` in `args`.
pub fn flag_value<'a>(args: &'a [String], flag: &str) -> (r: Option<&'a String>)
    ensures
        match flag_value_spec(arg_views(args@), flag@) {
            Some(v) => r matches Some(s) && s@ == v,
            None => r is None,
        },
{
    let ghost a = arg_views(args@);
    proof { lemma_first_index(a, flag@); }
    let mut i: usize = 0;
    while i < args.len()
        invariant
            a == arg_views(args@),
            a.len() == args@.len(),
            i <= args@.len(),
            forall|j: int| 0 <= j < i ==> a[j] != flag@,
            -1 <= first_index(a, flag@) < a.len(),
            first_index(a, flag@) >= 0 ==> a[first_index(a, flag@)] == flag@,
            forall|j: int| 0 <= j < a.len() && (first_index(a, flag@) < 0 || j < first_index(a, flag@)) ==> a[j] != flag@,
        decreases args@.len() - i,
    {
        if str_eq(args[i].as_str(), flag) {
            assert(a[i as int] == flag@);
            assert(first_index(a, flag@) == i);
            if i + 1 < args.len() {
                return Some(&args[i + 1]);
            } else {
                return None;
            }
        }
        i = i + 1;
    }
    assert(first_index(a, flag@) < 0);
    None
}

/// The values of a repeatable flag, in order.
pub fn flag_values(args: &[String], flag: &str) -> (r: Vec<String>)
    ensures
        arg_views(r@) == flag_values_from(arg_views(args@), flag@, 0),
{
    let ghost a = arg_views(args@);
    let mut out: Vec<String> = Vec::new();
    let mut i: usize = 0;
    while i < args.len()
        invariant
            a == arg_views(args@),
            a.len() == args@.len(),
            i <= args@.len() + 1,
            arg_views(out@) + flag_values_from(a, flag@, i as int) == flag_values_from(a, flag@, 0),
        decreases args@.len() + 1 - i,
    {
        if str_eq(args[i].as_str(), flag) && i + 1 < args.len() {
            let ghost before = out@;
            out.push(args[i + 1].clone());
            proof {
                assert(arg_views(out@) =~= arg_views(before).push(a[i + 1]));
                assert(flag_values_from(a, flag@, i as int) == seq![a[i + 1]] + flag_values_from(a, flag@, i + 2));
                assert(arg_views(out@) + flag_values_from(a, flag@, i + 2) =~= arg_views(before) + flag_values_from(
                    a,
                    flag@,
                    i as int,
                ));
            }
            i = i + 2;
        } else {
            i = i + 1;
        }
    }
    proof {
        assert(flag_values_from(a, flag@, i as int) =~= Seq::<Seq<char>>::empty());
        assert(arg_views(out@) =~= arg_views(out@) + Seq::<Seq<char>>::empty());
    }
    out
}

/// The set of values of a repeatable flag.
pub fn parse_multi_string(args: &[String], flag: &str) -> (r: NameSet)
    ensures
        r.wf(),
        r@ == flag_values_from(arg_views(args@), flag@, 0).to_set(),
{
    let values = flag_values(args, flag);
    let ghost vs = arg_views(values@);
    let mut set = NameSet::new();
    let mut k: usize = 0;
    while k < values.len()
        invariant
            set.wf(),
            k <= values@.len(),
            vs == arg_views(values@),
            set@ == vs.take(k as int).to_set(),
        decreases values@.len() - k,
    {
        let ghost before = set@;
        set.insert(values[k].clone());
        proof {
            assert(vs.take(k + 1) =~= vs.take(k as int).push(vs[k as int]));
            vs.take(k as int).lemma_push_to_set_commute(vs[k as int]);
        }
        k = k + 1;
    }
    proof {
        assert(vs.take(vs.len() as int) =~= vs);
    }
    set
}

/// The network a node runs on, as a keyfile names it.
pub open spec fn network_name(mainnet: bool) -> Seq<char> {
    if mainnet { "mainnet"@ } else { "testnet"@ }
}

pub open spec fn msg_network_mismatch(file_network: Seq<char>, mainnet: bool) -> Seq<char> {
    "network mismatch: keyfile is for '"@ + file_network + "' but node is running in '"@ + network_name(mainnet)
        + "' mode (toggle --mainnet to match)"@
}

/// A keyfile that names a network must name the one the node runs on.
pub fn check_keyfile_network(file_network: Option<&str>, mainnet: bool) -> (r: Result<(), String>)
    ensures
        match file_network {
            None => r is Ok,
            Some(n) => (r is Ok <==> n@ == network_name(mainnet)) && (r matches Err(e) ==> e@ == msg_network_mismatch(
                n@,
                mainnet,
            )),
        },
{
    match file_network {
        None => Ok(()),
        Some(n) => {
            let expect: &str = if mainnet { "mainnet" } else { "testnet" };
            if str_eq(n, expect) {
                Ok(())
            } else {
                let mut msg = string_of("network mismatch: keyfile is for '");
                msg.append(n);
                msg.append("' but node is running in '");
                msg.append(expect);
                msg.append("' mode (toggle --mainnet to match)");
                Err(msg)
            }
        },
    }
}

pub open spec fn msg_flag_key_length(bytes: nat) -> Seq<char> {
    "--bridge-committee-key expects 32 bytes (64 hex chars), got "@ + dec(bytes) + " bytes"@
}

/// The bridge committee key given on the command line: 32 bytes written
/// in hexadecimal.
pub fn parse_committee_key_flag(hex_str: &str) -> (r: Result<Vec<u8>, String>)
    ensures
        match hex_decode_spec(hex_str@) {
            Some(b) => if b.len() == 32 {
                r matches Ok(k) && k@ == b
            } else {
                r matches Err(e) && e@ == msg_flag_key_length(b.len())
            },
            None => r matches Err(e) && e@ == "--bridge-committee-key hex decode failed: "@ + hex_error_text(hex_str@),
        },
{
    match hex_decode(hex_str) {
        Ok(bytes) => {
            if bytes.len() == 32 {
                Ok(bytes)
            } else {
                let mut e = string_of("--bridge-committee-key expects 32 bytes (64 hex chars), got ");
                push_dec(&mut e, bytes.len() as u64);
                e.append(" bytes");
                Err(e)
            }
        },
        Err(t) => {
            let mut e = string_of("--bridge-committee-key hex decode failed: ");
            e.append(t.as_str());
            Err(e)
        },
    }
}

/// How the key persisted by a committee-key rotation was taken.
#[derive(Clone, Copy, Debug, PartialEq, Eq, Structural)]
pub enum PersistedKey {
    /// It is valid and differs from the command-line key, which it
    /// overrides.
    Overrides,
    /// It is valid and is now the key (no command-line key, or the same).
    Loaded,
    /// It is not a 32-byte hex string; the command-line key stays.
    Invalid,
}

/// The bridge committee key once the persisted one (`persisted`, the
/// trimmed file text) is taken into account: a valid persisted key takes
/// precedence over `cli_key`, so that a rotation survives a restart.
pub fn resolve_persisted_committee_key(cli_key: Option<Vec<u8>>, persisted: &str) -> (r: (
    Option<Vec<u8>>,
    PersistedKey,
))
    ensures
        match hex_decode_spec(persisted@) {
            Some(b) if b.len() == 32 => r.0 matches Some(k) && k@ == b && r.1 == (if cli_key matches Some(c) && c@
                != b {
                PersistedKey::Overrides
            } else {
                PersistedKey::Loaded
            }),
            _ => r.0 == cli_key && r.1 == PersistedKey::Invalid,
        },
{
    match hex_decode(persisted) {
        Ok(bytes) => {
            if bytes.len() != 32 {
                return (cli_key, PersistedKey::Invalid);
            }
            let note = match &cli_key {
                Some(c) => if bytes_eq(c.as_slice(), bytes.as_slice()) {
                    PersistedKey::Loaded
                } else {
                    PersistedKey::Overrides
                },
                None => PersistedKey::Loaded,
            };
            (Some(bytes), note)
        },
        Err(_) => (cli_key, PersistedKey::Invalid),
    }
}

/// Refuses the dev faucet on mainnet.
pub fn check_mainnet_faucet(mainnet: bool, dev_faucet: bool) -> (r: Result<(), String>)
    ensures
        r is Ok <==> !(mainnet && dev_faucet),
        r matches Err(e) ==> e@ == "error: --dev-faucet refused under --mainnet (unsigned mint to arbitrary addresses must never reach a production chain)"@,
{
    if mainnet && dev_faucet {
        return Err(
            string_of(
                "error: --dev-faucet refused under --mainnet (unsigned mint to arbitrary addresses must never reach a production chain)",
            ),
        );
    }
    Ok(())
}

/// The warning for a mainnet node with an open admin set, if it applies.
pub fn mainnet_admin_warning(mainnet: bool, admins_empty: bool) -> (r: Option<String>)
    ensures
        r is Some <==> mainnet && admins_empty,
        r matches Some(w) ==> w@ == "warning: --mainnet without any --admin-address \u{2014} bridge bootstrap RPCs (seal_addBridgeObserver, seal_bridgeCouncil*, seal_bridgePauseChain) are callable by any unsigned client. Set --admin-address sealt1\u{2026} (repeat for each operator key) to gate them."@,
{
    if mainnet && admins_empty {
        Some(
            string_of(
                "warning: --mainnet without any --admin-address \u{2014} bridge bootstrap RPCs (seal_addBridgeObserver, seal_bridgeCouncil*, seal_bridgePauseChain) are callable by any unsigned client. Set --admin-address sealt1\u{2026} (repeat for each operator key) to gate them.",
            ),
        )
    } else {
        None
    }
}

pub open spec fn warn_no_committee_key() -> Seq<char> {
    "no --bridge-committee-key and no <data_dir>/bridge-committee-key.hex present: seal_bridgeWithdraw will land withdrawals with committee_signature_hex=null, and the on-chain unlock claim cannot proceed until a key is installed via seal_bridgeRotateCommitteeKey (council-gated)."@
}

pub open spec fn warn_expected_key_length(len: nat) -> Seq<char> {
    "--expect-committee-key-sha2 should be 64 hex chars (32 bytes); got "@ + dec(len) + " \u{2014} not enforcing"@
}

pub open spec fn warn_key_mismatch(actual: Seq<char>, expected: Seq<char>) -> Seq<char> {
    "--expect-committee-key-sha2 mismatch: loaded key has sha2="@ + actual + " but expected="@ + expected
        + ". Either the on-chain key rotated and the systemd unit wasn't updated, OR the on-disk persistence file has drifted from the on-chain state. seal_bridgeRotateCommitteeKey can re-align both."@
}

pub open spec fn warn_open_admin() -> Seq<char> {
    "--rpc-external is set but no --admin-address: the bridge-bootstrap RPCs (seal_addBridgeObserver, seal_bridgeCouncilAdd/Remove, seal_bridgePauseChain, seal_bridgeRotateCommitteeKey) are reachable by any signed-or-unsigned caller on every network interface. Add --admin-address sealt1\u{2026} (repeat per operator) before exposing this node."@
}

pub open spec fn warn_ephemeral_identity() -> Seq<char> {
    "no --validator-key: seal-node generates a fresh ML-DSA identity at every start. Acceptable for local dev; for testnet validators pass --validator-key <path> so the on-chain pubkey stays stable across restarts (otherwise /health.is_validator will flip-flop between false and 'newly-registered')."@
}

pub open spec fn warn_no_bootstrap_peers() -> Seq<char> {
    "--mainnet with empty bootstrap-peer list: this node will only discover peers via mDNS, which is LAN-local. Pass --bootstrap-peers or --bootstrap-peers-file."@
}

/// What the node knows at startup that bears on its configuration.
pub struct StartupConfig<'a> {
    /// Whether a bridge committee key was loaded.
    pub has_committee_key: bool,
    /// The expected SHA-256 fingerprint of the key, lower-cased, if given.
    pub expected_key_sha2: Option<&'a str>,
    /// The SHA-256 fingerprint of the loaded key, hex, as the bridge
    /// reports it.
    pub loaded_key_sha2: Option<&'a str>,
    pub rpc_external: bool,
    pub admins_empty: bool,
    pub has_validator_key: bool,
    pub rpc_port: u16,
    pub mainnet: bool,
    pub bootstrap_peers_empty: bool,
}

/// The warning about the expected key fingerprint, if any: checked only
/// when a key is loaded and a fingerprint expected; a fingerprint that
/// is not 64 bytes long is not enforced, and a loaded fingerprint that
/// differs is a mismatch.
pub open spec fn fingerprint_warnings(c: StartupConfig<'_>) -> Seq<Seq<char>> {
    match c.expected_key_sha2 {
        Some(expected) => if !c.has_committee_key {
            Seq::empty()
        } else if expected.len() != 64 {
            seq![warn_expected_key_length(expected.len() as nat)]
        } else {
            match c.loaded_key_sha2 {
                Some(actual) => if actual@ != expected@ {
                    seq![warn_key_mismatch(actual@, expected@)]
                } else {
                    Seq::empty()
                },
                None => Seq::empty(),
            }
        },
        None => Seq::empty(),
    }
}

/// The pre-flight warnings of a node, in the order they are printed:
/// none of them stops the node, but each marks a configuration that
/// works while doing less than the operator likely meant.
pub open spec fn preflight_spec(c: StartupConfig<'_>) -> Seq<Seq<char>> {
    (if !c.has_committee_key { seq![warn_no_committee_key()] } else { Seq::empty() }) + fingerprint_warnings(c) + (
    if c.rpc_external && c.admins_empty {
        seq![warn_open_admin()]
    } else {
        Seq::empty()
    }) + (if !c.has_validator_key && c.rpc_port > 0 {
        seq![warn_ephemeral_identity()]
    } else {
        Seq::empty()
    }) + (if c.mainnet && c.bootstrap_peers_empty {
        seq![warn_no_bootstrap_peers()]
    } else {
        Seq::empty()
    })
}

/// Collects the pre-flight warnings (see `preflight_spec`).
pub fn preflight_warnings(c: &StartupConfig<'_>) -> (r: Vec<String>)
    ensures
        r@.map_values(|w: String| w@) == preflight_spec(*c),
{
    let mut w: Vec<String> = Vec::new();
    let ghost mut spec: Seq<Seq<char>> = Seq::empty();
    if !c.has_committee_key {
        w.push(
            string_of(
                "no --bridge-committee-key and no <data_dir>/bridge-committee-key.hex present: seal_bridgeWithdraw will land withdrawals with committee_signature_hex=null, and the on-chain unlock claim cannot proceed until a key is installed via seal_bridgeRotateCommitteeKey (council-gated).",
            ),
        );
        proof { spec = spec.push(warn_no_committee_key()); }
    }
    assert(w@.map_values(|x: String| x@) =~= spec);
    match c.expected_key_sha2 {
        Some(expected) => if c.has_committee_key {
            if expected.len() != 64 {
                let mut m = string_of("--expect-committee-key-sha2 should be 64 hex chars (32 bytes); got ");
                push_dec(&mut m, expected.len() as u64);
                m.append(" \u{2014} not enforcing");
                w.push(m);
                proof { spec = spec.push(warn_expected_key_length(expected.len() as nat)); }
            } else {
                match c.loaded_key_sha2 {
                    Some(actual) => if !str_eq(actual, expected) {
                        let mut m = string_of("--expect-committee-key-sha2 mismatch: loaded key has sha2=");
                        m.append(actual);
                        m.append(" but expected=");
                        m.append(expected);
                        m.append(
                            ". Either the on-chain key rotated and the systemd unit wasn't updated, OR the on-disk persistence file has drifted from the on-chain state. seal_bridgeRotateCommitteeKey can re-align both.",
                        );
                        w.push(m);
                        proof { spec = spec.push(warn_key_mismatch(actual@, expected@)); }
                    },
                    None => {},
                }
            }
        },
        None => {},
    }
    assert(w@.map_values(|x: String| x@) =~= spec);
    assert(spec =~= (if !c.has_committee_key { seq![warn_no_committee_key()] } else { Seq::empty() })
        + fingerprint_warnings(*c));
    if c.rpc_external && c.admins_empty {
        w.push(
            string_of(
                "--rpc-external is set but no --admin-address: the bridge-bootstrap RPCs (seal_addBridgeObserver, seal_bridgeCouncilAdd/Remove, seal_bridgePauseChain, seal_bridgeRotateCommitteeKey) are reachable by any signed-or-unsigned caller on every network interface. Add --admin-address sealt1\u{2026} (repeat per operator) before exposing this node.",
            ),
        );
        proof { spec = spec.push(warn_open_admin()); }
    }
    assert(w@.map_values(|x: String| x@) =~= spec);
    if !c.has_validator_key && c.rpc_port > 0 {
        w.push(
            string_of(
                "no --validator-key: seal-node generates a fresh ML-DSA identity at every start. Acceptable for local dev; for testnet validators pass --validator-key <path> so the on-chain pubkey stays stable across restarts (otherwise /health.is_validator will flip-flop between false and 'newly-registered').",
            ),
        );
        proof { spec = spec.push(warn_ephemeral_identity()); }
    }
    assert(w@.map_values(|x: String| x@) =~= spec);
    if c.mainnet && c.bootstrap_peers_empty {
        w.push(
            string_of(
                "--mainnet with empty bootstrap-peer list: this node will only discover peers via mDNS, which is LAN-local. Pass --bootstrap-peers or --bootstrap-peers-file.",
            ),
        );
        proof { spec = spec.push(warn_no_bootstrap_peers()); }
    }
    assert(w@.map_values(|x: String| x@) =~= spec);
    assert(spec =~= preflight_spec(*c));
    w
}

} // verus!
