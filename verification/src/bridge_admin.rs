//! Checks in front of the bridge's council-gated actions: pausing and
//! resuming a chain and rotating the committee key each need a 2/3
//! supermajority of the Technical Council, and a new committee key must
//! be 32 bytes written as 64 hexadecimal digits.

use vstd::prelude::*;
use crate::council::{distinct_hits, string_views, two_thirds, TechnicalCouncil};
use crate::hash::{hex_decode, hex_decode_spec, hex_error_text};
use crate::rpc::{ascii_lower, ascii_upper, to_ascii_lowercase, to_ascii_uppercase};
use crate::text::{dec, push_dec, str_eq, string_of};

verus! {

/// Code of a malformed parameter.
pub const INVALID_PARAMS: i32 = -32602;

/// Code of a request refused by the node's state.
pub const SERVER_ERROR: i32 = -32000;

pub open spec fn msg_council_empty() -> Seq<char> {
    "technical council is empty; bootstrap via seal_bridgeCouncilAdd first"@
}

pub open spec fn msg_insufficient_approval(action: Seq<char>, required: nat, members: nat, valid: nat) -> Seq<char> {
    "insufficient council approval for "@ + action + ": need "@ + dec(required) + " of "@ + dec(members)
        + ", got "@ + dec(valid) + " valid"@
}

/// Whether `approvers` carry a council-gated action on `council`, and
/// the error the request is refused with otherwise: an empty council
/// first, then too few distinct seated approvers.
pub fn check_council_approval(council: &TechnicalCouncil, approvers: &[String], action: &str) -> (r: Result<
    (),
    (i32, String),
>)
    ensures
        ({
            let n = council@.members.len();
            let valid = distinct_hits(string_views(approvers@), council@.keys());
            &&& n == 0 ==> (r matches Err((code, msg)) && code == SERVER_ERROR && msg@ == msg_council_empty())
            &&& n > 0 && valid < two_thirds(n) ==> (r matches Err((code, msg)) && code == SERVER_ERROR && msg@
                == msg_insufficient_approval(action@, two_thirds(n), n, valid))
            &&& n > 0 && valid >= two_thirds(n) ==> r is Ok
        }),
{
    if council.member_count() == 0 {
        return Err((SERVER_ERROR, string_of("technical council is empty; bootstrap via seal_bridgeCouncilAdd first")));
    }
    if !council.has_two_thirds_approval(approvers) {
        let required = council.two_thirds_threshold();
        let valid = council.count_valid_approvers(approvers);
        let members = council.member_count();
        let mut msg = string_of("insufficient council approval for ");
        msg.append(action);
        msg.append(": need ");
        push_dec(&mut msg, required as u64);
        msg.append(" of ");
        push_dec(&mut msg, members as u64);
        msg.append(", got ");
        push_dec(&mut msg, valid as u64);
        msg.append(" valid");
        return Err((SERVER_ERROR, msg));
    }
    Ok(())
}

pub open spec fn msg_key_length(bytes: nat) -> Seq<char> {
    "new_key_hex must be 64 hex chars (32 bytes); got "@ + dec(bytes)
}

pub open spec fn msg_key_decode(s: Seq<char>) -> Seq<char> {
    "new_key_hex hex decode failed: "@ + hex_error_text(s)
}

/// The committee key written as `new_key_hex`: its length in bytes must
/// be 64 (32 bytes of key), and every character a hexadecimal digit.
pub fn parse_committee_key(new_key_hex: &str) -> (r: Result<Vec<u8>, (i32, String)>)
    ensures
        new_key_hex.len() != 64 ==> (r matches Err((code, msg)) && code == INVALID_PARAMS && msg@
            == msg_key_length(new_key_hex.len() as nat)),
        new_key_hex.len() == 64 ==> match hex_decode_spec(new_key_hex@) {
            Some(b) => r matches Ok(key) && key@ == b,
            None => r matches Err((code, msg)) && code == INVALID_PARAMS && msg@ == msg_key_decode(
                new_key_hex@,
            ),
        },
{
    let len = new_key_hex.len();
    if len != 64 {
        let mut msg = string_of("new_key_hex must be 64 hex chars (32 bytes); got ");
        push_dec(&mut msg, len as u64);
        return Err((INVALID_PARAMS, msg));
    }
    match hex_decode(new_key_hex) {
        Ok(bytes) => Ok(bytes),
        Err(e) => {
            let mut msg = string_of("new_key_hex hex decode failed: ");
            msg.append(e.as_str());
            Err((INVALID_PARAMS, msg))
        },
    }
}

/// A source chain of the bridge.
#[derive(Clone, Copy, Debug, PartialEq, Eq, Structural)]
pub enum SourceChain {
    Solana,
    Stellar,
}

/// The chain named by a lower-case alias.
pub open spec fn chain_alias(s: Seq<char>) -> Option<SourceChain> {
    if s == "solana"@ || s == "sol"@ {
        Some(SourceChain::Solana)
    } else if s == "stellar"@ || s == "xlm"@ {
        Some(SourceChain::Stellar)
    } else {
        None
    }
}

/// Reads a chain name, ignoring ASCII case; an unknown name is refused
/// with its lower-case form.
pub fn parse_chain(s: &str) -> (r: Result<SourceChain, (i32, String)>)
    ensures
        match chain_alias(ascii_lower(s@)) {
            Some(c) => r == Ok::<SourceChain, (i32, String)>(c),
            None => r matches Err((code, msg)) && code == INVALID_PARAMS && msg@ == "unknown chain: "@
                + ascii_lower(s@),
        },
{
    let lower = to_ascii_lowercase(s);
    let l = lower.as_str();
    if str_eq(l, "solana") || str_eq(l, "sol") {
        Ok(SourceChain::Solana)
    } else if str_eq(l, "stellar") || str_eq(l, "xlm") {
        Ok(SourceChain::Stellar)
    } else {
        let mut msg = string_of("unknown chain: ");
        msg.append(l);
        Err((INVALID_PARAMS, msg))
    }
}

/// A token the bridge mints on this chain.
#[derive(Clone, Copy, Debug, PartialEq, Eq, Structural)]
pub enum WrappedAsset {
    WSOL,
    WXLM,
    WUSDC,
}

/// The wrapped token named by an upper-case alias.
pub open spec fn token_alias(s: Seq<char>) -> Option<WrappedAsset> {
    if s == "WSOL"@ || s == "SOL"@ {
        Some(WrappedAsset::WSOL)
    } else if s == "WXLM"@ || s == "XLM"@ {
        Some(WrappedAsset::WXLM)
    } else if s == "WUSDC"@ || s == "USDC"@ {
        Some(WrappedAsset::WUSDC)
    } else {
        None
    }
}

/// Reads a wrapped-token name, ignoring ASCII case; an unknown name is
/// refused with its upper-case form.
pub fn parse_wrapped_token(s: &str) -> (r: Result<WrappedAsset, (i32, String)>)
    ensures
        match token_alias(ascii_upper(s@)) {
            Some(t) => r == Ok::<WrappedAsset, (i32, String)>(t),
            None => r matches Err((code, msg)) && code == INVALID_PARAMS && msg@ == "unknown wrapped token: "@
                + ascii_upper(s@),
        },
{
    let upper = to_ascii_uppercase(s);
    let u = upper.as_str();
    if str_eq(u, "WSOL") || str_eq(u, "SOL") {
        Ok(WrappedAsset::WSOL)
    } else if str_eq(u, "WXLM") || str_eq(u, "XLM") {
        Ok(WrappedAsset::WXLM)
    } else if str_eq(u, "WUSDC") || str_eq(u, "USDC") {
        Ok(WrappedAsset::WUSDC)
    } else {
        let mut msg = string_of("unknown wrapped token: ");
        msg.append(u);
        Err((INVALID_PARAMS, msg))
    }
}

} // verus!
