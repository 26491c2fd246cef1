use seal_node::bridge_admin::{
    check_council_approval, parse_chain, parse_committee_key, parse_wrapped_token, SourceChain, WrappedAsset,
};
use seal_node::governance::{CouncilMember, TechnicalCouncil};

fn council(n: usize) -> TechnicalCouncil {
    let mut tc = TechnicalCouncil::new();
    for i in 0..n {
        tc.add_member(CouncilMember {
            pubkey: format!("pk_{}", i),
            name: format!("M{}", i),
            term_start_epoch: 0,
            term_end_epoch: 26280,
        })
        .unwrap();
    }
    tc
}

fn approvers(n: usize) -> Vec<String> {
    (0..n).map(|i| format!("pk_{}", i)).collect()
}

#[test]
fn empty_council_refuses_every_action() {
    let err = check_council_approval(&TechnicalCouncil::new(), &approvers(3), "pause").unwrap_err();
    assert_eq!(err.0, -32000);
    assert_eq!(err.1, "technical council is empty; bootstrap via seal_bridgeCouncilAdd first");
}

#[test]
fn pause_needs_two_thirds() {
    // 9 members: 6 approvals needed.
    let tc = council(9);
    let err = check_council_approval(&tc, &approvers(5), "pause").unwrap_err();
    assert_eq!(err.0, -32000);
    assert_eq!(err.1, "insufficient council approval for pause: need 6 of 9, got 5 valid");
    check_council_approval(&tc, &approvers(6), "pause").unwrap();
}

#[test]
fn approvals_count_distinct_seated_members() {
    let tc = council(7);
    let mut a = approvers(4);
    a.push("pk_0".to_string());
    a.push("outsider".to_string());
    let err = check_council_approval(&tc, &a, "committee-key rotation").unwrap_err();
    assert_eq!(err.1, "insufficient council approval for committee-key rotation: need 5 of 7, got 4 valid");
    a.push("pk_4".to_string());
    check_council_approval(&tc, &a, "unpause").unwrap();
}

#[test]
fn committee_key_must_be_64_hex_digits() {
    let key = "ab".repeat(32);
    assert_eq!(parse_committee_key(&key).unwrap(), vec![0xab; 32]);
    let err = parse_committee_key("abcd").unwrap_err();
    assert_eq!(err.0, -32602);
    assert_eq!(err.1, "new_key_hex must be 64 hex chars (32 bytes); got 4");
    let bad = format!("zz{}", "00".repeat(31));
    let err = parse_committee_key(&bad).unwrap_err();
    assert_eq!(err.0, -32602);
    assert_eq!(err.1, "new_key_hex hex decode failed: Invalid character 'z' at position 0");
    // Length is counted in bytes.
    let wide = format!("é{}", "0".repeat(63));
    assert_eq!(parse_committee_key(&wide).unwrap_err().1, "new_key_hex must be 64 hex chars (32 bytes); got 65");
}

#[test]
fn test_parse_chain_accepts_case_insensitive_aliases() {
    assert_eq!(parse_chain("Solana").unwrap(), SourceChain::Solana);
    assert_eq!(parse_chain("solana").unwrap(), SourceChain::Solana);
    assert_eq!(parse_chain("SOL").unwrap(), SourceChain::Solana);
    assert_eq!(parse_chain("Stellar").unwrap(), SourceChain::Stellar);
    assert_eq!(parse_chain("xlm").unwrap(), SourceChain::Stellar);
}

#[test]
fn test_parse_chain_rejects_unknown() {
    let err = parse_chain("ethereum").unwrap_err();
    assert_eq!(err.0, -32602);
    assert!(err.1.contains("ethereum"));
    assert_eq!(parse_chain("Ethereum").unwrap_err().1, "unknown chain: ethereum");
}

#[test]
fn test_parse_wrapped_token_covers_every_variant() {
    assert_eq!(parse_wrapped_token("WSOL").unwrap(), WrappedAsset::WSOL);
    assert_eq!(parse_wrapped_token("SOL").unwrap(), WrappedAsset::WSOL);
    assert_eq!(parse_wrapped_token("wxlm").unwrap(), WrappedAsset::WXLM);
    assert_eq!(parse_wrapped_token("XLM").unwrap(), WrappedAsset::WXLM);
    assert_eq!(parse_wrapped_token("wusdc").unwrap(), WrappedAsset::WUSDC);
    assert_eq!(parse_wrapped_token("USDC").unwrap(), WrappedAsset::WUSDC);
}

#[test]
fn test_parse_wrapped_token_rejects_unknown() {
    assert!(parse_wrapped_token("WETH").is_err());
    assert_eq!(parse_wrapped_token("weth").unwrap_err(), (-32602, "unknown wrapped token: WETH".to_string()));
}
