use sha3::Digest;
use base64::Engine;
use seal_node::hash::Hash256;
use seal_node::snapshot::{
    bootstrap_start, bootstrap_step, check_chunk_bytes, check_manifest, check_state_root, choose_snapshot, classify_rpc_error,
    verify_chunk, BootstrapAction, BootstrapError, ChunkPayload, Manifest, ManifestChunk, PeerReply, SnapshotEntry,
};

/// SHA3-256, computed with the `sha3` crate directly.
fn sha3_256(data: &[u8]) -> Hash256 {
    let d = sha3::Sha3_256::digest(data);
    let mut out = [0u8; 32];
    out.copy_from_slice(&d);
    Hash256(out)
}

fn entry(height: u64, root: &str) -> SnapshotEntry {
    SnapshotEntry { height, epoch: 4, state_root_hex: root.to_string() }
}

fn manifest(height: u64, root: &str, chunks: Vec<ManifestChunk>, count: u32) -> Manifest {
    Manifest { height, epoch: 4, state_root_hex: root.to_string(), total_bytes: 10, chunk_count: count, chunks }
}

fn chunk_for(index: u32, bytes: &[u8]) -> (ManifestChunk, ChunkPayload) {
    let hash = hex::encode(sha3_256(bytes).0);
    (
        ManifestChunk { index, chunk_hash_hex: hash.clone(), byte_size: bytes.len() as u32 },
        ChunkPayload {
            chunk_index: index,
            chunk_hash_hex: hash,
            bytes_b64: base64::engine::general_purpose::STANDARD.encode(bytes),
        },
    )
}

#[test]
fn bootstrap_handles_empty_snapshot_list() {
    let err = choose_snapshot(vec![]).unwrap_err();
    assert!(matches!(err, BootstrapError::BadResponse(_)));
    assert_eq!(err.describe(), "bad response: peer has no snapshots retained");
}

#[test]
fn bootstrap_handles_chunk_hash_mismatch() {
    // The peer flips one byte of the chunk it sends.
    let bytes = b"records of the ledger".to_vec();
    let (expected, mut payload) = chunk_for(0, &bytes);
    let mut tampered = bytes.clone();
    tampered[0] ^= 0x01;
    payload.bytes_b64 = base64::engine::general_purpose::STANDARD.encode(&tampered);
    let err = verify_chunk(&expected, &payload).unwrap_err();
    assert!(matches!(err, BootstrapError::HashMismatch { .. }));
    match err {
        BootstrapError::HashMismatch { chunk_index, expected: e, actual } => {
            assert_eq!(chunk_index, 0);
            assert_eq!(e, expected.chunk_hash_hex);
            assert_eq!(actual, hex::encode(sha3_256(&tampered).0));
        }
        _ => unreachable!(),
    }
}

#[test]
fn chunk_accepted_when_hash_matches() {
    let bytes = vec![1u8, 2, 3, 4, 5];
    let (expected, payload) = chunk_for(3, &bytes);
    assert_eq!(verify_chunk(&expected, &payload).unwrap(), bytes);
}

#[test]
fn chunk_index_drift_and_bad_base64() {
    let (expected, mut payload) = chunk_for(2, b"abc");
    payload.chunk_index = 5;
    let err = verify_chunk(&expected, &payload).unwrap_err();
    assert_eq!(err.describe(), "bad response: chunk index drift: expected 2, got 5");
    let (expected, mut payload) = chunk_for(2, b"abc");
    payload.bytes_b64 = "!!!".to_string();
    match verify_chunk(&expected, &payload).unwrap_err() {
        BootstrapError::BadResponse(m) => assert!(m.starts_with("base64 decode: "), "{m}"),
        _ => panic!("expected a bad response"),
    }
}

#[test]
fn newest_snapshot_is_the_first_listed() {
    let chosen = choose_snapshot(vec![entry(128, "aa"), entry(64, "bb")]).unwrap();
    assert_eq!(chosen.height, 128);
    assert_eq!(chosen.state_root_hex, "aa");
}

#[test]
fn manifest_checks_in_order() {
    let chosen = entry(128, "aa");
    let err = check_manifest(&chosen, &manifest(127, "bb", vec![], 1)).unwrap_err();
    assert_eq!(err.describe(), "bad response: manifest height 127 \u{2260} requested height 128");
    let err = check_manifest(&chosen, &manifest(128, "bb", vec![], 1)).unwrap_err();
    assert_eq!(err.describe(), "bad response: manifest state_root bb \u{2260} list state_root aa");
    let err = check_manifest(&chosen, &manifest(128, "aa", vec![], 1)).unwrap_err();
    assert_eq!(err.describe(), "bad response: manifest chunk_count 1 \u{2260} chunks.len() 0");
    let (c, _) = chunk_for(0, b"x");
    check_manifest(&chosen, &manifest(128, "aa", vec![c], 1)).unwrap();
}

#[test]
fn state_root_cross_check() {
    let m = manifest(1, "aa", vec![], 0);
    check_state_root(&m, "aa".to_string()).unwrap();
    let err = check_state_root(&m, "ab".to_string()).unwrap_err();
    assert_eq!(err.describe(), "reconstructed state_root ab \u{2260} manifest state_root aa");
}

#[test]
fn rpc_errors_for_evicted_snapshots() {
    for code in -32007..=-32004i64 {
        assert!(matches!(classify_rpc_error(code, "gone".into()), BootstrapError::SnapshotPrunedMidStream));
    }
    let e = classify_rpc_error(-32601, "no such method".into());
    assert_eq!(e.describe(), "RPC error (-32601): no such method");
    assert_eq!(classify_rpc_error(-32003, "x".into()).describe(), "RPC error (-32003): x");
}

#[test]
fn error_descriptions() {
    assert_eq!(BootstrapError::Transport("curl exited 7".into()).describe(), "transport: curl exited 7");
    assert_eq!(BootstrapError::SnapshotPrunedMidStream.describe(), "snapshot evicted mid-stream");
    let e = BootstrapError::HashMismatch { chunk_index: 3, expected: "aa".into(), actual: "bb".into() };
    assert_eq!(e.describe(), "chunk 3 hash mismatch: expected aa, got bb");
}

/// A peer holding one snapshot (state root "aa") split in chunks; `tamper`
/// flips a byte of the chunk it sends at that index, and `rebuilt_root` is
/// the root of the ledger rebuilt from the chunks.
fn run_against_peer_with_root(
    chunks: &[Vec<u8>],
    tamper: Option<usize>,
    rebuilt_root: &str,
) -> Result<(Manifest, Vec<Vec<u8>>), BootstrapError> {
    run_full(chunks, tamper, None, rebuilt_root).map(|(m, c, _)| (m, c))
}

/// As above; decoding the records of chunk `undecodable` fails. Gives the
/// manifest, the rebuilt bytes, and the chunk indices requested.
fn run_full(
    chunks: &[Vec<u8>],
    tamper: Option<usize>,
    undecodable: Option<u32>,
    rebuilt_root: &str,
) -> Result<(Manifest, Vec<Vec<u8>>, Vec<u32>), BootstrapError> {
    let mut requested: Vec<u32> = Vec::new();
    let pairs: Vec<(ManifestChunk, ChunkPayload)> =
        chunks.iter().enumerate().map(|(i, c)| chunk_for(i as u32, c)).collect();
    let (mut stage, mut action) = bootstrap_start();
    let mut received: Option<Vec<Vec<u8>>> = None;
    let mut calls = 0;
    loop {
        calls += 1;
        assert!(calls < 100);
        let reply = match action {
            BootstrapAction::ListSnapshots { limit } => {
                assert_eq!(limit, 1);
                PeerReply::Snapshots(vec![entry(128, "aa")])
            }
            BootstrapAction::GetManifest { height } => {
                assert_eq!(height, 128);
                let listed: Vec<ManifestChunk> = pairs
                    .iter()
                    .map(|(c, _)| ManifestChunk {
                        index: c.index,
                        chunk_hash_hex: c.chunk_hash_hex.clone(),
                        byte_size: c.byte_size,
                    })
                    .collect();
                let n = listed.len() as u32;
                PeerReply::ManifestReply(manifest(128, "aa", listed, n))
            }
            BootstrapAction::GetChunk { height, chunk_index } => {
                assert_eq!(height, 128);
                requested.push(chunk_index);
                let i = chunk_index as usize;
                let mut bytes = chunks[i].clone();
                if tamper == Some(i) {
                    bytes[0] ^= 0x01;
                }
                PeerReply::ChunkReply(ChunkPayload {
                    chunk_index,
                    chunk_hash_hex: pairs[i].1.chunk_hash_hex.clone(),
                    bytes_b64: base64::engine::general_purpose::STANDARD.encode(&bytes),
                })
            }
            BootstrapAction::DecodeChunk { chunk_index, bytes } => {
                assert_eq!(bytes, chunks[chunk_index as usize]);
                if undecodable == Some(chunk_index) {
                    PeerReply::DecodeFailed("truncated record".to_string())
                } else {
                    PeerReply::Decoded
                }
            }
            BootstrapAction::Rebuild { chunks } => {
                received = Some(chunks);
                PeerReply::Rebuilt(rebuilt_root.to_string())
            }
            BootstrapAction::Done { manifest } => return Ok((manifest, received.unwrap(), requested)),
            BootstrapAction::Abort(e) => return Err(e),
        };
        let next = bootstrap_step(stage, reply);
        stage = next.0;
        action = next.1;
    }
}

fn run_against_peer(chunks: &[Vec<u8>], tamper: Option<usize>) -> Result<(Manifest, Vec<Vec<u8>>), BootstrapError> {
    run_against_peer_with_root(chunks, tamper, "aa")
}

#[test]
fn bootstrap_steps_through_every_chunk() {
    let chunks = vec![b"first".to_vec(), b"second".to_vec(), b"third".to_vec()];
    let (m, got) = run_against_peer(&chunks, None).unwrap();
    assert_eq!(m.height, 128);
    assert_eq!(m.chunk_count, 3);
    assert_eq!(got, chunks);
}

#[test]
fn bootstrap_with_no_chunks_completes_after_manifest() {
    let (m, got) = run_against_peer(&[], None).unwrap();
    assert_eq!(m.chunk_count, 0);
    assert!(got.is_empty());
}

#[test]
fn bootstrap_stops_at_tampered_chunk() {
    let chunks = vec![b"first".to_vec(), b"second".to_vec()];
    match run_against_peer(&chunks, Some(1)).unwrap_err() {
        BootstrapError::HashMismatch { chunk_index, .. } => assert_eq!(chunk_index, 1),
        e => panic!("unexpected {:?}", e),
    }
}

#[test]
fn bootstrap_aborts_on_failed_call_or_empty_list() {
    let (stage, _) = bootstrap_start();
    let (_, action) = bootstrap_step(stage, PeerReply::Failed(BootstrapError::SnapshotPrunedMidStream));
    assert!(matches!(action, BootstrapAction::Abort(BootstrapError::SnapshotPrunedMidStream)));
    let (stage, _) = bootstrap_start();
    let (_, action) = bootstrap_step(stage, PeerReply::Snapshots(vec![]));
    match action {
        BootstrapAction::Abort(e) => assert_eq!(e.describe(), "bad response: peer has no snapshots retained"),
        a => panic!("unexpected {:?}", a),
    }
}

#[test]
fn bootstrap_refuses_diverging_state_root() {
    let chunks = vec![b"first".to_vec()];
    match run_against_peer_with_root(&chunks, None, "bb").unwrap_err() {
        BootstrapError::StateRootDivergence { expected, actual } => {
            assert_eq!(expected, "aa");
            assert_eq!(actual, "bb");
        }
        e => panic!("unexpected {:?}", e),
    }
}

#[test]
fn bootstrap_stops_at_undecodable_chunk() {
    let chunks = vec![b"first".to_vec(), b"second".to_vec(), b"third".to_vec()];
    match run_full(&chunks, Some(2), Some(0), "aa").unwrap_err() {
        BootstrapError::BadResponse(m) => assert_eq!(m, "decode chunk 0: truncated record"),
        e => panic!("unexpected {:?}", e),
    }
}

#[test]
fn bootstrap_decodes_each_chunk_before_the_next() {
    let chunks = vec![b"first".to_vec(), b"second".to_vec()];
    let (_, got, requested) = run_full(&chunks, None, None, "aa").unwrap();
    assert_eq!(got, chunks);
    assert_eq!(requested, vec![0, 1]);
}

#[test]
fn chunk_bytes_checked_against_announced_hash() {
    let (expected, _) = chunk_for(3, b"payload");
    assert_eq!(check_chunk_bytes(&expected, b"payload".to_vec()).unwrap(), b"payload".to_vec());
    match check_chunk_bytes(&expected, b"payloae".to_vec()).unwrap_err() {
        BootstrapError::HashMismatch { chunk_index, expected: e, actual } => {
            assert_eq!(chunk_index, 3);
            assert_eq!(e, expected.chunk_hash_hex);
            assert_eq!(actual, hex::encode(sha3_256(b"payloae").0));
        }
        e => panic!("unexpected {:?}", e),
    }
}
