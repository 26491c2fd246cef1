//! Checks of the state-sync client: a late-joining node pulls the newest
//! snapshot of a peer (list, manifest, chunks) and accepts it only when
//! the manifest agrees with the list, every chunk hashes to the value
//! the manifest announced, and the rebuilt state root matches.

use vstd::prelude::*;
use crate::hash::{copy_bytes, hex_encode, hex_of, sha3_256, sha3_256_spec};
use crate::text::{dec, dec_signed, push_dec, push_dec_signed, str_eq, string_of};

verus! {

/// Why a bootstrap failed.
#[derive(Debug)]
pub enum BootstrapError {
    /// HTTP / IO error talking to the peer.
    Transport(String),
    /// The peer returned a JSON-RPC error.
    Rpc { code: i64, message: String },
    /// The response did not have the expected shape or content.
    BadResponse(String),
    /// A chunk's bytes do not hash to the announced value.
    HashMismatch { chunk_index: u32, expected: String, actual: String },
    /// The peer evicted the snapshot mid-stream.
    SnapshotPrunedMidStream,
    /// The rebuilt state root differs from the manifest's.
    StateRootDivergence { expected: String, actual: String },
}

/// The text of an error, as the node reports it.
pub open spec fn error_text(e: BootstrapError) -> Seq<char> {
    match e {
        BootstrapError::Transport(s) => "transport: "@ + s@,
        BootstrapError::Rpc { code, message } => "RPC error ("@ + dec_signed(code as int) + "): "@ + message@,
        BootstrapError::BadResponse(s) => "bad response: "@ + s@,
        BootstrapError::HashMismatch { chunk_index, expected, actual } => "chunk "@ + dec(chunk_index as nat)
            + " hash mismatch: expected "@ + expected@ + ", got "@ + actual@,
        BootstrapError::SnapshotPrunedMidStream => "snapshot evicted mid-stream"@,
        BootstrapError::StateRootDivergence { expected, actual } => "reconstructed state_root "@ + actual@
            + " \u{2260} manifest state_root "@ + expected@,
    }
}

impl BootstrapError {
    /// Human-readable description of the error.
    pub fn describe(&self) -> (s: String)
        ensures
            s@ == error_text(*self),
    {
        match self {
            BootstrapError::Transport(t) => {
                let mut s = string_of("transport: ");
                s.append(t.as_str());
                s
            },
            BootstrapError::Rpc { code, message } => {
                let mut s = string_of("RPC error (");
                push_dec_signed(&mut s, *code);
                s.append("): ");
                s.append(message.as_str());
                s
            },
            BootstrapError::BadResponse(t) => {
                let mut s = string_of("bad response: ");
                s.append(t.as_str());
                s
            },
            BootstrapError::HashMismatch { chunk_index, expected, actual } => {
                let mut s = string_of("chunk ");
                push_dec(&mut s, *chunk_index as u64);
                s.append(" hash mismatch: expected ");
                s.append(expected.as_str());
                s.append(", got ");
                s.append(actual.as_str());
                s
            },
            BootstrapError::SnapshotPrunedMidStream => string_of("snapshot evicted mid-stream"),
            BootstrapError::StateRootDivergence { expected, actual } => {
                let mut s = string_of("reconstructed state_root ");
                s.append(actual.as_str());
                s.append(" \u{2260} manifest state_root ");
                s.append(expected.as_str());
                s
            },
        }
    }
}

/// A JSON-RPC error from the peer: codes -32007 through -32004 mean the
/// snapshot can no longer be fetched; other codes are passed on.
pub fn classify_rpc_error(code: i64, message: String) -> (e: BootstrapError)
    ensures
        -32007 <= code <= -32004 ==> e is SnapshotPrunedMidStream,
        !(-32007 <= code <= -32004) ==> (e matches BootstrapError::Rpc { code: c, message: m } && c == code && m@
            == message@),
{
    if -32007 <= code && code <= -32004 {
        BootstrapError::SnapshotPrunedMidStream
    } else {
        BootstrapError::Rpc { code, message }
    }
}

/// A snapshot the peer retains.
#[derive(Debug)]
pub struct SnapshotEntry {
    pub height: u64,
    pub epoch: u64,
    pub state_root_hex: String,
}

/// A chunk announced by a manifest.
#[derive(Debug)]
pub struct ManifestChunk {
    pub index: u32,
    pub chunk_hash_hex: String,
    pub byte_size: u32,
}

/// The manifest of a snapshot.
#[derive(Debug)]
pub struct Manifest {
    pub height: u64,
    pub epoch: u64,
    pub state_root_hex: String,
    pub total_bytes: u64,
    pub chunk_count: u32,
    pub chunks: Vec<ManifestChunk>,
}

/// One chunk as the peer sends it.
#[derive(Debug)]
pub struct ChunkPayload {
    pub chunk_index: u32,
    pub chunk_hash_hex: String,
    pub bytes_b64: String,
}

/// The choice of a snapshot from a list: the newest (the first listed);
/// an empty list is a bad response.
pub open spec fn choice_verdict(snapshots: Seq<SnapshotEntry>, r: Result<SnapshotEntry, BootstrapError>) -> bool {
    &&& snapshots.len() == 0 ==> (r matches Err(BootstrapError::BadResponse(m)) && m@
        == "peer has no snapshots retained"@)
    &&& snapshots.len() > 0 ==> (r matches Ok(s) && s.height == snapshots[0].height && s.epoch
        == snapshots[0].epoch && s.state_root_hex@ == snapshots[0].state_root_hex@)
}

/// Takes the newest snapshot (the first listed); an empty list is a bad
/// response.
pub fn choose_snapshot(mut snapshots: Vec<SnapshotEntry>) -> (r: Result<SnapshotEntry, BootstrapError>)
    ensures
        choice_verdict(snapshots@, r),
{
    if snapshots.len() == 0 {
        return Err(BootstrapError::BadResponse(string_of("peer has no snapshots retained")));
    }
    let first = snapshots.remove(0);
    Ok(first)
}

pub open spec fn msg_height_mismatch(manifest: u64, requested: u64) -> Seq<char> {
    "manifest height "@ + dec(manifest as nat) + " \u{2260} requested height "@ + dec(requested as nat)
}

pub open spec fn msg_root_mismatch(manifest: Seq<char>, listed: Seq<char>) -> Seq<char> {
    "manifest state_root "@ + manifest + " \u{2260} list state_root "@ + listed
}

pub open spec fn msg_count_mismatch(count: u32, len: nat) -> Seq<char> {
    "manifest chunk_count "@ + dec(count as nat) + " \u{2260} chunks.len() "@ + dec(len)
}

/// Whether a manifest agrees with the chosen snapshot.
pub open spec fn manifest_agrees(chosen: SnapshotEntry, manifest: Manifest) -> bool {
    manifest.height == chosen.height && manifest.state_root_hex@ == chosen.state_root_hex@
        && manifest.chunks@.len() as u32 == manifest.chunk_count
}

/// The check of a manifest against the chosen snapshot: same height,
/// same state root, and as many chunks as it announces (the length read
/// as a `u32`), each refusal a bad response.
pub open spec fn manifest_verdict(chosen: SnapshotEntry, manifest: Manifest, r: Result<(), BootstrapError>) -> bool {
    &&& manifest.height != chosen.height ==> (r matches Err(BootstrapError::BadResponse(m)) && m@
        == msg_height_mismatch(manifest.height, chosen.height))
    &&& manifest.height == chosen.height && manifest.state_root_hex@ != chosen.state_root_hex@ ==> (r matches Err(
        BootstrapError::BadResponse(m),
    ) && m@ == msg_root_mismatch(manifest.state_root_hex@, chosen.state_root_hex@))
    &&& manifest.height == chosen.height && manifest.state_root_hex@ == chosen.state_root_hex@
        && manifest.chunks@.len() as u32 != manifest.chunk_count ==> (r matches Err(BootstrapError::BadResponse(m))
        && m@ == msg_count_mismatch(manifest.chunk_count, manifest.chunks@.len()))
    &&& r is Ok <==> manifest_agrees(chosen, manifest)
}

/// The manifest must be for the chosen snapshot (see `manifest_verdict`).
pub fn check_manifest(chosen: &SnapshotEntry, manifest: &Manifest) -> (r: Result<(), BootstrapError>)
    ensures
        manifest_verdict(*chosen, *manifest, r),
{
    if manifest.height != chosen.height {
        let mut m = string_of("manifest height ");
        push_dec(&mut m, manifest.height);
        m.append(" \u{2260} requested height ");
        push_dec(&mut m, chosen.height);
        return Err(BootstrapError::BadResponse(m));
    }
    if !str_eq(manifest.state_root_hex.as_str(), chosen.state_root_hex.as_str()) {
        let mut m = string_of("manifest state_root ");
        m.append(manifest.state_root_hex.as_str());
        m.append(" \u{2260} list state_root ");
        m.append(chosen.state_root_hex.as_str());
        return Err(BootstrapError::BadResponse(m));
    }
    if manifest.chunks.len() as u32 != manifest.chunk_count {
        let mut m = string_of("manifest chunk_count ");
        push_dec(&mut m, manifest.chunk_count as u64);
        m.append(" \u{2260} chunks.len() ");
        push_dec(&mut m, manifest.chunks.len() as u64);
        return Err(BootstrapError::BadResponse(m));
    }
    Ok(())
}

/// What standard base64 decoding gives for a string: the bytes, or the
/// text of the decoding error.
pub uninterp spec fn base64_decoded(s: Seq<char>) -> Result<Seq<u8>, Seq<char>>;

/// Calls `base64::engine::general_purpose::STANDARD.decode` and renders a
/// failure with the error's `Display`; a function of the input alone.
#[verifier::external_body]
fn base64_decode(s: &str) -> (r: Result<Vec<u8>, String>)
    ensures
        match base64_decoded(s@) {
            Ok(b) => r matches Ok(v) && v@ == b,
            Err(t) => r matches Err(e) && e@ == t,
        },
{
    match base64::Engine::decode(&base64::engine::general_purpose::STANDARD, s) {
        Ok(v) => Ok(v),
        Err(e) => Err(e.to_string()),
    }
}

pub open spec fn msg_index_drift(expected: u32, got: u32) -> Seq<char> {
    "chunk index drift: expected "@ + dec(expected as nat) + ", got "@ + dec(got as nat)
}

/// Hex digest of a chunk's bytes.
pub open spec fn chunk_hash_hex(bytes: Seq<u8>) -> Seq<char> {
    hex_of(sha3_256_spec(bytes))
}

/// The check of a chunk: it must be the announced one, decode from
/// base64, and hash (SHA3-256, hex) to the announced value; it then
/// gives its bytes.
pub open spec fn chunk_verdict(expected: ManifestChunk, payload: ChunkPayload, r: Result<Vec<u8>, BootstrapError>) -> bool {
    &&& payload.chunk_index != expected.index ==> (r matches Err(BootstrapError::BadResponse(m)) && m@
        == msg_index_drift(expected.index, payload.chunk_index))
    &&& payload.chunk_index == expected.index ==> match base64_decoded(payload.bytes_b64@) {
        Err(t) => r matches Err(BootstrapError::BadResponse(m)) && m@ == "base64 decode: "@ + t,
        Ok(b) => bytes_verdict(expected, b, r),
    }
}

/// The check of a chunk's decoded bytes: they must hash (SHA3-256, hex)
/// to the value the manifest announced.
pub open spec fn bytes_verdict(expected: ManifestChunk, bytes: Seq<u8>, r: Result<Vec<u8>, BootstrapError>) -> bool {
    if chunk_hash_hex(bytes) == expected.chunk_hash_hex@ {
        r matches Ok(v) && v@ == bytes
    } else {
        r matches Err(BootstrapError::HashMismatch { chunk_index, expected: e, actual: a }) && chunk_index
            == expected.index && e@ == expected.chunk_hash_hex@ && a@ == chunk_hash_hex(bytes)
    }
}

/// Accepts a chunk's decoded bytes when they hash to the announced value
/// (see `bytes_verdict`).
pub fn check_chunk_bytes(expected: &ManifestChunk, bytes: Vec<u8>) -> (r: Result<Vec<u8>, BootstrapError>)
    ensures
        bytes_verdict(*expected, bytes@, r),
{
    let digest = sha3_256(bytes.as_slice());
    let actual = hex_encode(digest.0.as_slice());
    if !str_eq(actual.as_str(), expected.chunk_hash_hex.as_str()) {
        return Err(
            BootstrapError::HashMismatch {
                chunk_index: expected.index,
                expected: expected.chunk_hash_hex.clone(),
                actual,
            },
        );
    }
    Ok(bytes)
}

/// Accepts a chunk (see `chunk_verdict`) and gives its bytes.
pub fn verify_chunk(expected: &ManifestChunk, payload: &ChunkPayload) -> (r: Result<Vec<u8>, BootstrapError>)
    ensures
        chunk_verdict(*expected, *payload, r),
{
    if payload.chunk_index != expected.index {
        let mut m = string_of("chunk index drift: expected ");
        push_dec(&mut m, expected.index as u64);
        m.append(", got ");
        push_dec(&mut m, payload.chunk_index as u64);
        return Err(BootstrapError::BadResponse(m));
    }
    let bytes = match base64_decode(payload.bytes_b64.as_str()) {
        Ok(b) => b,
        Err(t) => {
            let mut m = string_of("base64 decode: ");
            m.append(t.as_str());
            return Err(BootstrapError::BadResponse(m));
        },
    };
    check_chunk_bytes(expected, bytes)
}

/// The rebuilt state root must be the manifest's.
pub fn check_state_root(manifest: &Manifest, actual_root_hex: String) -> (r: Result<(), BootstrapError>)
    ensures
        r is Ok <==> actual_root_hex@ == manifest.state_root_hex@,
        r matches Err(e) ==> (e matches BootstrapError::StateRootDivergence { expected, actual } && expected@
            == manifest.state_root_hex@ && actual@ == actual_root_hex@),
{
    if str_eq(actual_root_hex.as_str(), manifest.state_root_hex.as_str()) {
        Ok(())
    } else {
        Err(BootstrapError::StateRootDivergence { expected: manifest.state_root_hex.clone(), actual: actual_root_hex })
    }
}

// ---------------------------------------------------------------------------
// The bootstrap as a sequence of requests
// ---------------------------------------------------------------------------

/// Where a bootstrap stands.
#[derive(Debug)]
pub enum BootstrapStage {
    /// Waiting for the peer's list of snapshots.
    Listing,
    /// Waiting for the manifest of the chosen snapshot.
    AwaitingManifest { chosen: SnapshotEntry },
    /// Waiting for the chunk after the `chunks` already accepted.
    AwaitingChunk { manifest: Manifest, chunks: Vec<Vec<u8>> },
    /// Waiting for the records of the last of `chunks` (just checked) to be
    /// decoded.
    AwaitingDecode { manifest: Manifest, chunks: Vec<Vec<u8>> },
    /// Every chunk is in; waiting for the state root of the ledger
    /// rebuilt from them.
    AwaitingRoot { manifest: Manifest },
}

/// What the peer answered to the last request, read in the shape that
/// request expects.
#[derive(Debug)]
pub enum PeerReply {
    Snapshots(Vec<SnapshotEntry>),
    ManifestReply(Manifest),
    ChunkReply(ChunkPayload),
    /// The records of the last chunk were decoded (and kept for the
    /// rebuild).
    Decoded,
    /// The records of the last chunk could not be decoded, for this
    /// reason.
    DecodeFailed(String),
    /// The state root (hex) of the ledger rebuilt from the chunks.
    Rebuilt(String),
    /// The call failed, or its answer did not have the expected shape.
    Failed(BootstrapError),
}

/// What to do next.
#[derive(Debug)]
pub enum BootstrapAction {
    /// Call `seal_listSnapshots` with this limit.
    ListSnapshots { limit: u64 },
    /// Call `seal_getSnapshotManifest` at this height.
    GetManifest { height: u64 },
    /// Call `seal_getSnapshotChunk` for this chunk.
    GetChunk { height: u64, chunk_index: u32 },
    /// Decode the ledger records of this chunk, whose hash checked out.
    DecodeChunk { chunk_index: u32, bytes: Vec<u8> },
    /// Every chunk checked out and decoded: rebuild the ledger from the
    /// decoded records (these are the chunks' bytes, in manifest order)
    /// and answer with its state root.
    Rebuild { chunks: Vec<Vec<u8>> },
    /// The rebuilt ledger has the manifest's state root: the snapshot is
    /// verified.
    Done { manifest: Manifest },
    /// Give up with this error.
    Abort(BootstrapError),
}

/// A stage waiting for a chunk has accepted fewer chunks than the
/// manifest lists, and its manifest agrees with itself.
pub open spec fn stage_wf(stage: BootstrapStage) -> bool {
    match stage {
        BootstrapStage::AwaitingChunk { manifest, chunks } => chunks@.len() < manifest.chunks@.len()
            && manifest.chunks@.len() as u32 == manifest.chunk_count,
        BootstrapStage::AwaitingDecode { manifest, chunks } => 0 < chunks@.len() <= manifest.chunks@.len()
            && manifest.chunks@.len() as u32 == manifest.chunk_count,
        _ => true,
    }
}

/// The reply is the one the stage waits for, or a failure.
pub open spec fn reply_fits(stage: BootstrapStage, reply: PeerReply) -> bool {
    match reply {
        PeerReply::Failed(_) => true,
        PeerReply::Snapshots(_) => stage is Listing,
        PeerReply::ManifestReply(_) => stage is AwaitingManifest,
        PeerReply::ChunkReply(_) => stage is AwaitingChunk,
        PeerReply::Decoded => stage is AwaitingDecode,
        PeerReply::DecodeFailed(_) => stage is AwaitingDecode,
        PeerReply::Rebuilt(_) => stage is AwaitingRoot,
    }
}

pub open spec fn msg_decode_chunk(index: u32, reason: Seq<char>) -> Seq<char> {
    "decode chunk "@ + dec(index as nat) + ": "@ + reason
}

/// The request for the chunk after `accepted` chunks, or, when none is
/// left, the rebuild of the ledger from them.
pub open spec fn after_chunks(manifest: Manifest, accepted: Seq<Seq<u8>>, stage: BootstrapStage, action: BootstrapAction) -> bool {
    if accepted.len() == manifest.chunks@.len() {
        &&& stage == (BootstrapStage::AwaitingRoot { manifest })
        &&& action matches BootstrapAction::Rebuild { chunks: cs }
        &&& cs@.map_values(|c: Vec<u8>| c@) == accepted
    } else {
        &&& action == (BootstrapAction::GetChunk {
            height: manifest.height,
            chunk_index: manifest.chunks@[accepted.len() as int].index,
        })
        &&& stage matches BootstrapStage::AwaitingChunk { manifest: m, chunks: cs }
        &&& m == manifest
        &&& cs@.map_values(|c: Vec<u8>| c@) == accepted
    }
}

/// The first request of a bootstrap: the newest snapshot of the peer.
pub fn bootstrap_start() -> (r: (BootstrapStage, BootstrapAction))
    ensures
        r.0 is Listing,
        r.1 == (BootstrapAction::ListSnapshots { limit: 1 }),
{
    (BootstrapStage::Listing, BootstrapAction::ListSnapshots { limit: 1 })
}

/// One step of a bootstrap: takes the peer's reply to the last request
/// and gives the next stage and what to do. A failed call aborts with its
/// error; the list gives the newest snapshot, whose manifest is asked
/// for; the manifest must agree with it, and its chunks are then asked
/// for one by one, each checked as it comes and its records decoded
/// before the next is asked for; once all are in, the ledger is rebuilt
/// from them, and the bootstrap is done when its state root is
/// the manifest's. A refused answer aborts with the refusal.
pub fn bootstrap_step(stage: BootstrapStage, reply: PeerReply) -> (r: (BootstrapStage, BootstrapAction))
    requires
        stage_wf(stage),
        reply_fits(stage, reply),
    ensures
        stage_wf(r.0),
        reply matches PeerReply::Failed(e) ==> r.1 == BootstrapAction::Abort(e),
        reply matches PeerReply::Snapshots(list) ==> exists|c: Result<SnapshotEntry, BootstrapError>|
            #![trigger choice_verdict(list@, c)]
            choice_verdict(list@, c) && match c {
                Err(e) => r.1 == BootstrapAction::Abort(e),
                Ok(chosen) => r.0 == (BootstrapStage::AwaitingManifest { chosen }) && r.1
                    == (BootstrapAction::GetManifest { height: chosen.height }),
            },
        reply matches PeerReply::ManifestReply(manifest) ==> (stage matches BootstrapStage::AwaitingManifest {
            chosen,
        } && exists|v: Result<(), BootstrapError>|
            #![trigger manifest_verdict(chosen, manifest, v)]
            manifest_verdict(chosen, manifest, v) && match v {
                Err(e) => r.1 == BootstrapAction::Abort(e),
                Ok(_) => after_chunks(manifest, Seq::empty(), r.0, r.1),
            }),
        reply matches PeerReply::ChunkReply(payload) ==> (stage matches BootstrapStage::AwaitingChunk {
            manifest,
            chunks,
        } && exists|v: Result<Vec<u8>, BootstrapError>|
            #![trigger chunk_verdict(manifest.chunks@[chunks@.len() as int], payload, v)]
            chunk_verdict(manifest.chunks@[chunks@.len() as int], payload, v) && match v {
                Err(e) => r.1 == BootstrapAction::Abort(e),
                Ok(bytes) => {
                    &&& r.0 matches BootstrapStage::AwaitingDecode { manifest: m, chunks: cs }
                    &&& m == manifest
                    &&& cs@.map_values(|c: Vec<u8>| c@) == chunks@.map_values(|c: Vec<u8>| c@).push(bytes@)
                    &&& r.1 matches BootstrapAction::DecodeChunk { chunk_index, bytes: b }
                    &&& chunk_index == manifest.chunks@[chunks@.len() as int].index
                    &&& b@ == bytes@
                },
            }),
        reply is Decoded ==> (stage matches BootstrapStage::AwaitingDecode { manifest, chunks } && after_chunks(
            manifest,
            chunks@.map_values(|c: Vec<u8>| c@),
            r.0,
            r.1,
        )),
        reply matches PeerReply::DecodeFailed(reason) ==> (stage matches BootstrapStage::AwaitingDecode {
            manifest,
            chunks,
        } && r.1 matches BootstrapAction::Abort(BootstrapError::BadResponse(m)) && m@ == msg_decode_chunk(
            manifest.chunks@[chunks@.len() - 1].index,
            reason@,
        )),
        reply matches PeerReply::Rebuilt(root) ==> (stage matches BootstrapStage::AwaitingRoot { manifest } && if root@
            == manifest.state_root_hex@ {
            r.0 is Listing && r.1 == (BootstrapAction::Done { manifest })
        } else {
            r.1 matches BootstrapAction::Abort(BootstrapError::StateRootDivergence { expected, actual }) && expected@
                == manifest.state_root_hex@ && actual@ == root@
        }),
{
    match reply {
        PeerReply::Failed(e) => {
            (stage, BootstrapAction::Abort(e))
        },
        PeerReply::Snapshots(list) => {
            match choose_snapshot(list) {
                Err(e) => (stage, BootstrapAction::Abort(e)),
                Ok(chosen) => {
                    let height = chosen.height;
                    (BootstrapStage::AwaitingManifest { chosen }, BootstrapAction::GetManifest { height })
                },
            }
        },
        PeerReply::ManifestReply(manifest) => match stage {
            BootstrapStage::AwaitingManifest { chosen } => {
                let v = check_manifest(&chosen, &manifest);
                match v {
                    Err(e) => (BootstrapStage::AwaitingManifest { chosen }, BootstrapAction::Abort(e)),
                    Ok(()) => {
                        let none: Vec<Vec<u8>> = Vec::new();
                        assert(none@.map_values(|c: Vec<u8>| c@) =~= Seq::<Seq<u8>>::empty());
                        next_after(manifest, none)
                    },
                }
            },
            _ => (stage, BootstrapAction::ListSnapshots { limit: 1 }),
        },
        PeerReply::ChunkReply(payload) => match stage {
            BootstrapStage::AwaitingChunk { manifest, mut chunks } => {
                let k = chunks.len();
                match verify_chunk(&manifest.chunks[k], &payload) {
                    Err(e) => (BootstrapStage::AwaitingChunk { manifest, chunks }, BootstrapAction::Abort(e)),
                    Ok(bytes) => {
                        let ghost before = chunks@.map_values(|c: Vec<u8>| c@);
                        let chunk_index = manifest.chunks[k].index;
                        let copy = copy_bytes(bytes.as_slice());
                        chunks.push(bytes);
                        assert(chunks@.map_values(|c: Vec<u8>| c@) =~= before.push(chunks@[k as int]@));
                        (
                            BootstrapStage::AwaitingDecode { manifest, chunks },
                            BootstrapAction::DecodeChunk { chunk_index, bytes: copy },
                        )
                    },
                }
            },
            _ => (stage, BootstrapAction::ListSnapshots { limit: 1 }),
        },
        PeerReply::Decoded => match stage {
            BootstrapStage::AwaitingDecode { manifest, chunks } => next_after(manifest, chunks),
            _ => (stage, BootstrapAction::ListSnapshots { limit: 1 }),
        },
        PeerReply::DecodeFailed(reason) => match stage {
            BootstrapStage::AwaitingDecode { manifest, chunks } => {
                let index = manifest.chunks[chunks.len() - 1].index;
                let mut m = string_of("decode chunk ");
                push_dec(&mut m, index as u64);
                m.append(": ");
                m.append(reason.as_str());
                (BootstrapStage::AwaitingDecode { manifest, chunks }, BootstrapAction::Abort(BootstrapError::BadResponse(m)))
            },
            _ => (stage, BootstrapAction::ListSnapshots { limit: 1 }),
        },
        PeerReply::Rebuilt(root) => match stage {
            BootstrapStage::AwaitingRoot { manifest } => match check_state_root(&manifest, root) {
                Err(e) => (BootstrapStage::AwaitingRoot { manifest }, BootstrapAction::Abort(e)),
                Ok(()) => (BootstrapStage::Listing, BootstrapAction::Done { manifest }),
            },
            _ => (stage, BootstrapAction::ListSnapshots { limit: 1 }),
        },
    }
}

fn next_after(manifest: Manifest, chunks: Vec<Vec<u8>>) -> (r: (BootstrapStage, BootstrapAction))
    requires
        chunks@.len() <= manifest.chunks@.len(),
        manifest.chunks@.len() as u32 == manifest.chunk_count,
    ensures
        stage_wf(r.0),
        after_chunks(manifest, chunks@.map_values(|c: Vec<u8>| c@), r.0, r.1),
{
    if chunks.len() == manifest.chunks.len() {
        (BootstrapStage::AwaitingRoot { manifest }, BootstrapAction::Rebuild { chunks })
    } else {
        let height = manifest.height;
        let chunk_index = manifest.chunks[chunks.len()].index;
        (BootstrapStage::AwaitingChunk { manifest, chunks }, BootstrapAction::GetChunk { height, chunk_index })
    }
}

/// Snapshot RPC client over HTTP: `peer_url` is the full RPC endpoint.
pub struct HttpSnapshotRpc {
    pub peer_url: String,
}

} // verus!
