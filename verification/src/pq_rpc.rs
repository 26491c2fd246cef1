//! Encrypted RPC transport: the session table with its replay
//! protection, and the envelope cipher.
//!
//! A client and the server agree on a session key during a key
//! encapsulation handshake. Every request then carries a nonce that must
//! be larger than any nonce the session has accepted so far. Payloads
//! are combined with a SHA3-256 keystream seeded by the session key and
//! the nonce.

use vstd::prelude::*;
use crate::hash::{hex_decode, hex_decode_spec, hex_encode, hex_of, sha3_256, sha3_256_spec, Hash256};
use crate::text::{str_eq, string_of};
use vstd::string::StringSliceAdditionalSpecFns;

verus! {

/// Session state for an encrypted RPC connection.
#[derive(Clone, Debug)]
pub struct PqRpcSession {
    /// Session identifier.
    pub session_id: String,
    /// Session key derived from the shared secret.
    pub session_key: [u8; 32],
    /// Largest nonce accepted so far.
    pub nonce_counter: u64,
}

/// Handshake request from a client.
#[derive(Debug)]
pub struct HandshakeRequest {
    /// Client's public key, hex-encoded.
    pub client_public_key: String,
}

/// Handshake response from the server.
#[derive(Debug)]
pub struct HandshakeResponse {
    /// Encapsulated shared secret, hex-encoded.
    pub ciphertext: String,
    /// Session ID for subsequent encrypted requests.
    pub session_id: String,
    /// Server's public key, hex-encoded.
    pub server_public_key: String,
}

/// Encrypted RPC request envelope.
#[derive(Debug)]
pub struct EncryptedRpcRequest {
    /// Session ID from the handshake.
    pub session_id: String,
    /// Encrypted JSON-RPC payload, hex-encoded.
    pub encrypted_payload: String,
    /// Nonce of this request.
    pub nonce: u64,
}

/// Encrypted RPC response envelope.
#[derive(Debug)]
pub struct EncryptedRpcResponse {
    /// Encrypted JSON-RPC response, hex-encoded.
    pub encrypted_payload: String,
    /// Nonce of this response.
    pub nonce: u64,
}

// ---------------------------------------------------------------------------
// Envelope cipher
// ---------------------------------------------------------------------------

/// Block `k` of the keystream: SHA3-256 of key and nonce, then SHA3-256
/// of the previous block.
pub open spec fn keystream_block(seed: Seq<u8>, k: nat) -> Seq<u8>
    decreases k,
{
    if k == 0 {
        sha3_256_spec(seed)
    } else {
        sha3_256_spec(keystream_block(seed, (k - 1) as nat))
    }
}

/// Keystream byte `i`.
pub open spec fn keystream_byte(seed: Seq<u8>, i: int) -> u8 {
    keystream_block(seed, (i / 32) as nat)[i % 32]
}

/// `data` combined byte by byte with the keystream of `seed`.
pub open spec fn keystream_xor(data: Seq<u8>, seed: Seq<u8>) -> Seq<u8> {
    Seq::new(data.len(), |i: int| data[i] ^ keystream_byte(seed, i))
}

/// The 12-byte nonce of an envelope: the counter in little-endian order,
/// then four zero bytes.
pub open spec fn nonce12(nonce: u64) -> Seq<u8> {
    Seq::new(12, |i: int| if i < 8 { (((nonce as int) / (pow256(i) as int)) % 256) as u8 } else { 0u8 })
}

/// `256^i` for `i < 8`.
pub open spec fn pow256(i: int) -> nat
    decreases i,
{
    if i <= 0 { 1 } else { 256 * pow256(i - 1) }
}

/// Combines `data` with the keystream of `key` and `nonce`; applying it
/// twice gives `data` back.
pub fn xor_decrypt(data: &[u8], key: &[u8; 32], nonce: &[u8; 12]) -> (r: Vec<u8>)
    ensures
        r@ == keystream_xor(data@, key@ + nonce@),
        r@.len() == data@.len(),
        forall|i: int| 0 <= i < data@.len() && i < 32 ==> #[trigger] r@[i] == data@[i] ^ sha3_256_spec(key@ + nonce@)[i],
{
    let ghost seed = key@ + nonce@;
    let mut seed_bytes: Vec<u8> = Vec::new();
    let mut i: usize = 0;
    while i < 32
        invariant
            key@.len() == 32,
            i <= 32,
            seed_bytes@ == key@.take(i as int),
        decreases 32 - i,
    {
        seed_bytes.push(key[i]);
        assert(key@.take(i + 1) =~= key@.take(i as int).push(key@[i as int]));
        i = i + 1;
    }
    let mut j: usize = 0;
    while j < 12
        invariant
            key@.len() == 32,
            nonce@.len() == 12,
            j <= 12,
            seed_bytes@ == key@ + nonce@.take(j as int),
        decreases 12 - j,
    {
        seed_bytes.push(nonce[j]);
        assert(nonce@.take(j + 1) =~= nonce@.take(j as int).push(nonce@[j as int]));
        j = j + 1;
    }
    assert(key@.take(32) =~= key@);
    assert(nonce@.take(12) =~= nonce@);
    assert(seed_bytes@ =~= seed);
    let mut keystream: Vec<u8> = Vec::new();
    let mut hash: Hash256 = sha3_256(seed_bytes.as_slice());
    let ghost mut blocks: nat = 0;
    while keystream.len() < data.len()
        invariant
            keystream@.len() == 32 * blocks,
            forall|t: int| 0 <= t < keystream@.len() ==> keystream@[t] == keystream_byte(seed, t),
            hash.0@ == keystream_block(seed, blocks),
            keystream@.len() <= data@.len() + 32,
        decreases data@.len() + 32 - keystream@.len(),
    {
        let ghost before = keystream@;
        let mut b: usize = 0;
        while b < 32
            invariant
                hash.0@.len() == 32,
                hash.0@ == keystream_block(seed, blocks),
                b <= 32,
                before.len() == 32 * blocks,
                keystream@.len() == before.len() + b,
                forall|t: int| 0 <= t < before.len() ==> keystream@[t] == before[t],
                forall|t: int| 0 <= t < b ==> keystream@[before.len() + t] == hash.0@[t],
            decreases 32 - b,
        {
            keystream.push(hash.0[b]);
            b = b + 1;
        }
        proof {
            assert forall|t: int| 0 <= t < keystream@.len() implies keystream@[t] == keystream_byte(seed, t) by {
                if t >= before.len() {
                    let u = t - before.len();
                    assert(keystream@[before.len() + u] == hash.0@[u]);
                    assert((t / 32) == blocks && t % 32 == u) by (nonlinear_arith)
                        requires
                            t == 32 * blocks + u,
                            0 <= u < 32,
                    ;
                }
            }
        }
        hash = sha3_256(hash.0.as_slice());
        proof {
            blocks = blocks + 1;
        }
    }
    let mut out: Vec<u8> = Vec::new();
    let mut k: usize = 0;
    while k < data.len()
        invariant
            k <= data@.len(),
            data@.len() <= keystream@.len(),
            forall|t: int| 0 <= t < keystream@.len() ==> keystream@[t] == keystream_byte(seed, t),
            out@ == keystream_xor(data@, seed).take(k as int),
        decreases data@.len() - k,
    {
        out.push(data[k] ^ keystream[k]);
        assert(keystream_xor(data@, seed).take(k + 1) =~= keystream_xor(data@, seed).take(k as int).push(
            data@[k as int] ^ keystream_byte(seed, k as int),
        ));
        k = k + 1;
    }
    assert(keystream_xor(data@, seed).take(data@.len() as int) =~= keystream_xor(data@, seed));
    proof {
        assert forall|i: int| 0 <= i < data@.len() && i < 32 implies #[trigger] out@[i] == data@[i] ^ sha3_256_spec(
            seed,
        )[i] by {
            lemma_keystream_opens_with_seed_digest(seed, i);
        }
    }
    out
}

/// The keystream opens with the SHA3-256 digest of the seed (key, then
/// nonce), followed by the digest of that digest: each 32-byte block is
/// the hash of the block before it.
pub proof fn lemma_keystream_opens_with_seed_digest(seed: Seq<u8>, i: int)
    ensures
        0 <= i < 32 ==> keystream_byte(seed, i) == sha3_256_spec(seed)[i],
        32 <= i < 64 ==> keystream_byte(seed, i) == sha3_256_spec(sha3_256_spec(seed))[i - 32],
{
    if 0 <= i < 32 {
        assert(i / 32 == 0 && i % 32 == i);
    }
    if 32 <= i < 64 {
        assert(i / 32 == 1 && i % 32 == i - 32);
        assert(keystream_block(seed, 1) == sha3_256_spec(keystream_block(seed, 0)));
    }
}

/// Applying the keystream twice gives the data back.
pub proof fn lemma_keystream_xor_involution(data: Seq<u8>, seed: Seq<u8>)
    ensures
        keystream_xor(keystream_xor(data, seed), seed) == data,
{
    assert forall|i: int| 0 <= i < data.len() implies #[trigger] keystream_xor(keystream_xor(data, seed), seed)[i]
        == data[i] by {
        let a = data[i];
        let k = keystream_byte(seed, i);
        assert((a ^ k) ^ k == a) by (bit_vector);
    }
    assert(keystream_xor(keystream_xor(data, seed), seed) =~= data);
}

/// The 12-byte nonce of an envelope.
pub fn nonce_bytes(nonce: u64) -> (r: [u8; 12])
    ensures
        r@ == nonce12(nonce),
{
    let mut out = [0u8; 12];
    let mut v: u64 = nonce;
    let mut i: usize = 0;
    assert(pow256(0) == 1);
    while i < 8
        invariant
            i <= 8,
            out@.len() == 12,
            v as int == (nonce as int) / (pow256(i as int) as int),
            forall|t: int| 0 <= t < i ==> out@[t] == nonce12(nonce)[t],
            forall|t: int| 8 <= t < 12 ==> out@[t] == 0,
        decreases 8 - i,
    {
        out[i] = (v % 256) as u8;
        proof {
            assert(pow256(i + 1) == 256 * pow256(i as int));
            assert(pow256(i as int) > 0) by {
                lemma_pow256_pos(i as int);
            }
            vstd::arithmetic::div_mod::lemma_div_denominator(nonce as int, pow256(i as int) as int, 256);
            assert(pow256(i as int) * 256 == pow256(i + 1));
        }
        v = v / 256;
        i = i + 1;
    }
    assert(out@ =~= nonce12(nonce));
    out
}

proof fn lemma_pow256_pos(i: int)
    ensures
        pow256(i) > 0,
    decreases i,
{
    if i > 0 {
        lemma_pow256_pos(i - 1);
    }
}


// ---------------------------------------------------------------------------
// Session table
// ---------------------------------------------------------------------------

/// Session IDs appear at most once.
pub open spec fn sessions_unique(s: Seq<PqRpcSession>) -> bool {
    forall|i: int, j: int| 0 <= i < j < s.len() ==> (#[trigger] s[i]).session_id@ != (#[trigger] s[j]).session_id@
}

/// Index of the session with ID `id` (-1 when absent).
pub open spec fn session_index(s: Seq<PqRpcSession>, id: Seq<char>) -> int {
    if exists|k: int| 0 <= k < s.len() && (#[trigger] s[k]).session_id@ == id {
        choose|k: int| 0 <= k < s.len() && (#[trigger] s[k]).session_id@ == id
    } else {
        -1
    }
}

/// Replay protection: once a session has accepted nonce `n`, a request
/// on it with any nonce up to `n` finds the session with counter `n`,
/// and is refused as a replay.
pub proof fn lemma_accepted_nonce_blocks_replay(s: Seq<PqRpcSession>, id: Seq<char>, n: u64, m: u64)
    requires
        sessions_unique(s),
        session_index(s, id) >= 0,
        n > s[session_index(s, id)].nonce_counter,
        m <= n,
    ensures
        ({
            let k = session_index(s, id);
            let s1 = s.update(k, PqRpcSession { nonce_counter: n, ..s[k] });
            &&& sessions_unique(s1)
            &&& session_index(s1, id) == k
            &&& m <= s1[session_index(s1, id)].nonce_counter
        }),
{
    let k = session_index(s, id);
    assert(0 <= k < s.len() && s[k].session_id@ == id);
    let s1 = s.update(k, PqRpcSession { nonce_counter: n, ..s[k] });
    assert forall|i: int, j: int| 0 <= i < j < s1.len() implies (#[trigger] s1[i]).session_id@ != (
    #[trigger] s1[j]).session_id@ by {
        assert(s[i].session_id@ != s[j].session_id@);
    }
    assert(s1[k].session_id@ == id);
    let k1 = session_index(s1, id);
    if k1 != k {
        if k1 < k {
            assert(s1[k1].session_id@ != s1[k].session_id@);
        } else {
            assert(s1[k].session_id@ != s1[k1].session_id@);
        }
    }
}

/// The server side of encrypted RPC: its active sessions, keyed by
/// session ID. A session is installed once the KEM handshake has derived
/// its key (`insert`).
pub struct PqRpcManager {
    sessions: Vec<PqRpcSession>,
}

impl View for PqRpcManager {
    type V = Seq<PqRpcSession>;

    closed spec fn view(&self) -> Seq<PqRpcSession> {
        self.sessions@
    }
}

impl PqRpcManager {
    /// No sessions.
    pub fn new() -> (s: Self)
        ensures
            s@.len() == 0,
            sessions_unique(s@),
    {
        PqRpcManager { sessions: Vec::new() }
    }

    fn find(&self, id: &str) -> (r: Option<usize>)
        requires
            sessions_unique(self@),
        ensures
            match r {
                Some(k) => k < self@.len() && session_index(self@, id@) == k,
                None => session_index(self@, id@) == -1,
            },
    {
        let mut i: usize = 0;
        while i < self.sessions.len()
            invariant
                sessions_unique(self@),
                i <= self@.len(),
                forall|j: int| 0 <= j < i ==> (#[trigger] self@[j]).session_id@ != id@,
            decreases self@.len() - i,
        {
            if str_eq(self.sessions[i].session_id.as_str(), id) {
                proof {
                    let s = self@;
                    let k = session_index(s, id@);
                    if k != i {
                        if k < i {
                            assert(s[k].session_id@ != s[i as int].session_id@);
                        } else {
                            assert(s[i as int].session_id@ != s[k].session_id@);
                        }
                    }
                }
                return Some(i);
            }
            i = i + 1;
        }
        None
    }

    /// Number of sessions.
    pub fn session_count(&self) -> (n: usize)
        ensures
            n == self@.len(),
    {
        self.sessions.len()
    }

    /// Stores a session, replacing one with the same ID.
    pub fn insert(&mut self, session: PqRpcSession)
        requires
            sessions_unique(old(self)@),
        ensures
            sessions_unique(final(self)@),
            session_index(old(self)@, session.session_id@) >= 0 ==> final(self)@ == old(self)@.update(
                session_index(old(self)@, session.session_id@),
                session,
            ),
            session_index(old(self)@, session.session_id@) < 0 ==> final(self)@ == old(self)@.push(session),
    {
        let ghost s = self@;
        match self.find(session.session_id.as_str()) {
            Some(k) => {
                self.sessions.set(k, session);
                proof {
                    let n = self@;
                    assert forall|i: int, j: int| 0 <= i < j < n.len() implies (#[trigger] n[i]).session_id@ != (
                    #[trigger] n[j]).session_id@ by {
                        assert(s[i].session_id@ != s[j].session_id@);
                    }
                }
            },
            None => {
                let ghost id = session.session_id@;
                self.sessions.push(session);
                proof {
                    let n = self@;
                    assert forall|i: int, j: int| 0 <= i < j < n.len() implies (#[trigger] n[i]).session_id@ != (
                    #[trigger] n[j]).session_id@ by {
                        if j == s.len() {
                            assert(s[i].session_id@ != id);
                        } else {
                            assert(s[i].session_id@ != s[j].session_id@);
                        }
                    }
                }
            },
        }
    }

    /// Accepts a request nonce for a session: refused for an unknown
    /// session, or for a nonce not above the largest accepted so far (a
    /// replay); otherwise the nonce becomes the session's counter and the
    /// updated session is returned.
    pub fn accept_nonce(&mut self, session_id: &str, nonce: u64) -> (r: Result<PqRpcSession, String>)
        requires
            sessions_unique(old(self)@),
        ensures
            sessions_unique(final(self)@),
            ({
                let k = session_index(old(self)@, session_id@);
                &&& k < 0 ==> (r matches Err(e) && e@ == "unknown session ID"@ && final(self)@ == old(self)@)
                &&& k >= 0 && nonce <= old(self)@[k].nonce_counter ==> (r matches Err(e) && e@
                    == "nonce replay detected"@ && final(self)@ == old(self)@)
                &&& k >= 0 && nonce > old(self)@[k].nonce_counter ==> ({
                    let updated = PqRpcSession { nonce_counter: nonce, ..old(self)@[k] };
                    &&& final(self)@ == old(self)@.update(k, updated)
                    &&& r matches Ok(s) && s.session_id@ == updated.session_id@ && s.session_key == updated.session_key
                        && s.nonce_counter == nonce
                })
            }),
    {
        let ghost s = self@;
        match self.find(session_id) {
            None => Err(string_of("unknown session ID")),
            Some(k) => {
                if nonce <= self.sessions[k].nonce_counter {
                    return Err(string_of("nonce replay detected"));
                }
                self.sessions[k].nonce_counter = nonce;
                proof {
                    let n = self@;
                    assert(n =~= s.update(k as int, PqRpcSession { nonce_counter: nonce, ..s[k as int] }));
                    assert forall|i: int, j: int| 0 <= i < j < n.len() implies (#[trigger] n[i]).session_id@ != (
                    #[trigger] n[j]).session_id@ by {
                        assert(s[i].session_id@ != s[j].session_id@);
                    }
                }
                let c = &self.sessions[k];
                Ok(PqRpcSession { session_id: c.session_id.clone(), session_key: c.session_key, nonce_counter: nonce })
            },
        }
    }
}

/// The text a byte string encodes in UTF-8 (`None` when it is not
/// valid UTF-8).
pub open spec fn utf8_text(bytes: Seq<u8>) -> Option<Seq<char>> {
    if vstd::utf8::valid_utf8(bytes) {
        Some(vstd::utf8::decode_utf8(bytes))
    } else {
        None
    }
}

/// Calls `String::from_utf8`, which accepts exactly the valid UTF-8 byte
/// strings and gives the characters they encode.
#[verifier::external_body]
fn utf8_decode(bytes: Vec<u8>) -> (r: Option<String>)
    ensures
        match utf8_text(bytes@) {
            Some(t) => r matches Some(s) && s@ == t,
            None => r is None,
        },
{
    String::from_utf8(bytes).ok()
}

/// Outcome of decrypting a request whose nonce was accepted: the payload
/// must be hexadecimal and decrypt to UTF-8 text.
pub open spec fn decrypted_text(payload: Seq<char>, key: Seq<u8>, nonce: u64) -> Result<Seq<char>, Seq<char>> {
    match hex_decode_spec(payload) {
        None => Err("invalid encrypted payload hex"@),
        Some(ct) => match utf8_text(keystream_xor(ct, key + nonce12(nonce))) {
            None => Err("decrypted payload is not UTF-8"@),
            Some(t) => Ok(t),
        },
    }
}

impl PqRpcManager {
    /// Encrypts a JSON-RPC response under a session key: the keystream of the
    /// key and the response nonce, hex-encoded.
    pub fn encrypt_response(&self, session: &PqRpcSession, response_json: &str, nonce: u64) -> (r: EncryptedRpcResponse)
        ensures
            r.nonce == nonce,
            r.encrypted_payload@ == hex_of(keystream_xor(response_json.spec_bytes(), session.session_key@ + nonce12(nonce))),
    {
        let n = nonce_bytes(nonce);
        let encrypted = xor_decrypt(response_json.as_bytes(), &session.session_key, &n);
        EncryptedRpcResponse { encrypted_payload: hex_encode(encrypted.as_slice()), nonce }
    }

    /// Decrypts a request: the session must exist and the nonce must be
    /// fresh (it is then recorded, even when decryption fails); the
    /// payload is hex-decoded, combined with the keystream of the session
    /// key and the nonce, and read as UTF-8.
    pub fn decrypt_request(&mut self, req: &EncryptedRpcRequest) -> (r: Result<(String, PqRpcSession), String>)
        requires
            sessions_unique(old(self)@),
        ensures
            sessions_unique(final(self)@),
            ({
                let k = session_index(old(self)@, req.session_id@);
                &&& k < 0 ==> (r matches Err(e) && e@ == "unknown session ID"@ && final(self)@ == old(self)@)
                &&& k >= 0 && req.nonce <= old(self)@[k].nonce_counter ==> (r matches Err(e) && e@
                    == "nonce replay detected"@ && final(self)@ == old(self)@)
                &&& k >= 0 && req.nonce > old(self)@[k].nonce_counter ==> ({
                    let updated = PqRpcSession { nonce_counter: req.nonce, ..old(self)@[k] };
                    &&& final(self)@ == old(self)@.update(k, updated)
                    &&& match decrypted_text(req.encrypted_payload@, updated.session_key@, req.nonce) {
                        Err(msg) => r matches Err(e) && e@ == msg,
                        Ok(t) => r matches Ok((text, s)) && text@ == t && s.session_id@ == updated.session_id@
                            && s.session_key == updated.session_key && s.nonce_counter == req.nonce,
                    }
                })
            }),
    {
        let session = match self.accept_nonce(req.session_id.as_str(), req.nonce) {
            Ok(s) => s,
            Err(e) => return Err(e),
        };
        let encrypted = match hex_decode(req.encrypted_payload.as_str()) {
            Ok(b) => b,
            Err(_) => return Err(string_of("invalid encrypted payload hex")),
        };
        let n = nonce_bytes(req.nonce);
        let decrypted = xor_decrypt(encrypted.as_slice(), &session.session_key, &n);
        match utf8_decode(decrypted) {
            Some(text) => Ok((text, session)),
            None => Err(string_of("decrypted payload is not UTF-8")),
        }
    }
}

} // verus!
