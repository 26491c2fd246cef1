//! Private table storage with encryption at rest.
//!
//! Three types of private tables:
//! - **App-private**: schema enforced on-chain, data on the user's node, encrypted
//! - **User-private**: user-defined schema, fully opaque to the network
//! - **Regulated-private**: schema enforced, access via ZK proofs only
//!
//! Private data is encrypted with AES-256-GCM (authenticated encryption)
//! under a fresh random 96-bit nonce per write. Keys are wrapped in
//! [`EncryptionKey`], which zeroes the material on drop.

use vstd::prelude::*;
use vstd::string::StringSliceAdditionalSpecFns;
use aes_gcm::aead::{Aead, AeadCore, KeyInit};
use crate::hash::{bytes_eq, copy_bytes, sha3_256, sha3_256_spec, Hash256};
use crate::text::{lemma_seq_lt_order, seq_lt, str_eq, str_lt, string_of};

verus! {

/// Private table type.
#[derive(Clone, Copy, Debug, PartialEq, Eq, Structural)]
pub enum PrivateTableType {
    /// App-defined schema, user-owned data, app can aggregate via MPC.
    AppPrivate,
    /// User-defined schema, fully opaque.
    UserPrivate,
    /// App-defined schema, access via ZK proofs only; never reveals raw data.
    RegulatedPrivate,
}

/// The table type a request names: "user" and "regulated" select those
/// types; anything else, or no name, selects an app-private table.
pub fn table_type_named(name: Option<&str>) -> (t: PrivateTableType)
    ensures
        t == match name {
            Some(n) => if n@ == "user"@ {
                PrivateTableType::UserPrivate
            } else if n@ == "regulated"@ {
                PrivateTableType::RegulatedPrivate
            } else {
                PrivateTableType::AppPrivate
            },
            None => PrivateTableType::AppPrivate,
        },
{
    match name {
        Some(n) => if str_eq(n, "user") {
            PrivateTableType::UserPrivate
        } else if str_eq(n, "regulated") {
            PrivateTableType::RegulatedPrivate
        } else {
            PrivateTableType::AppPrivate
        },
        None => PrivateTableType::AppPrivate,
    }
}

/// Metadata for a private table (stored on-chain).
#[derive(Debug)]
pub struct PrivateTableMeta {
    pub name: String,
    /// Owner's seal address.
    pub owner: String,
    pub table_type: PrivateTableType,
    /// SHA3 of the CREATE TABLE statement.
    pub schema_hash: Hash256,
    /// SHA3 of `nonce || ciphertext` of the stored data.
    pub data_commitment: Hash256,
    pub row_count: u64,
    /// How many of the owner's nodes store copies.
    pub replication: u32,
}

/// Encrypted table data (stored on the owner's nodes only). The 16-byte
/// authentication tag follows the ciphertext body.
#[derive(Debug)]
pub struct EncryptedTable {
    pub name: String,
    /// Ciphertext followed by the authentication tag.
    pub ciphertext: Vec<u8>,
    /// The 96-bit nonce used for encryption.
    pub nonce: [u8; 12],
    /// SHA3 of `nonce || ciphertext`.
    pub commitment: Hash256,
}

// ---------------------------------------------------------------------------
// Keys and the cipher
// ---------------------------------------------------------------------------

/// An AES-256-GCM key that zeroes itself on drop.
#[derive(Clone)]
pub struct EncryptionKey {
    bytes: [u8; 32],
}

impl View for EncryptionKey {
    type V = Seq<u8>;

    closed spec fn view(&self) -> Seq<u8> {
        self.bytes@
    }
}

/// Calls `rand::RngCore::fill_bytes` on the thread-local generator of
/// `rand::thread_rng`: 32 random bytes, of which nothing can be promised.
#[verifier::external_body]
fn random_key_bytes() -> (r: [u8; 32]) {
    let mut bytes = [0u8; 32];
    rand::RngCore::fill_bytes(&mut rand::thread_rng(), &mut bytes);
    bytes
}

/// Calls `zeroize::Zeroize::zeroize` on the bytes, which overwrites every
/// one of them with zero in a way the compiler does not elide.
#[verifier::external_body]
fn zeroize_bytes(bytes: &mut [u8; 32])
    ensures
        final(bytes)@ == Seq::new(32, |i: int| 0u8),
    opens_invariants none
    no_unwind
{
    zeroize::Zeroize::zeroize(bytes);
}

impl EncryptionKey {
    /// Wraps 32 bytes of key material. How the bytes are derived is up to
    /// the caller.
    pub fn from_bytes(bytes: [u8; 32]) -> (k: Self)
        ensures
            k@ == bytes@,
    {
        EncryptionKey { bytes }
    }

    /// A fresh random key from the thread-local generator.
    pub fn random() -> (k: Self)
        ensures
            k@.len() == 32,
    {
        EncryptionKey { bytes: random_key_bytes() }
    }
}

impl Drop for EncryptionKey {
    fn drop(&mut self)
        opens_invariants none
        no_unwind
    {
        zeroize_bytes(&mut self.bytes);
    }
}

/// Largest plaintext AES-GCM accepts, in bytes.
pub const P_MAX: u64 = 68_719_476_736;

/// What AES-256-GCM gives for `plaintext` under `key` and `nonce`, with no
/// associated data: the ciphertext followed by the 16-byte tag.
pub uninterp spec fn aes_gcm_sealed(key: Seq<u8>, nonce: Seq<u8>, plaintext: Seq<u8>) -> Seq<u8>;

/// What AES-256-GCM decryption gives for `ciphertext` (tag included)
/// under `key` and `nonce`, with no associated data: the plaintext, or
/// `None` when the tag does not verify.
pub uninterp spec fn aes_gcm_opened(key: Seq<u8>, nonce: Seq<u8>, ciphertext: Seq<u8>) -> Option<Seq<u8>>;

/// Calls `aes_gcm::aead::Aead::encrypt` of `Aes256Gcm` with no associated
/// data. A plaintext of at most `P_MAX` bytes is encrypted, and what
/// comes out decrypts (under the same key and nonce) to the plaintext; a
/// longer one is refused with `aead::Error`, whose text is "aead::Error".
#[verifier::external_body]
fn aes_gcm_encrypt(key: &[u8; 32], nonce: &[u8; 12], plaintext: &[u8]) -> (r: Result<Vec<u8>, String>)
    ensures
        if plaintext@.len() <= P_MAX {
            &&& r matches Ok(c)
            &&& c@ == aes_gcm_sealed(key@, nonce@, plaintext@)
            &&& aes_gcm_opened(key@, nonce@, c@) == Some(plaintext@)
        } else {
            r matches Err(e) && e@ == "aead::Error"@
        },
{
    let cipher = aes_gcm::Aes256Gcm::new(aes_gcm::Key::<aes_gcm::Aes256Gcm>::from_slice(key));
    match cipher.encrypt(aes_gcm::Nonce::from_slice(nonce), plaintext) {
        Ok(c) => Ok(c),
        Err(e) => Err(e.to_string()),
    }
}

/// Calls `aes_gcm::aead::Aead::decrypt` of `Aes256Gcm` with no associated
/// data: the plaintext when the tag verifies, else `aead::Error`, whose
/// text is "aead::Error".
#[verifier::external_body]
fn aes_gcm_decrypt(key: &[u8; 32], nonce: &[u8; 12], ciphertext: &[u8]) -> (r: Result<Vec<u8>, String>)
    ensures
        match aes_gcm_opened(key@, nonce@, ciphertext@) {
            Some(p) => r matches Ok(v) && v@ == p,
            None => r matches Err(e) && e@ == "aead::Error"@,
        },
{
    let cipher = aes_gcm::Aes256Gcm::new(aes_gcm::Key::<aes_gcm::Aes256Gcm>::from_slice(key));
    match cipher.decrypt(aes_gcm::Nonce::from_slice(nonce), ciphertext) {
        Ok(p) => Ok(p),
        Err(e) => Err(e.to_string()),
    }
}

/// Calls `aes_gcm::aead::AeadCore::generate_nonce` of `Aes256Gcm` with the
/// OS generator `OsRng`: 12 random bytes, of which nothing can be
/// promised.
#[verifier::external_body]
fn fresh_nonce() -> (n: [u8; 12]) {
    let g = aes_gcm::Aes256Gcm::generate_nonce(&mut aes_gcm::aead::OsRng);
    let mut out = [0u8; 12];
    out.copy_from_slice(g.as_slice());
    out
}

/// The commitment to stored data: SHA3-256 of the nonce followed by the
/// ciphertext.
pub open spec fn commitment_of(nonce: Seq<u8>, ciphertext: Seq<u8>) -> Seq<u8> {
    sha3_256_spec(nonce + ciphertext)
}

/// Computes `commitment_of`.
pub fn commit(nonce: &[u8; 12], ciphertext: &[u8]) -> (h: Hash256)
    ensures
        h.0@ == commitment_of(nonce@, ciphertext@),
{
    let mut buf: Vec<u8> = Vec::new();
    let mut i: usize = 0;
    while i < 12
        invariant
            i <= 12,
            buf@ == nonce@.take(i as int),
        decreases 12 - i,
    {
        buf.push(nonce[i]);
        assert(nonce@.take(i + 1) =~= nonce@.take(i as int).push(nonce@[i as int]));
        i = i + 1;
    }
    assert(nonce@.take(12) =~= nonce@);
    let mut j: usize = 0;
    while j < ciphertext.len()
        invariant
            j <= ciphertext@.len(),
            buf@ == nonce@ + ciphertext@.take(j as int),
        decreases ciphertext@.len() - j,
    {
        buf.push(ciphertext[j]);
        assert(ciphertext@.take(j + 1) =~= ciphertext@.take(j as int).push(ciphertext@[j as int]));
        j = j + 1;
    }
    assert(ciphertext@.take(ciphertext@.len() as int) =~= ciphertext@);
    sha3_256(buf.as_slice())
}

// ---------------------------------------------------------------------------
// The manager
// ---------------------------------------------------------------------------

/// Index of the first metadata entry named `name` (-1 when none is).
pub open spec fn meta_index(m: Seq<PrivateTableMeta>, name: Seq<char>) -> int {
    if exists|k: int| 0 <= k < m.len() && (#[trigger] m[k]).name@ == name {
        choose|k: int|
            0 <= k < m.len() && (#[trigger] m[k]).name@ == name && forall|j: int|
                0 <= j < k ==> (#[trigger] m[j]).name@ != name
    } else {
        -1
    }
}

/// Index of the first encrypted entry named `name` (-1 when none is).
pub open spec fn data_index(e: Seq<EncryptedTable>, name: Seq<char>) -> int {
    if exists|k: int| 0 <= k < e.len() && (#[trigger] e[k]).name@ == name {
        choose|k: int|
            0 <= k < e.len() && (#[trigger] e[k]).name@ == name && forall|j: int|
                0 <= j < k ==> (#[trigger] e[j]).name@ != name
    } else {
        -1
    }
}

proof fn lemma_meta_index(m: Seq<PrivateTableMeta>, name: Seq<char>, i: int)
    requires
        0 <= i <= m.len(),
        forall|j: int| 0 <= j < i ==> (#[trigger] m[j]).name@ != name,
        i < m.len() ==> m[i].name@ == name,
    ensures
        meta_index(m, name) == if i < m.len() { i } else { -1 },
{
    if i < m.len() {
        assert(0 <= i < m.len() && m[i].name@ == name);
        let k = meta_index(m, name);
        if k < i {
            assert(m[k].name@ == name);
        } else if k > i {
            assert(m[i].name@ != name);
        }
    } else {
        if exists|k: int| 0 <= k < m.len() && (#[trigger] m[k]).name@ == name {
            let k = choose|k: int| 0 <= k < m.len() && (#[trigger] m[k]).name@ == name;
            assert(m[k].name@ != name);
        }
    }
}

proof fn lemma_data_index(e: Seq<EncryptedTable>, name: Seq<char>, i: int)
    requires
        0 <= i <= e.len(),
        forall|j: int| 0 <= j < i ==> (#[trigger] e[j]).name@ != name,
        i < e.len() ==> e[i].name@ == name,
    ensures
        data_index(e, name) == if i < e.len() { i } else { -1 },
{
    if i < e.len() {
        assert(0 <= i < e.len() && e[i].name@ == name);
        let k = data_index(e, name);
        if k < i {
            assert(e[k].name@ == name);
        } else if k > i {
            assert(e[i].name@ != name);
        }
    } else {
        if exists|k: int| 0 <= k < e.len() && (#[trigger] e[k]).name@ == name {
            let k = choose|k: int| 0 <= k < e.len() && (#[trigger] e[k]).name@ == name;
            assert(e[k].name@ != name);
        }
    }
}

/// What a read of table `name` by `caller` with `key` gives: refused
/// when the table is not registered, when the caller is not its owner,
/// or when its data is not on this node; otherwise the decryption of the
/// stored data, refused when its tag does not verify.
pub open spec fn decrypt_outcome(
    m: Seq<PrivateTableMeta>,
    e: Seq<EncryptedTable>,
    name: Seq<char>,
    caller: Seq<char>,
    key: Seq<u8>,
) -> Result<Seq<u8>, Seq<char>> {
    let mi = meta_index(m, name);
    let di = data_index(e, name);
    if mi < 0 {
        Err("private table '"@ + name + "' not found"@)
    } else if m[mi].owner@ != caller {
        Err("access denied: not the table owner"@)
    } else if di < 0 {
        Err("encrypted data not on this node"@)
    } else {
        match aes_gcm_opened(key, e[di].nonce@, e[di].ciphertext@) {
            Some(p) => Ok(p),
            None => Err("AES-256-GCM decrypt failed: "@ + "aead::Error"@),
        }
    }
}

/// Only the owner reads a table's data: any other caller is refused,
/// whatever the key and whatever is stored.
pub proof fn lemma_only_owner_reads(
    m: Seq<PrivateTableMeta>,
    e: Seq<EncryptedTable>,
    name: Seq<char>,
    caller: Seq<char>,
    key: Seq<u8>,
)
    requires
        meta_index(m, name) >= 0,
        m[meta_index(m, name)].owner@ != caller,
    ensures
        decrypt_outcome(m, e, name, caller, key) == Err::<Seq<u8>, Seq<char>>("access denied: not the table owner"@),
{
}

/// `out` holds the metadata entries of `owner` in `m`, each as often as
/// it appears there, ordered by name (entries of equal name keep their
/// order).
pub open spec fn owner_tables(out: Seq<PrivateTableMeta>, m: Seq<PrivateTableMeta>, owner: Seq<char>) -> bool {
    exists|idx: Seq<int>|
        {
            &&& idx.len() == out.len()
            &&& forall|k: int| 0 <= k < idx.len() ==> 0 <= #[trigger] idx[k] < m.len() && out[k] == m[idx[k]]
                && m[idx[k]].owner@ == owner
            &&& forall|a: int, b: int| 0 <= a < b < idx.len() ==> #[trigger] idx[a] != #[trigger] idx[b]
            &&& forall|j: int| 0 <= j < m.len() && (#[trigger] m[j]).owner@ == owner ==> exists|k: int|
                0 <= k < idx.len() && idx[k] == j
            &&& forall|a: int, b: int| 0 <= a < b < out.len() ==> !seq_lt((#[trigger] out[b]).name@, (#[trigger] out[a]).name@)
        }
}

/// Manages the private tables of a node.
pub struct PrivateTableManager {
    /// On-chain metadata (visible to all), in registration order.
    pub metadata: Vec<PrivateTableMeta>,
    /// Encrypted data (only on the owner's nodes).
    pub encrypted_data: Vec<EncryptedTable>,
}

impl PrivateTableManager {
    /// No table registered, no data stored.
    pub fn new() -> (m: Self)
        ensures
            m.metadata@.len() == 0,
            m.encrypted_data@.len() == 0,
    {
        PrivateTableManager { metadata: Vec::new(), encrypted_data: Vec::new() }
    }

    fn find_meta(&self, name: &str) -> (r: Option<usize>)
        ensures
            match r {
                Some(k) => k < self.metadata@.len() && meta_index(self.metadata@, name@) == k
                    && self.metadata@[k as int].name@ == name@ && forall|j: int|
                    0 <= j < k ==> (#[trigger] self.metadata@[j]).name@ != name@,
                None => meta_index(self.metadata@, name@) == -1 && forall|j: int|
                    0 <= j < self.metadata@.len() ==> (#[trigger] self.metadata@[j]).name@ != name@,
            },
    {
        let mut i: usize = 0;
        while i < self.metadata.len()
            invariant
                i <= self.metadata@.len(),
                forall|j: int| 0 <= j < i ==> (#[trigger] self.metadata@[j]).name@ != name@,
            decreases self.metadata@.len() - i,
        {
            if str_eq(self.metadata[i].name.as_str(), name) {
                proof { lemma_meta_index(self.metadata@, name@, i as int); }
                return Some(i);
            }
            i = i + 1;
        }
        proof { lemma_meta_index(self.metadata@, name@, i as int); }
        None
    }

    fn find_data(&self, name: &str) -> (r: Option<usize>)
        ensures
            match r {
                Some(k) => k < self.encrypted_data@.len() && data_index(self.encrypted_data@, name@) == k
                    && self.encrypted_data@[k as int].name@ == name@ && forall|j: int|
                    0 <= j < k ==> (#[trigger] self.encrypted_data@[j]).name@ != name@,
                None => data_index(self.encrypted_data@, name@) == -1 && forall|j: int|
                    0 <= j < self.encrypted_data@.len() ==> (#[trigger] self.encrypted_data@[j]).name@ != name@,
            },
    {
        let mut i: usize = 0;
        while i < self.encrypted_data.len()
            invariant
                i <= self.encrypted_data@.len(),
                forall|j: int| 0 <= j < i ==> (#[trigger] self.encrypted_data@[j]).name@ != name@,
            decreases self.encrypted_data@.len() - i,
        {
            if str_eq(self.encrypted_data[i].name.as_str(), name) {
                proof { lemma_data_index(self.encrypted_data@, name@, i as int); }
                return Some(i);
            }
            i = i + 1;
        }
        proof { lemma_data_index(self.encrypted_data@, name@, i as int); }
        None
    }

    /// Registers a private table: its schema is committed by hash, it
    /// holds no data yet, and it replaces any table of the same name.
    /// Gives the new metadata.
    pub fn register(&mut self, name: String, owner: String, table_type: PrivateTableType, schema_sql: &str) -> (r:
        PrivateTableMeta)
        ensures
            r.name@ == name@,
            r.owner@ == owner@,
            r.table_type == table_type,
            r.schema_hash.0@ == sha3_256_spec(schema_sql.spec_bytes()),
            r.data_commitment.0@ == Seq::new(32, |i: int| 0u8),
            r.row_count == 0,
            r.replication == 1,
            final(self).encrypted_data@ == old(self).encrypted_data@,
            ({
                let k = meta_index(old(self).metadata@, name@);
                let m = final(self).metadata@;
                &&& k >= 0 ==> m.len() == old(self).metadata@.len() && forall|j: int|
                    0 <= j < m.len() && j != k ==> m[j] == old(self).metadata@[j]
                &&& k < 0 ==> m.len() == old(self).metadata@.len() + 1 && forall|j: int|
                    0 <= j < old(self).metadata@.len() ==> m[j] == old(self).metadata@[j]
                &&& meta_index(m, name@) == if k >= 0 { k } else { old(self).metadata@.len() as int }
                &&& m[meta_index(m, name@)].name@ == r.name@
                &&& m[meta_index(m, name@)].owner@ == r.owner@
                &&& m[meta_index(m, name@)].table_type == r.table_type
                &&& m[meta_index(m, name@)].schema_hash == r.schema_hash
                &&& m[meta_index(m, name@)].data_commitment == r.data_commitment
                &&& m[meta_index(m, name@)].row_count == 0
                &&& m[meta_index(m, name@)].replication == 1
            }),
    {
        let schema_hash = sha3_256(schema_sql.as_bytes());
        let zero = Hash256([0u8; 32]);
        assert(zero.0@ =~= Seq::new(32, |i: int| 0u8));
        let ghost old_m = self.metadata@;
        let stored = PrivateTableMeta {
            name: name.clone(),
            owner: owner.clone(),
            table_type,
            schema_hash,
            data_commitment: zero,
            row_count: 0,
            replication: 1,
        };
        match self.find_meta(name.as_str()) {
            Some(k) => {
                self.metadata.set(k, stored);
                proof {
                    let m = self.metadata@;
                    assert forall|j: int| 0 <= j < k implies (#[trigger] m[j]).name@ != name@ by {
                        assert(m[j] == old_m[j]);
                    }
                    lemma_meta_index(m, name@, k as int);
                }
            },
            None => {
                self.metadata.push(stored);
                proof {
                    let m = self.metadata@;
                    assert forall|j: int| 0 <= j < old_m.len() implies (#[trigger] m[j]).name@ != name@ by {
                        assert(m[j] == old_m[j]);
                    }
                    lemma_meta_index(m, name@, old_m.len() as int);
                }
            },
        }
        PrivateTableMeta { name, owner, table_type, schema_hash, data_commitment: zero, row_count: 0, replication: 1 }
    }

    /// Encrypts `plaintext` under `key` with a fresh random nonce and
    /// stores it as the data of table `name` (replacing what was stored),
    /// recording its commitment in the table's metadata. Refused when the
    /// table is not registered, or when the plaintext is too long for
    /// AES-GCM. Gives the commitment. The stored data then decrypts, for
    /// the owner and with the same key, to `plaintext`.
    pub fn store_encrypted(&mut self, name: &str, plaintext: &[u8], key: &EncryptionKey) -> (r: Result<
        Hash256,
        String,
    >)
        ensures
            meta_index(old(self).metadata@, name@) < 0 ==> (r matches Err(e) && e@ == "private table '"@ + name@
                + "' not registered"@ && *final(self) == *old(self)),
            meta_index(old(self).metadata@, name@) >= 0 && plaintext@.len() > P_MAX ==> (r matches Err(e) && e@
                == "AES-256-GCM encrypt failed: "@ + "aead::Error"@ && *final(self) == *old(self)),
            meta_index(old(self).metadata@, name@) >= 0 && plaintext@.len() <= P_MAX ==> ({
                let mi = meta_index(old(self).metadata@, name@);
                let di = data_index(old(self).encrypted_data@, name@);
                let k = if di >= 0 { di } else { old(self).encrypted_data@.len() as int };
                let d = final(self).encrypted_data@;
                let m = final(self).metadata@;
                &&& r matches Ok(h) && h.0@ == commitment_of(d[k].nonce@, d[k].ciphertext@)
                &&& d.len() == if di >= 0 { old(self).encrypted_data@.len() } else {
                    old(self).encrypted_data@.len() + 1
                }
                &&& forall|j: int| 0 <= j < old(self).encrypted_data@.len() && j != k ==> d[j]
                    == old(self).encrypted_data@[j]
                &&& data_index(d, name@) == k
                &&& d[k].name@ == name@
                &&& d[k].ciphertext@ == aes_gcm_sealed(key@, d[k].nonce@, plaintext@)
                &&& d[k].commitment.0@ == commitment_of(d[k].nonce@, d[k].ciphertext@)
                &&& m.len() == old(self).metadata@.len()
                &&& forall|j: int| 0 <= j < m.len() && j != mi ==> m[j] == old(self).metadata@[j]
                &&& m[mi] == (PrivateTableMeta { data_commitment: d[k].commitment, ..old(self).metadata@[mi] })
                &&& decrypt_outcome(m, d, name@, m[mi].owner@, key@) == Ok::<Seq<u8>, Seq<char>>(plaintext@)
            }),
    {
        let mi = match self.find_meta(name) {
            None => {
                let mut e = string_of("private table '");
                e.append(name);
                e.append("' not registered");
                return Err(e);
            },
            Some(k) => k,
        };
        let nonce = fresh_nonce();
        let ciphertext = match aes_gcm_encrypt(&key.bytes, &nonce, plaintext) {
            Ok(c) => c,
            Err(t) => {
                let mut e = string_of("AES-256-GCM encrypt failed: ");
                e.append(t.as_str());
                return Err(e);
            },
        };
        let commitment = commit(&nonce, ciphertext.as_slice());
        let ghost old_d = self.encrypted_data@;
        let ghost old_m = self.metadata@;
        let entry = EncryptedTable { name: string_of(name), ciphertext, nonce, commitment };
        let k = match self.find_data(name) {
            Some(k) => {
                self.encrypted_data.set(k, entry);
                proof {
                    let d = self.encrypted_data@;
                    assert forall|j: int| 0 <= j < k implies (#[trigger] d[j]).name@ != name@ by {
                        assert(d[j] == old_d[j]);
                    }
                    lemma_data_index(d, name@, k as int);
                }
                k
            },
            None => {
                self.encrypted_data.push(entry);
                proof {
                    let d = self.encrypted_data@;
                    assert forall|j: int| 0 <= j < old_d.len() implies (#[trigger] d[j]).name@ != name@ by {
                        assert(d[j] == old_d[j]);
                    }
                    lemma_data_index(d, name@, old_d.len() as int);
                }
                self.encrypted_data.len() - 1
            },
        };
        let old_meta = &self.metadata[mi];
        let updated = PrivateTableMeta {
            name: old_meta.name.clone(),
            owner: old_meta.owner.clone(),
            table_type: old_meta.table_type,
            schema_hash: old_meta.schema_hash,
            data_commitment: commitment,
            row_count: old_meta.row_count,
            replication: old_meta.replication,
        };
        self.metadata.set(mi, updated);
        proof {
            let m = self.metadata@;
            assert forall|j: int| 0 <= j < mi implies (#[trigger] m[j]).name@ != name@ by {
                assert(m[j] == old_m[j]);
            }
            lemma_meta_index(m, name@, mi as int);
        }
        Ok(commitment)
    }

    /// Decrypts the data of table `name` for `caller` (see
    /// `decrypt_outcome`): only the owner may read it, and a wrong key or
    /// altered data fails the authentication tag.
    pub fn decrypt(&self, name: &str, caller: &str, key: &EncryptionKey) -> (r: Result<Vec<u8>, String>)
        ensures
            match decrypt_outcome(self.metadata@, self.encrypted_data@, name@, caller@, key@) {
                Ok(p) => r matches Ok(v) && v@ == p,
                Err(t) => r matches Err(e) && e@ == t,
            },
    {
        let mi = match self.find_meta(name) {
            None => {
                let mut e = string_of("private table '");
                e.append(name);
                e.append("' not found");
                return Err(e);
            },
            Some(k) => k,
        };
        if !str_eq(self.metadata[mi].owner.as_str(), caller) {
            return Err(string_of("access denied: not the table owner"));
        }
        let di = match self.find_data(name) {
            None => return Err(string_of("encrypted data not on this node")),
            Some(k) => k,
        };
        let stored = &self.encrypted_data[di];
        match aes_gcm_decrypt(&key.bytes, &stored.nonce, stored.ciphertext.as_slice()) {
            Ok(p) => Ok(p),
            Err(t) => {
                let mut e = string_of("AES-256-GCM decrypt failed: ");
                e.append(t.as_str());
                Err(e)
            },
        }
    }

    /// The metadata of table `name` (public: anyone can see it).
    pub fn get_meta(&self, name: &str) -> (r: Option<&PrivateTableMeta>)
        ensures
            meta_index(self.metadata@, name@) < 0 ==> r is None,
            meta_index(self.metadata@, name@) >= 0 ==> r == Some(&self.metadata@[meta_index(self.metadata@, name@)]),
    {
        match self.find_meta(name) {
            Some(k) => Some(&self.metadata[k]),
            None => None,
        }
    }

    /// Whether a table of that name is registered as private.
    pub fn is_private(&self, name: &str) -> (r: bool)
        ensures
            r == (meta_index(self.metadata@, name@) >= 0),
    {
        self.find_meta(name).is_some()
    }

    /// The names of the registered tables, in registration order.
    pub fn table_names(&self) -> (r: Vec<&str>)
        ensures
            r@.len() == self.metadata@.len(),
            forall|k: int| 0 <= k < r@.len() ==> (#[trigger] r@[k])@ == self.metadata@[k].name@,
    {
        let mut out: Vec<&str> = Vec::new();
        let mut i: usize = 0;
        while i < self.metadata.len()
            invariant
                i <= self.metadata@.len(),
                out@.len() == i,
                forall|k: int| 0 <= k < i ==> (#[trigger] out@[k])@ == self.metadata@[k].name@,
            decreases self.metadata@.len() - i,
        {
            out.push(self.metadata[i].name.as_str());
            i = i + 1;
        }
        out
    }

    /// The tables owned by `owner`, ordered by name.
    pub fn tables_by_owner(&self, owner: &str) -> (out: Vec<&PrivateTableMeta>)
        ensures
            owner_tables(out@.map_values(|r: &PrivateTableMeta| *r), self.metadata@, owner@),
    {
        let ghost m = self.metadata@;
        let mut idx: Vec<usize> = Vec::new();
        let mut i: usize = 0;
        while i < self.metadata.len()
            invariant
                m == self.metadata@,
                i <= m.len(),
                forall|k: int| 0 <= k < idx@.len() ==> (#[trigger] idx@[k]) < i && m[idx@[k] as int].owner@ == owner@,
                forall|a: int, b: int| 0 <= a < b < idx@.len() ==> #[trigger] idx@[a] != #[trigger] idx@[b],
                forall|j: int|
                    0 <= j < i && (#[trigger] m[j]).owner@ == owner@ ==> exists|k: int|
                        0 <= k < idx@.len() && (#[trigger] idx@[k]) as int == j,
                forall|a: int, b: int|
                    0 <= a < b < idx@.len() ==> !seq_lt(
                        (#[trigger] m[idx@[b] as int]).name@,
                        (#[trigger] m[idx@[a] as int]).name@,
                    ),
            decreases m.len() - i,
        {
            let d = &self.metadata[i];
            if str_eq(d.owner.as_str(), owner) {
                let mut p: usize = 0;
                while p < idx.len() && !str_lt(d.name.as_str(), self.metadata[idx[p]].name.as_str())
                    invariant
                        m == self.metadata@,
                        d == m[i as int],
                        i < m.len(),
                        p <= idx@.len(),
                        forall|k: int| 0 <= k < idx@.len() ==> (#[trigger] idx@[k]) < i,
                        forall|q: int| 0 <= q < p ==> !seq_lt(m[i as int].name@, (#[trigger] m[idx@[q] as int]).name@),
                    decreases idx@.len() - p,
                {
                    p = p + 1;
                }
                let ghost old_idx = idx@;
                idx.insert(p, i);
                proof {
                    let ni = idx@;
                    old_idx.insert_ensures(p as int, i);
                    assert forall|k: int| 0 <= k < ni.len() implies (#[trigger] ni[k]) < i + 1 && m[ni[k] as int].owner@
                        == owner@ by {
                        if k < p {
                            assert(ni[k] == old_idx[k]);
                        } else if k > p {
                            assert(ni[k] == old_idx[k - 1]);
                        }
                    }
                    assert forall|a: int, b: int| 0 <= a < b < ni.len() implies #[trigger] ni[a] != #[trigger] ni[b] by {
                        if a == p {
                            assert(ni[b] == old_idx[b - 1]);
                        } else if b == p {
                            assert(ni[a] == old_idx[a]);
                        } else {
                            let a0 = if a < p { a } else { a - 1 };
                            let b0 = if b < p { b } else { b - 1 };
                            assert(ni[a] == old_idx[a0]);
                            assert(ni[b] == old_idx[b0]);
                        }
                    }
                    assert forall|j: int| 0 <= j < i + 1 && (#[trigger] m[j]).owner@ == owner@ implies exists|k: int|
                        0 <= k < ni.len() && (#[trigger] ni[k]) as int == j by {
                        if j == i {
                            assert(ni[p as int] == i);
                        } else {
                            let k = choose|k: int| 0 <= k < old_idx.len() && (#[trigger] old_idx[k]) as int == j;
                            if k < p {
                                assert(ni[k] == old_idx[k]);
                            } else {
                                assert(ni[k + 1] == old_idx[k]);
                            }
                        }
                    }
                    assert forall|a: int, b: int| 0 <= a < b < ni.len() implies !seq_lt(
                        (#[trigger] m[ni[b] as int]).name@,
                        (#[trigger] m[ni[a] as int]).name@,
                    ) by {
                        let x = m[i as int].name@;
                        if b == p {
                            assert(ni[a] == old_idx[a]);
                        } else if a == p {
                            assert(ni[b] == old_idx[b - 1]);
                            let z = m[old_idx[b - 1] as int].name@;
                            let w = m[old_idx[p as int] as int].name@;
                            assert(seq_lt(x, w));
                            if b - 1 > p {
                                assert(!seq_lt(z, w));
                            }
                            lemma_seq_lt_order(z, x, w);
                            lemma_seq_lt_order(x, w, z);
                        } else {
                            let a0 = if a < p { a } else { a - 1 };
                            let b0 = if b < p { b } else { b - 1 };
                            assert(ni[a] == old_idx[a0]);
                            assert(ni[b] == old_idx[b0]);
                        }
                    }
                }
            }
            i = i + 1;
        }
        let mut out: Vec<&PrivateTableMeta> = Vec::new();
        let mut k: usize = 0;
        while k < idx.len()
            invariant
                m == self.metadata@,
                k <= idx@.len(),
                out@.len() == k,
                forall|t: int| 0 <= t < idx@.len() ==> (#[trigger] idx@[t]) < m.len(),
                forall|t: int| 0 <= t < k ==> *out@[t] == m[idx@[t] as int],
            decreases idx@.len() - k,
        {
            out.push(&self.metadata[idx[k]]);
            k = k + 1;
        }
        proof {
            let os = out@.map_values(|r: &PrivateTableMeta| *r);
            let ix = idx@.map_values(|v: usize| v as int);
            assert forall|k: int| 0 <= k < ix.len() implies 0 <= #[trigger] ix[k] < m.len() && os[k] == m[ix[k]]
                && m[ix[k]].owner@ == owner@ by {
                assert(ix[k] == idx@[k] as int);
            }
            assert forall|a: int, b: int| 0 <= a < b < ix.len() implies #[trigger] ix[a] != #[trigger] ix[b] by {
                assert(ix[a] == idx@[a] as int);
                assert(ix[b] == idx@[b] as int);
            }
            assert forall|j: int| 0 <= j < m.len() && (#[trigger] m[j]).owner@ == owner@ implies exists|k: int|
                0 <= k < ix.len() && ix[k] == j by {
                let t = choose|t: int| 0 <= t < idx@.len() && (#[trigger] idx@[t]) as int == j;
                assert(ix[t] == idx@[t] as int);
            }
            assert forall|a: int, b: int| 0 <= a < b < os.len() implies !seq_lt(
                (#[trigger] os[b]).name@,
                (#[trigger] os[a]).name@,
            ) by {
                assert(os[a] == m[idx@[a] as int]);
                assert(os[b] == m[idx@[b] as int]);
            }
            assert(ix.len() == os.len());
        }
        out
    }

    /// Whether the stored data of table `name` matches the commitment in
    /// its metadata; refused when the table or its data is missing.
    pub fn verify_commitment(&self, name: &str) -> (r: Result<bool, String>)
        ensures
            ({
                let mi = meta_index(self.metadata@, name@);
                let di = data_index(self.encrypted_data@, name@);
                &&& mi < 0 ==> (r matches Err(e) && e@ == "table '"@ + name@ + "' not found"@)
                &&& mi >= 0 && di < 0 ==> (r matches Err(e) && e@ == "encrypted data not on this node"@)
                &&& mi >= 0 && di >= 0 ==> r == Ok::<bool, String>(
                    commitment_of(self.encrypted_data@[di].nonce@, self.encrypted_data@[di].ciphertext@)
                        == self.metadata@[mi].data_commitment.0@,
                )
            }),
    {
        let mi = match self.find_meta(name) {
            None => {
                let mut e = string_of("table '");
                e.append(name);
                e.append("' not found");
                return Err(e);
            },
            Some(k) => k,
        };
        let di = match self.find_data(name) {
            None => return Err(string_of("encrypted data not on this node")),
            Some(k) => k,
        };
        let stored = &self.encrypted_data[di];
        let actual = commit(&stored.nonce, stored.ciphertext.as_slice());
        Ok(bytes_eq(actual.0.as_slice(), self.metadata[mi].data_commitment.0.as_slice()))
    }
}

} // verus!
