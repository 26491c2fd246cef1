use sha3::Digest;
use seal_node::hash::Hash256;
use seal_node::private_tables::{table_type_named, EncryptionKey, PrivateTableManager, PrivateTableType};

/// SHA3-256, computed with the `sha3` crate directly.
fn sha3_256(data: &[u8]) -> Hash256 {
    let d = sha3::Sha3_256::digest(data);
    let mut out = [0u8; 32];
    out.copy_from_slice(&d);
    Hash256(out)
}

fn alice_key() -> EncryptionKey {
    EncryptionKey::from_bytes([42u8; 32])
}

fn data_mut<'a>(mgr: &'a mut PrivateTableManager, name: &str) -> &'a mut Vec<u8> {
    &mut mgr.encrypted_data.iter_mut().find(|e| e.name == name).unwrap().ciphertext
}

#[test]
fn test_register_private_table() {
    let mut mgr = PrivateTableManager::new();
    let meta = mgr.register(
        "user_prefs".into(),
        "seal1alice".into(),
        PrivateTableType::AppPrivate,
        "CREATE TABLE user_prefs (user_id TEXT, theme TEXT)",
    );
    assert_eq!(meta.name, "user_prefs");
    assert_eq!(meta.owner, "seal1alice");
    assert!(mgr.is_private("user_prefs"));
}

#[test]
fn private_tables_test_encrypt_decrypt_roundtrip() {
    let mut mgr = PrivateTableManager::new();
    mgr.register(
        "secret".into(),
        "seal1alice".into(),
        PrivateTableType::UserPrivate,
        "CREATE TABLE secret (id BIGINT, data TEXT)",
    );
    let key = alice_key();
    let plaintext = b"sensitive data here";
    mgr.store_encrypted("secret", plaintext, &key).unwrap();
    let decrypted = mgr.decrypt("secret", "seal1alice", &key).unwrap();
    assert_eq!(decrypted, plaintext);
}

#[test]
fn test_decrypt_wrong_owner_denied() {
    let mut mgr = PrivateTableManager::new();
    mgr.register("secret".into(), "seal1alice".into(), PrivateTableType::UserPrivate, "CREATE TABLE secret (id BIGINT)");
    let key = alice_key();
    mgr.store_encrypted("secret", b"data", &key).unwrap();
    assert!(mgr.decrypt("secret", "seal1bob", &key).is_err());
}

#[test]
fn test_decrypt_wrong_key_fails() {
    let mut mgr = PrivateTableManager::new();
    mgr.register("t".into(), "o".into(), PrivateTableType::UserPrivate, "");
    let key = alice_key();
    mgr.store_encrypted("t", b"rows", &key).unwrap();
    let wrong_key = EncryptionKey::from_bytes([7u8; 32]);
    let err = mgr.decrypt("t", "o", &wrong_key).unwrap_err();
    assert!(err.contains("decrypt failed"));
}

#[test]
fn test_tampered_ciphertext_rejected_by_auth_tag() {
    let mut mgr = PrivateTableManager::new();
    mgr.register("t".into(), "o".into(), PrivateTableType::UserPrivate, "");
    let key = alice_key();
    mgr.store_encrypted("t", b"rows", &key).unwrap();
    // Flip one byte in the ciphertext: AES-GCM must reject it.
    data_mut(&mut mgr, "t")[0] ^= 0x01;
    assert!(mgr.decrypt("t", "o", &key).is_err());
}

#[test]
fn test_commitment_verification() {
    let mut mgr = PrivateTableManager::new();
    mgr.register("t".into(), "seal1alice".into(), PrivateTableType::AppPrivate, "CREATE TABLE t (id BIGINT)");
    let key = alice_key();
    mgr.store_encrypted("t", b"rows", &key).unwrap();
    assert!(mgr.verify_commitment("t").unwrap());
    // Mutating the stored ciphertext must invalidate the commitment.
    data_mut(&mut mgr, "t")[0] ^= 0xFF;
    assert!(!mgr.verify_commitment("t").unwrap());
}

#[test]
fn test_nonces_are_distinct_per_store() {
    let mut mgr = PrivateTableManager::new();
    mgr.register("a".into(), "o".into(), PrivateTableType::UserPrivate, "");
    mgr.register("b".into(), "o".into(), PrivateTableType::UserPrivate, "");
    let key = EncryptionKey::random();
    mgr.store_encrypted("a", b"same", &key).unwrap();
    mgr.store_encrypted("b", b"same", &key).unwrap();
    let a = mgr.encrypted_data.iter().find(|e| e.name == "a").unwrap();
    let b = mgr.encrypted_data.iter().find(|e| e.name == "b").unwrap();
    assert_ne!(a.nonce, b.nonce, "each seal must use a fresh nonce");
    // Same plaintext + same key + different nonce gives different ciphertexts.
    assert_ne!(a.ciphertext, b.ciphertext);
}

#[test]
fn test_table_types() {
    let mut mgr = PrivateTableManager::new();
    mgr.register("a".into(), "o".into(), PrivateTableType::AppPrivate, "");
    mgr.register("b".into(), "o".into(), PrivateTableType::UserPrivate, "");
    mgr.register("c".into(), "o".into(), PrivateTableType::RegulatedPrivate, "");
    assert_eq!(mgr.get_meta("a").unwrap().table_type, PrivateTableType::AppPrivate);
    assert_eq!(mgr.get_meta("b").unwrap().table_type, PrivateTableType::UserPrivate);
    assert_eq!(mgr.get_meta("c").unwrap().table_type, PrivateTableType::RegulatedPrivate);
}

#[test]
fn errors_for_missing_tables_and_data() {
    let mut mgr = PrivateTableManager::new();
    let key = alice_key();
    assert_eq!(mgr.store_encrypted("nope", b"x", &key).unwrap_err(), "private table 'nope' not registered");
    assert_eq!(mgr.decrypt("nope", "o", &key).unwrap_err(), "private table 'nope' not found");
    assert_eq!(mgr.verify_commitment("nope").unwrap_err(), "table 'nope' not found");
    mgr.register("t".into(), "o".into(), PrivateTableType::UserPrivate, "");
    assert_eq!(mgr.decrypt("t", "o", &key).unwrap_err(), "encrypted data not on this node");
    assert_eq!(mgr.verify_commitment("t").unwrap_err(), "encrypted data not on this node");
    assert_eq!(mgr.decrypt("t", "x", &key).unwrap_err(), "access denied: not the table owner");
    let err = mgr.decrypt("t", "o", &EncryptionKey::from_bytes([1u8; 32]));
    assert!(err.is_err());
}

#[test]
fn schema_hash_commitment_and_replacement() {
    let mut mgr = PrivateTableManager::new();
    let meta = mgr.register("t".into(), "o".into(), PrivateTableType::AppPrivate, "CREATE TABLE t (id BIGINT)");
    assert_eq!(meta.schema_hash, sha3_256(b"CREATE TABLE t (id BIGINT)"));
    assert_eq!(meta.data_commitment.0, [0u8; 32]);
    assert_eq!((meta.row_count, meta.replication), (0, 1));
    let key = alice_key();
    let c = mgr.store_encrypted("t", b"rows", &key).unwrap();
    let stored = mgr.encrypted_data.iter().find(|e| e.name == "t").unwrap();
    let mut buf = stored.nonce.to_vec();
    buf.extend_from_slice(&stored.ciphertext);
    assert_eq!(c, sha3_256(&buf));
    assert_eq!(stored.ciphertext.len(), 4 + 16);
    assert_eq!(mgr.get_meta("t").unwrap().data_commitment, c);
    // A second write replaces the first.
    mgr.store_encrypted("t", b"new rows", &key).unwrap();
    assert_eq!(mgr.encrypted_data.len(), 1);
    assert_eq!(mgr.decrypt("t", "o", &key).unwrap(), b"new rows");
    // Registering again replaces the metadata and clears the commitment.
    mgr.register("t".into(), "p".into(), PrivateTableType::UserPrivate, "");
    assert_eq!(mgr.table_names(), vec!["t"]);
    assert_eq!(mgr.get_meta("t").unwrap().owner, "p");
    assert!(!mgr.verify_commitment("t").unwrap());
}

#[test]
fn tables_by_owner_sorted_by_name() {
    let mut mgr = PrivateTableManager::new();
    mgr.register("zeta".into(), "seal1alice".into(), PrivateTableType::AppPrivate, "");
    mgr.register("alpha".into(), "seal1bob".into(), PrivateTableType::AppPrivate, "");
    mgr.register("beta".into(), "seal1alice".into(), PrivateTableType::UserPrivate, "");
    let names: Vec<&str> = mgr.tables_by_owner("seal1alice").iter().map(|m| m.name.as_str()).collect();
    assert_eq!(names, vec!["beta", "zeta"]);
    assert!(mgr.tables_by_owner("seal1carol").is_empty());
    assert_eq!(mgr.table_names(), vec!["zeta", "alpha", "beta"]);
}

#[test]
fn table_type_from_request() {
    assert_eq!(table_type_named(Some("user")), PrivateTableType::UserPrivate);
    assert_eq!(table_type_named(Some("regulated")), PrivateTableType::RegulatedPrivate);
    assert_eq!(table_type_named(Some("app")), PrivateTableType::AppPrivate);
    assert_eq!(table_type_named(Some("User")), PrivateTableType::AppPrivate);
    assert_eq!(table_type_named(None), PrivateTableType::AppPrivate);
}
