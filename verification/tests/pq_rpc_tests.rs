use seal_node::pq_rpc::{
    nonce_bytes, xor_decrypt, EncryptedRpcRequest, PqRpcManager, PqRpcSession,
};

// The session key comes from the KEM handshake, which runs outside the
// library; these tests install a session with a fixed key.

fn session(id: &str) -> PqRpcSession {
    PqRpcSession { session_id: id.to_string(), session_key: [9u8; 32], nonce_counter: 0 }
}

#[test]
fn test_pq_rpc_manager_creation() {
    let sessions = PqRpcManager::new();
    assert_eq!(sessions.session_count(), 0);
}

#[test]
fn pq_rpc_test_encrypt_decrypt_roundtrip() {
    let mgr = PqRpcManager::new();
    let session = session("s1");
    let plaintext = r#"{"jsonrpc":"2.0","method":"seal_getHeight","params":{},"id":1}"#;
    let encrypted_resp = mgr.encrypt_response(&session, plaintext, 1);
    assert!(!encrypted_resp.encrypted_payload.is_empty());
    let encrypted_bytes = hex::decode(&encrypted_resp.encrypted_payload).unwrap();
    let mut nonce12 = [0u8; 12];
    nonce12[..8].copy_from_slice(&1u64.to_le_bytes());
    let decrypted = xor_decrypt(&encrypted_bytes, &session.session_key, &nonce12);
    assert_eq!(String::from_utf8(decrypted).unwrap(), plaintext);
}

#[test]
fn test_nonce_replay_rejected() {
    let mut sessions = PqRpcManager::new();
    sessions.insert(session("s1"));
    let encrypted = sessions.encrypt_response(&session("s1"), "test", 1);
    let req = EncryptedRpcRequest {
        session_id: "s1".to_string(),
        encrypted_payload: encrypted.encrypted_payload.clone(),
        nonce: 1,
    };
    // First request succeeds.
    let (text, s) = sessions.decrypt_request(&req).unwrap();
    assert_eq!(text, "test");
    assert_eq!(s.nonce_counter, 1);
    // Replay with the same nonce fails.
    let replay = EncryptedRpcRequest {
        session_id: "s1".to_string(),
        encrypted_payload: encrypted.encrypted_payload,
        nonce: 1,
    };
    assert_eq!(sessions.decrypt_request(&replay).unwrap_err(), "nonce replay detected");
}

#[test]
fn nonce_is_little_endian_in_twelve_bytes() {
    assert_eq!(nonce_bytes(0x0102), [2, 1, 0, 0, 0, 0, 0, 0, 0, 0, 0, 0]);
    assert_eq!(nonce_bytes(u64::MAX), [255, 255, 255, 255, 255, 255, 255, 255, 0, 0, 0, 0]);
}

#[test]
fn xor_twice_gives_the_data_back() {
    let key = [3u8; 32];
    let n = nonce_bytes(7);
    let data: Vec<u8> = (0..100u8).collect();
    let once = xor_decrypt(&data, &key, &n);
    assert_ne!(once, data);
    assert_eq!(xor_decrypt(&once, &key, &n), data);
    // Another nonce gives another keystream.
    assert_ne!(xor_decrypt(&data, &key, &nonce_bytes(8)), once);
}

#[test]
fn decrypt_errors_in_order() {
    let mut sessions = PqRpcManager::new();
    let req = |id: &str, payload: &str, nonce: u64| EncryptedRpcRequest {
        session_id: id.to_string(),
        encrypted_payload: payload.to_string(),
        nonce,
    };
    assert_eq!(sessions.decrypt_request(&req("nope", "00", 1)).unwrap_err(), "unknown session ID");
    sessions.insert(session("s1"));
    assert_eq!(sessions.session_count(), 1);
    // A bad payload still consumes the nonce.
    assert_eq!(sessions.decrypt_request(&req("s1", "zz", 5)).unwrap_err(), "invalid encrypted payload hex");
    assert_eq!(sessions.decrypt_request(&req("s1", "00", 5)).unwrap_err(), "nonce replay detected");
    // A payload whose plaintext is the lone byte 0x80, which is not UTF-8.
    let key_byte = xor_decrypt(&[0u8], &[9u8; 32], &nonce_bytes(6))[0];
    let payload = hex::encode([key_byte ^ 0x80]);
    assert_eq!(sessions.decrypt_request(&req("s1", &payload, 6)).unwrap_err(), "decrypted payload is not UTF-8");
}

#[test]
fn accept_nonce_is_strictly_increasing() {
    let mut sessions = PqRpcManager::new();
    sessions.insert(session("s1"));
    assert_eq!(sessions.accept_nonce("s1", 3).unwrap().nonce_counter, 3);
    assert!(sessions.accept_nonce("s1", 3).is_err());
    assert!(sessions.accept_nonce("s1", 2).is_err());
    assert_eq!(sessions.accept_nonce("s1", 4).unwrap().nonce_counter, 4);
}
