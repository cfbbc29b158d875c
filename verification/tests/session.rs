use llm_gateway::session::{access_claims, hash_password, new_refresh_token, verify_password};

#[test]
fn password_hash_roundtrip() {
    let h = hash_password("s3cret!");
    assert!(h.starts_with("$argon2id$"));
    assert!(verify_password("s3cret!", &h));
    assert!(!verify_password("wrong", &h));
}

#[test]
fn garbage_hash_never_verifies() {
    assert!(!verify_password("x", "not a phc string"));
    assert!(!verify_password("", ""));
}

#[test]
fn refresh_token_is_hex_and_hash_is_its_sha256() {
    let (token, hash) = new_refresh_token();
    assert_eq!(token.len(), 64);
    assert!(token.chars().all(|c| c.is_ascii_hexdigit() && !c.is_ascii_uppercase()));
    assert_eq!(hash, hex::encode(<sha2::Sha256 as sha2::Digest>::digest(token.as_bytes())));
    let (token2, _) = new_refresh_token();
    assert_ne!(token, token2);
}

#[test]
fn access_claims_fields() {
    let c = access_claims(1, "alice", false, 3, "jti-1".to_string(), 1_700_000_000, 900);
    assert_eq!(c.sub, "1");
    assert_eq!(c.username, "alice");
    assert!(!c.is_admin);
    assert_eq!(c.tv, 3);
    assert_eq!(c.jti, "jti-1");
    assert_eq!(c.iat, 1_700_000_000);
    assert_eq!(c.exp, 1_700_000_900);
    assert_eq!(access_claims(-42, "b", true, 0, String::new(), 0, 0).sub, "-42");
}

fn now_secs() -> i64 {
    std::time::SystemTime::now().duration_since(std::time::UNIX_EPOCH).unwrap().as_secs() as i64
}

#[test]
fn access_token_roundtrip() {
    let secret = [7u8; 32];
    let token = llm_gateway::session::issue_access(&secret, 1, "alice", false, 0, "jti-1".to_string(), now_secs(), 900).unwrap();
    let claims = llm_gateway::session::verify_access(&secret, &token).unwrap();
    assert_eq!(claims.sub, "1");
    assert_eq!(claims.username, "alice");
    assert_eq!(claims.jti, "jti-1");
    assert_eq!(claims.exp - claims.iat, 900);
}

#[test]
fn token_mismatch_secret_fails() {
    let secret = [7u8; 32];
    let token = llm_gateway::session::issue_access(&secret, 1, "alice", false, 0, "j".to_string(), now_secs(), 900).unwrap();
    let wrong = [8u8; 32];
    assert_eq!(
        llm_gateway::session::verify_access(&wrong, &token).err().unwrap(),
        "invalid or expired access token"
    );
}

#[test]
fn expired_or_malformed_token_refused() {
    let secret = [7u8; 32];
    let token = llm_gateway::session::issue_access(&secret, 2, "bob", true, 3, "j".to_string(), now_secs() - 7200, 900).unwrap();
    assert!(llm_gateway::session::verify_access(&secret, &token).is_err());
    assert!(llm_gateway::session::verify_access(&secret, "not.a.token").is_err());
}
