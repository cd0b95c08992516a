use sha2::Digest;
use sure_shot::auth::{
    authorize_device_checked, authorize_response, login_response, nickname_update_response,
    update_nickname, verify_response, AuthGate, LoginOutcome, ServerConfig,
};

fn config() -> ServerConfig {
    ServerConfig::new("alice".to_string(), "hunter2")
}

#[test]
fn password_verifies_against_its_own_hash() {
    let c = config();
    assert!(c.verify_password("hunter2"));
    assert!(!c.verify_password("hunter3"));
    assert!(!c.verify_password(""));
}

#[test]
fn stored_hash_is_the_salted_digest() {
    // Held against an independent computation of the same digest: the
    // stored hash is SHA-256 of password then salt, in lowercase hex.
    let c = config();
    let mut h = sha2::Sha256::new();
    h.update("hunter2".as_bytes());
    h.update(c.salt.as_bytes());
    assert_eq!(c.password_hash, hex::encode(h.finalize()));
    assert_eq!(c.password_hash.len(), 64);
}

#[test]
fn default_config_uses_admin_password() {
    let c = ServerConfig::default();
    assert_eq!(c.nickname, "Unknown");
    assert!(c.verify_password("admin"));
    assert!(c.authorized_devices.is_empty());
}

#[test]
fn login_with_wrong_password_is_401_and_no_token() {
    let mut gate = AuthGate::new();
    let c = config();
    let outcome = gate.login(&c, "wrong", "device-1");
    assert_eq!(outcome, LoginOutcome::WrongPassword);
    assert!(gate.tokens.is_empty());
    let (code, body) = login_response(outcome);
    assert_eq!(code, 401);
    assert!(!body.success);
    assert!(body.token.is_none());
}

#[test]
fn login_with_unauthorized_device_is_403_and_no_token() {
    let mut gate = AuthGate::new();
    let c = config();
    let outcome = gate.login(&c, "hunter2", "device-1");
    assert_eq!(outcome, LoginOutcome::DeviceNotAuthorized);
    assert!(gate.tokens.is_empty());
    let (code, body) = login_response(outcome);
    assert_eq!(code, 403);
    assert!(!body.success);
    assert!(body.token.is_none());
}

#[test]
fn authorize_then_login_grants_a_token() {
    let mut gate = AuthGate::new();
    let mut c = config();
    assert!(authorize_device_checked(&mut c, "hunter2", "device-1".to_string()));
    assert!(c.is_device_authorized("device-1"));
    let outcome = gate.login(&c, "hunter2", "device-1");
    let token = match &outcome {
        LoginOutcome::Granted(t) => t.clone(),
        other => panic!("expected a token, got {:?}", other),
    };
    assert_eq!(token.len(), 36);
    assert_eq!(gate.verify(&token), Some("device-1".to_string()));
    let (code, body) = login_response(outcome);
    assert_eq!(code, 200);
    assert!(body.success);
    assert_eq!(body.token, Some(token));
}

#[test]
fn verify_rejects_unissued_and_malformed_tokens() {
    let mut gate = AuthGate::new();
    let mut c = config();
    c.authorize_device("device-1".to_string());
    let t = match gate.login(&c, "hunter2", "device-1") {
        LoginOutcome::Granted(t) => t,
        other => panic!("expected a token, got {:?}", other),
    };
    assert!(gate.verify(&t).is_some());
    assert!(gate.verify("").is_none());
    assert!(gate.verify("not-a-token").is_none());
    let mut almost = t.clone();
    almost.push('x');
    assert!(gate.verify(&almost).is_none());
}

#[test]
fn two_logins_issue_distinct_tokens() {
    let mut gate = AuthGate::new();
    let mut c = config();
    c.authorize_device("device-1".to_string());
    let t1 = match gate.login(&c, "hunter2", "device-1") {
        LoginOutcome::Granted(t) => t,
        other => panic!("expected a token, got {:?}", other),
    };
    let t2 = match gate.login(&c, "hunter2", "device-1") {
        LoginOutcome::Granted(t) => t,
        other => panic!("expected a token, got {:?}", other),
    };
    assert_ne!(t1, t2);
}

#[test]
fn authorize_with_wrong_password_changes_nothing() {
    let mut c = config();
    assert!(!authorize_device_checked(&mut c, "wrong", "device-1".to_string()));
    assert!(!c.is_device_authorized("device-1"));
    let (code, body) = authorize_response(false, false);
    assert_eq!(code, 401);
    assert!(!body.success);
}

#[test]
fn authorize_response_reports_persistence() {
    let (ok_code, ok_body) = authorize_response(true, true);
    assert_eq!(ok_code, 200);
    assert!(ok_body.success);
    let (err_code, err_body) = authorize_response(true, false);
    assert_eq!(err_code, 500);
    assert!(!err_body.success);
}

#[test]
fn authorize_twice_keeps_one_entry() {
    let mut c = config();
    c.authorize_device("device-1".to_string());
    c.authorize_device("device-1".to_string());
    assert_eq!(c.authorized_devices.len(), 1);
}

#[test]
fn revoke_removes_only_that_device() {
    let mut c = config();
    c.authorize_device("device-1".to_string());
    c.authorize_device("device-2".to_string());
    c.revoke_device("device-1");
    assert!(!c.is_device_authorized("device-1"));
    assert!(c.is_device_authorized("device-2"));
}

#[test]
fn verify_response_wordings() {
    let (c1, b1) = verify_response(true, true);
    assert_eq!((c1, b1.success, b1.message.as_str()), (200, true, "Token is valid"));
    let (c2, b2) = verify_response(true, false);
    assert_eq!((c2, b2.success, b2.message.as_str()), (401, false, "Invalid token"));
    let (c3, b3) = verify_response(false, false);
    assert_eq!((c3, b3.success, b3.message.as_str()), (401, false, "No token provided"));
}

#[test]
fn nickname_update_keeps_session_but_reports_failure() {
    let mut c = config();
    let old = update_nickname(&mut c, "bob".to_string());
    assert_eq!(old, "alice");
    assert_eq!(c.nickname, "bob");
    let ok = nickname_update_response(true, old.clone(), "bob".to_string());
    assert!(ok.success);
    assert_eq!(ok.new_nickname, "bob");
    let failed = nickname_update_response(false, old, "bob".to_string());
    assert!(!failed.success);
    assert_eq!(failed.new_nickname, "alice");
}
