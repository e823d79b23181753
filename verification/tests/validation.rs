use session_auth::hashing::{verify_stored_hash, HashedSecret};
use session_auth::models::{page_window, PaginationParams, RegisterData};
use session_auth::service::register;
use session_auth::validation::validate_password_strength;

const SALT: &str = "staticpepper16!!";

fn reg(name: &str, password: &str, email: &str) -> RegisterData {
    RegisterData {
        name: name.to_string(),
        password: password.to_string(),
        email: email.to_string(),
    }
}

#[test]
fn hashed_secret_verifies_exactly_its_secret() {
    let h = HashedSecret::hash("Str0ng!Pass", SALT).unwrap();
    assert!(h.verify("Str0ng!Pass"));
    assert!(!h.verify("Str0ng!Pas"));
    assert!(!h.verify(""));
    assert_ne!(h.encoded_str(), "Str0ng!Pass");
}

#[test]
fn stored_hash_verification_handles_corruption() {
    let h = HashedSecret::hash("Str0ng!Pass", SALT).unwrap();
    assert_eq!(verify_stored_hash(h.encoded_str(), "Str0ng!Pass"), Ok(true));
    assert_eq!(verify_stored_hash(h.encoded_str(), "nope"), Ok(false));
    assert!(verify_stored_hash("not-an-encoded-hash", "Str0ng!Pass").is_err());
}

#[test]
fn password_strength_rule() {
    assert!(validate_password_strength("Str0ng!Pass"));
    assert!(!validate_password_strength("weakpass1!"));
    assert!(!validate_password_strength("WEAKPASS1!"));
    assert!(!validate_password_strength("Weakpass!!"));
    assert!(!validate_password_strength("Weakpass12"));
    assert!(!validate_password_strength(""));
}

#[test]
fn registration_rules() {
    assert!(register(&reg("alice123", "Str0ng!Pass", "a@x.com"), false, SALT).is_ok());
    // name too short / too long
    assert!(register(&reg("al", "Str0ng!Pass", "a@x.com"), false, SALT).is_err());
    let long_name = "x".repeat(49);
    assert!(register(&reg(&long_name, "Str0ng!Pass", "a@x.com"), false, SALT).is_err());
    // password too short / weak
    assert!(register(&reg("alice123", "S0r!t", "a@x.com"), false, SALT).is_err());
    assert!(register(&reg("alice123", "alllowercase1!", "a@x.com"), false, SALT).is_err());
    // email shape
    assert!(register(&reg("alice123", "Str0ng!Pass", "not-an-email"), false, SALT).is_err());
    assert!(register(&reg("alice123", "Str0ng!Pass", ""), false, SALT).is_err());
    let long_email = format!("{}@x.com", "a".repeat(250));
    assert!(register(&reg("alice123", "Str0ng!Pass", &long_email), false, SALT).is_err());
}

#[test]
fn registration_error_payloads() {
    let e = register(&reg("al", "weak", "bad"), false, SALT).unwrap_err();
    assert_eq!(e.error, "Validation failed");
    assert_eq!(e.details.len(), 3);
    assert_eq!(e.details[0].field, "name");
    assert_eq!(e.details[1].field, "password");
    assert_eq!(e.details[2].field, "email");
    let e = register(&reg("alice123", "Str0ng!Pass", "a@x.com"), true, SALT).unwrap_err();
    assert_eq!(e.details[0].field, "user");
    assert_eq!(e.details[0].messages[0], "User with this name or email already exists");
}

#[test]
fn pagination_defaults_and_offsets() {
    let d = page_window(&PaginationParams { page: None, limit: None }).unwrap();
    assert_eq!(d, (1, 10, 0));
    let w = page_window(&PaginationParams { page: Some(3), limit: Some(20) }).unwrap();
    assert_eq!(w, (3, 20, 40));
    let max = page_window(&PaginationParams { page: Some(u32::MAX), limit: Some(u32::MAX) })
        .unwrap();
    assert_eq!(max.2, (u32::MAX as u64 - 1) * u32::MAX as u64);
}

#[test]
fn pagination_rejects_zero() {
    let e = page_window(&PaginationParams { page: Some(0), limit: Some(10) }).unwrap_err();
    assert_eq!(e.error, "Invalid pagination parameters");
    assert_eq!(e.details.len(), 2);
    assert_eq!(e.details[0].messages[0], "Page must be greater than 0");
    assert!(e.details[1].messages.is_empty());
    let e = page_window(&PaginationParams { page: Some(1), limit: Some(0) }).unwrap_err();
    assert!(e.details[0].messages.is_empty());
    assert_eq!(e.details[1].messages[0], "Limit must be greater than 0");
}
