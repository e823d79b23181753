use session_auth::claims::TokenClaims;
use session_auth::codec::verify_token;
use session_auth::errors::AuthError;
use session_auth::models::{LoginData, RegisterData, UserDB};
use session_auth::rotation::{current_timestamp, fresh_jti, refresh};
use session_auth::service::{auth_middleware, login, logout, register, AuthHeader, Secrets};
use session_auth::store::SessionStore;

const SALT: &str = "staticpepper16!!";
const ACCESS_KEY: &str = "access-key-1";
const REFRESH_KEY: &str = "refresh-key-2";
const NOW: i64 = 1_700_000_000;

fn secrets() -> Secrets {
    Secrets::new(SALT.to_string(), ACCESS_KEY.to_string(), REFRESH_KEY.to_string()).unwrap()
}

fn alice(password_hash: String) -> UserDB {
    UserDB {
        id: 7,
        name: "alice123".to_string(),
        password: password_hash,
        email: "a@x.com".to_string(),
    }
}

fn login_alice(store: &mut SessionStore, n: u32) -> session_auth::service::Tokens {
    let reg = RegisterData {
        name: "alice123".to_string(),
        password: "Str0ng!Pass".to_string(),
        email: "a@x.com".to_string(),
    };
    let hashed = register(&reg, false, SALT).unwrap();
    let user = alice(hashed);
    let payload = LoginData { password: "Str0ng!Pass".to_string(), email: "a@x.com".to_string() };
    login(
        store,
        &secrets(),
        &AuthHeader::Absent,
        Some(&user),
        &payload,
        NOW,
        format!("jti-access-{}", n),
        format!("jti-refresh-{}", n),
    )
    .unwrap()
}

#[test]
fn hash_and_verify_credentials() {
    // register hashes the password; the hash is a genuine argon2 encoding
    let reg = RegisterData {
        name: "alice123".to_string(),
        password: "Str0ng!Pass".to_string(),
        email: "a@x.com".to_string(),
    };
    let hashed = register(&reg, false, SALT).unwrap();
    assert_ne!(hashed, "Str0ng!Pass");
    assert!(argon2::verify_encoded(&hashed, b"Str0ng!Pass").unwrap());
    assert!(!argon2::verify_encoded(&hashed, b"Str0ng!Pass2").unwrap());
}

#[test]
fn register_login_and_gate_end_to_end() {
    let mut store = SessionStore::new(SALT);
    let reg = RegisterData {
        name: "alice123".to_string(),
        password: "Str0ng!Pass".to_string(),
        email: "a@x.com".to_string(),
    };
    let hashed = register(&reg, false, SALT).unwrap();
    let user = alice(hashed);
    let payload = LoginData { password: "Str0ng!Pass".to_string(), email: "a@x.com".to_string() };
    let tokens = login(
        &mut store,
        &secrets(),
        &AuthHeader::Absent,
        Some(&user),
        &payload,
        NOW,
        "jti-a-1".to_string(),
        "jti-r-1".to_string(),
    )
    .unwrap();

    // access token expires in five minutes, refresh token in seven days
    let ac = verify_token(&tokens.access_token, ACCESS_KEY, NOW).unwrap();
    assert_eq!(ac.exp, NOW + 300);
    assert_eq!(ac.token_type, "Access");
    assert_eq!(ac.name, "alice123");
    assert_eq!(ac.email, "a@x.com");
    assert_eq!(ac.user_id, 7);
    assert!(!ac.used);
    let rc = verify_token(&tokens.refresh_token, REFRESH_KEY, NOW).unwrap();
    assert_eq!(rc.exp, NOW + 604_800);
    assert_eq!(rc.token_type, "Refresh");

    // a protected request with the access token passes the middleware
    let header = format!("Bearer {}", tokens.access_token);
    let claims = auth_middleware(Some(&header), ACCESS_KEY, NOW).unwrap();
    assert_eq!(claims.user_id, 7);
    assert_eq!(claims.name, "alice123");

    // no header, or a non-"Bearer " prefix, is Unauthorized
    assert!(matches!(auth_middleware(None, ACCESS_KEY, NOW), Err(AuthError::Unauthorized)));
    let bad = format!("Token {}", tokens.access_token);
    assert!(matches!(auth_middleware(Some(&bad), ACCESS_KEY, NOW), Err(AuthError::Unauthorized)));
    let lower = format!("bearer {}", tokens.access_token);
    assert!(matches!(auth_middleware(Some(&lower), ACCESS_KEY, NOW), Err(AuthError::Unauthorized)));

    // a refresh token never passes the middleware
    let refresh_header = format!("Bearer {}", tokens.refresh_token);
    assert!(auth_middleware(Some(&refresh_header), ACCESS_KEY, NOW).is_err());

    // an expired access token is rejected by the middleware
    assert!(auth_middleware(Some(&header), ACCESS_KEY, NOW + 301).is_err());
    // and accepted right up to its expiry
    assert!(auth_middleware(Some(&header), ACCESS_KEY, NOW + 300).is_ok());
}

#[test]
fn login_gate_refuses_authorized_requests() {
    let mut store = SessionStore::new(SALT);
    let payload = LoginData { password: "x".to_string(), email: "a@x.com".to_string() };
    let e = login(
        &mut store,
        &secrets(),
        &AuthHeader::Text("Bearer abc".to_string()),
        None,
        &payload,
        NOW,
        "j1".to_string(),
        "j2".to_string(),
    )
    .unwrap_err();
    assert_eq!(e.0, 409);
    assert_eq!(e.1.details[0].messages[0], "Already authorized");
    let e = login(
        &mut store,
        &secrets(),
        &AuthHeader::Text("Basic abc".to_string()),
        None,
        &payload,
        NOW,
        "j1".to_string(),
        "j2".to_string(),
    )
    .unwrap_err();
    assert_eq!(e.0, 409);
    assert_eq!(e.1.details[0].messages[0], "Not bearer");
    let e = login(
        &mut store,
        &secrets(),
        &AuthHeader::NotText,
        None,
        &payload,
        NOW,
        "j1".to_string(),
        "j2".to_string(),
    )
    .unwrap_err();
    assert_eq!(e.0, 400);
    assert_eq!(e.1.details[0].messages[0], "Header not valid UTF-8");
}

#[test]
fn wrong_password_and_unknown_email_are_indistinguishable() {
    let mut store = SessionStore::new(SALT);
    let reg = RegisterData {
        name: "alice123".to_string(),
        password: "Str0ng!Pass".to_string(),
        email: "a@x.com".to_string(),
    };
    let hashed = register(&reg, false, SALT).unwrap();
    let user = alice(hashed);
    let wrong = LoginData { password: "WrongPass1!".to_string(), email: "a@x.com".to_string() };
    let unknown = login(
        &mut store,
        &secrets(),
        &AuthHeader::Absent,
        None,
        &wrong,
        NOW,
        "j1".to_string(),
        "j2".to_string(),
    )
    .unwrap_err();
    let mismatch = login(
        &mut store,
        &secrets(),
        &AuthHeader::Absent,
        Some(&user),
        &wrong,
        NOW,
        "j3".to_string(),
        "j4".to_string(),
    )
    .unwrap_err();
    assert_eq!(unknown.0, mismatch.0);
    assert_eq!(unknown.1.error, mismatch.1.error);
    assert_eq!(unknown.1.details[0].field, mismatch.1.details[0].field);
    assert_eq!(unknown.1.details[0].messages, mismatch.1.details[0].messages);
}

#[test]
fn refresh_rotates_and_consumes() {
    let mut store = SessionStore::new(SALT);
    let tokens = login_alice(&mut store, 1);
    assert_eq!(store.len(), 1);
    let caller = verify_token(&tokens.access_token, ACCESS_KEY, NOW).unwrap();

    let rotated = refresh(
        &mut store,
        &caller,
        &tokens.refresh_token,
        NOW + 60,
        SALT,
        ACCESS_KEY,
        REFRESH_KEY,
        "jti-a-2".to_string(),
        "jti-r-2".to_string(),
    )
    .unwrap();
    assert_eq!(store.len(), 2);
    let new_ac = verify_token(&rotated.new_access_token, ACCESS_KEY, NOW + 60).unwrap();
    assert_eq!(new_ac.exp, NOW + 60 + 300);
    let new_rc = verify_token(&rotated.new_refresh_token, REFRESH_KEY, NOW + 60).unwrap();
    assert_eq!(new_rc.exp, NOW + 60 + 604_800);
    assert_eq!(new_rc.jti, "jti-r-2");

    // the consumed token fails a second rotation
    let again = refresh(
        &mut store,
        &caller,
        &tokens.refresh_token,
        NOW + 120,
        SALT,
        ACCESS_KEY,
        REFRESH_KEY,
        "jti-a-3".to_string(),
        "jti-r-3".to_string(),
    );
    assert!(matches!(again, Err(AuthError::InvalidOrExpiredToken)));

    // while its successor rotates fine
    let next = refresh(
        &mut store,
        &caller,
        &rotated.new_refresh_token,
        NOW + 120,
        SALT,
        ACCESS_KEY,
        REFRESH_KEY,
        "jti-a-4".to_string(),
        "jti-r-4".to_string(),
    );
    assert!(next.is_ok());
}

#[test]
fn refresh_rejects_blank_and_foreign_tokens() {
    let mut store = SessionStore::new(SALT);
    let tokens = login_alice(&mut store, 1);
    let caller = verify_token(&tokens.access_token, ACCESS_KEY, NOW).unwrap();
    let blank = refresh(
        &mut store,
        &caller,
        "   ",
        NOW,
        SALT,
        ACCESS_KEY,
        REFRESH_KEY,
        "j1".to_string(),
        "j2".to_string(),
    );
    assert!(matches!(blank, Err(AuthError::InvalidInput)));
    let foreign = refresh(
        &mut store,
        &caller,
        "never-issued-token",
        NOW,
        SALT,
        ACCESS_KEY,
        REFRESH_KEY,
        "j3".to_string(),
        "j4".to_string(),
    );
    assert!(matches!(foreign, Err(AuthError::InvalidOrExpiredToken)));
    // another user cannot spend alice's token
    let mut other = caller.duplicate();
    other.user_id = 8;
    let stolen = refresh(
        &mut store,
        &other,
        &tokens.refresh_token,
        NOW,
        SALT,
        ACCESS_KEY,
        REFRESH_KEY,
        "j5".to_string(),
        "j6".to_string(),
    );
    assert!(matches!(stolen, Err(AuthError::InvalidOrExpiredToken)));
}

#[test]
fn one_token_cannot_be_consumed_twice() {
    // two concurrent rotations serialize at the row-level compare-and-set;
    // whichever lands second finds the row already consumed
    let mut store = SessionStore::new(SALT);
    let claims = TokenClaims {
        name: "alice123".to_string(),
        email: "a@x.com".to_string(),
        user_id: 7,
        exp: NOW + 604_800,
        token_type: "Refresh".to_string(),
        used: false,
        jti: "j1".to_string(),
    };
    store.persist(&claims, "the-refresh-token", SALT).unwrap();
    let hash = store.hash_at(0);
    let first = store.consume(&hash);
    let second = store.consume(&hash);
    assert!(first);
    assert!(!second);
}

#[test]
fn duplicate_hash_is_refused() {
    let mut store = SessionStore::new(SALT);
    let claims = TokenClaims {
        name: "alice123".to_string(),
        email: "a@x.com".to_string(),
        user_id: 7,
        exp: NOW + 604_800,
        token_type: "Refresh".to_string(),
        used: false,
        jti: "j1".to_string(),
    };
    store.persist(&claims, "the-refresh-token", SALT).unwrap();
    let dup = store.persist(&claims, "the-refresh-token", SALT);
    assert!(matches!(dup, Err(AuthError::StorageError)));
    assert_eq!(store.len(), 1);
}

#[test]
fn logout_revokes_the_session() {
    let mut store = SessionStore::new(SALT);
    let tokens = login_alice(&mut store, 1);
    let caller = verify_token(&tokens.access_token, ACCESS_KEY, NOW).unwrap();
    assert_eq!(store.len(), 1);
    logout(&mut store, &tokens.refresh_token);
    assert_eq!(store.len(), 0);
    // logging out again is fine (idempotent)
    logout(&mut store, &tokens.refresh_token);
    // and the token no longer rotates
    let after = refresh(
        &mut store,
        &caller,
        &tokens.refresh_token,
        NOW,
        SALT,
        ACCESS_KEY,
        REFRESH_KEY,
        "j1".to_string(),
        "j2".to_string(),
    );
    assert!(matches!(after, Err(AuthError::InvalidOrExpiredToken)));
}

#[test]
fn logout_leaves_other_sessions_alone() {
    let mut store = SessionStore::new(SALT);
    let t1 = login_alice(&mut store, 1);
    let t2 = login_alice(&mut store, 2);
    assert_eq!(store.len(), 2);
    logout(&mut store, &t1.refresh_token);
    assert_eq!(store.len(), 1);
    let caller = verify_token(&t2.access_token, ACCESS_KEY, NOW).unwrap();
    let still_good = refresh(
        &mut store,
        &caller,
        &t2.refresh_token,
        NOW,
        SALT,
        ACCESS_KEY,
        REFRESH_KEY,
        "j9".to_string(),
        "j10".to_string(),
    );
    assert!(still_good.is_ok());
}

#[test]
fn secrets_constructor_enforces_the_startup_rules() {
    assert!(Secrets::new("short".to_string(), "a".to_string(), "b".to_string()).is_none());
    assert!(Secrets::new(SALT.to_string(), "same-key".to_string(), "same-key".to_string()).is_none());
    let s = Secrets::new(SALT.to_string(), "a1".to_string(), "b2".to_string()).unwrap();
    assert_eq!(s.get_salt(), SALT);
    assert_eq!(s.get_access_key(), "a1");
    assert_eq!(s.get_refresh_key(), "b2");
}

#[test]
fn outside_sources_of_randomness_and_time() {
    let a = fresh_jti();
    let b = fresh_jti();
    assert_eq!(a.len(), 36);
    assert_ne!(a, b);
    assert!(current_timestamp() > 1_600_000_000);
}

#[test]
fn stored_row_snapshot() {
    let mut store = SessionStore::new(SALT);
    let tokens = login_alice(&mut store, 1);
    let row = store.row_at(0);
    assert_eq!(row.user_id, 7);
    assert_eq!(row.name, "alice123");
    assert_eq!(row.email, "a@x.com");
    assert_eq!(row.exp, NOW + 604_800);
    assert!(!row.used);
    // the stored column is the real salted hash of the issued refresh token
    assert!(argon2::verify_encoded(&row.token, tokens.refresh_token.as_bytes()).unwrap());
    assert!(!argon2::verify_encoded(&row.token, tokens.access_token.as_bytes()).unwrap());
}

#[test]
fn error_categories_have_descriptions() {
    assert_eq!(AuthError::Unauthorized.describe(), "Unauthorized");
    assert_eq!(AuthError::InvalidOrExpiredToken.describe(), "Invalid refresh token");
    assert_eq!(AuthError::StorageError.describe(), "Database error");
}

#[test]
fn secrets_keys_must_be_in_the_mac_injective_class() {
    // a key with a NUL character, a multi-byte character, or more than 64
    // characters could alias another key after HMAC's key preprocessing,
    // so the constructor refuses it
    assert!(Secrets::new(SALT.to_string(), "k\u{0}".to_string(), "b2".to_string()).is_none());
    assert!(Secrets::new(SALT.to_string(), "a1".to_string(), "k".repeat(65)).is_none());
    assert!(Secrets::new(SALT.to_string(), "\u{fc}ber".to_string(), "b2".to_string()).is_none());
    assert!(Secrets::new(SALT.to_string(), "k".repeat(64), "b2".to_string()).is_some());
}

#[test]
fn an_access_token_never_rotates() {
    // the store holds only refresh-token hashes, so presenting the access
    // token matches nothing
    let mut store = SessionStore::new(SALT);
    let tokens = login_alice(&mut store, 1);
    let caller = verify_token(&tokens.access_token, ACCESS_KEY, NOW).unwrap();
    let r = refresh(
        &mut store,
        &caller,
        &tokens.access_token,
        NOW,
        SALT,
        ACCESS_KEY,
        REFRESH_KEY,
        "j7".to_string(),
        "j8".to_string(),
    );
    assert!(matches!(r, Err(AuthError::InvalidOrExpiredToken)));
    assert_eq!(store.len(), 1);
}
