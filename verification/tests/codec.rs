use session_auth::claims::{parse_claims, render_claims, TokenClaims, TokenKind};
use session_auth::codec::{sign_token, verify_token};
use session_auth::errors::TokenError;
use session_auth::text::{i64_to_string, str_eq, u64_to_string};

fn sample_claims() -> TokenClaims {
    TokenClaims {
        name: "alice".to_string(),
        email: "a@x.com".to_string(),
        user_id: 1,
        exp: 1_700_000_000,
        token_type: "Access".to_string(),
        used: false,
        jti: "abc".to_string(),
    }
}

#[test]
fn decimal_rendering_exact() {
    assert_eq!(u64_to_string(0), "0");
    assert_eq!(u64_to_string(42), "42");
    assert_eq!(u64_to_string(u64::MAX), "18446744073709551615");
    assert_eq!(i64_to_string(-5), "-5");
    assert_eq!(i64_to_string(0), "0");
    assert_eq!(i64_to_string(i64::MIN), "-9223372036854775808");
    assert_eq!(i64_to_string(i64::MAX), "9223372036854775807");
}

#[test]
fn str_eq_agrees_with_equality() {
    assert!(str_eq("abc", "abc"));
    assert!(!str_eq("abc", "abd"));
    assert!(!str_eq("abc", "ab"));
    assert!(str_eq("", ""));
}

#[test]
fn claims_encoding_exact() {
    let c = sample_claims();
    assert_eq!(render_claims(&c), "5:alice,7:a@x.com,1,1700000000,6:Access,0,3:abc,");
}

#[test]
fn claims_round_trip() {
    let c = sample_claims();
    let p = parse_claims(&render_claims(&c)).unwrap();
    assert_eq!(p.name, c.name);
    assert_eq!(p.email, c.email);
    assert_eq!(p.user_id, c.user_id);
    assert_eq!(p.exp, c.exp);
    assert_eq!(p.token_type, c.token_type);
    assert_eq!(p.used, c.used);
    assert_eq!(p.jti, c.jti);
}

#[test]
fn claims_round_trip_awkward_values() {
    let c = TokenClaims {
        name: "äl:i,ce".to_string(),
        email: "weird@:,@x".to_string(),
        user_id: -9,
        exp: i64::MIN,
        token_type: "Refresh".to_string(),
        used: true,
        jti: "".to_string(),
    };
    let p = parse_claims(&render_claims(&c)).unwrap();
    assert_eq!(p.name, c.name);
    assert_eq!(p.email, c.email);
    assert_eq!(p.user_id, c.user_id);
    assert_eq!(p.exp, c.exp);
    assert_eq!(p.token_type, c.token_type);
    assert_eq!(p.used, c.used);
    assert_eq!(p.jti, c.jti);
}

#[test]
fn claims_parse_rejects_non_canonical() {
    assert!(parse_claims("").is_none());
    assert!(parse_claims("garbage").is_none());
    // redundant leading zero in a length prefix
    assert!(parse_claims("05:alice,7:a@x.com,1,1700000000,6:Access,0,3:abc,").is_none());
    // trailing junk
    assert!(parse_claims("5:alice,7:a@x.com,1,1700000000,6:Access,0,3:abc,x").is_none());
    // negative zero is not canonical
    assert!(parse_claims("5:alice,7:a@x.com,-0,1700000000,6:Access,0,3:abc,").is_none());
}

#[test]
fn token_round_trip() {
    let c = sample_claims();
    let now = 1_699_999_000;
    let token = sign_token(&c, "access-key-1");
    let got = verify_token(&token, "access-key-1", now).unwrap();
    assert_eq!(got.name, c.name);
    assert_eq!(got.email, c.email);
    assert_eq!(got.user_id, c.user_id);
    assert_eq!(got.exp, c.exp);
    assert_eq!(got.token_type, c.token_type);
    assert_eq!(got.jti, c.jti);
}

#[test]
fn token_is_not_the_claims_text() {
    // the signing and encoding layers must actually transform the payload
    let c = sample_claims();
    let token = sign_token(&c, "access-key-1");
    let payload = render_claims(&c);
    assert_ne!(token, payload);
    assert!(token.contains('.'));
    assert!(!token[..token.find('.').unwrap()].contains(','));
}

#[test]
fn key_separation() {
    // a token signed with one key never verifies under the other
    let c = sample_claims();
    let now = 1_699_999_000;
    let access_signed = sign_token(&c, "access-key-1");
    assert!(matches!(
        verify_token(&access_signed, "refresh-key-2", now),
        Err(TokenError::InvalidSignature)
    ));
    let refresh_signed = sign_token(&c, "refresh-key-2");
    assert!(matches!(
        verify_token(&refresh_signed, "access-key-1", now),
        Err(TokenError::InvalidSignature)
    ));
}

#[test]
fn expired_token_reported_expired_whatever_the_signature() {
    let mut c = sample_claims();
    let now = 1_700_000_100;
    assert!(c.exp < now);
    // correctly signed
    let token = sign_token(&c, "access-key-1");
    assert!(matches!(verify_token(&token, "access-key-1", now), Err(TokenError::Expired)));
    // signed with the wrong key
    assert!(matches!(verify_token(&token, "refresh-key-2", now), Err(TokenError::Expired)));
    // signature replaced with garbage
    let dot = token.rfind('.').unwrap();
    let tampered = format!("{}.AAAA", &token[..dot]);
    assert!(matches!(verify_token(&tampered, "access-key-1", now), Err(TokenError::Expired)));
    // while an unexpired token with a broken signature is a signature failure
    c.exp = now + 300;
    let live = sign_token(&c, "access-key-1");
    let dot2 = live.rfind('.').unwrap();
    let tampered2 = format!("{}.AAAA", &live[..dot2]);
    assert!(matches!(
        verify_token(&tampered2, "access-key-1", now),
        Err(TokenError::InvalidSignature)
    ));
}

#[test]
fn malformed_tokens() {
    let now = 1_699_999_000;
    assert!(matches!(verify_token("", "k", now), Err(TokenError::Malformed)));
    assert!(matches!(verify_token("no-dot-here", "k", now), Err(TokenError::Malformed)));
    assert!(matches!(verify_token("abc.def", "k", now), Err(TokenError::Malformed)));
    assert!(matches!(verify_token("!!!.def", "k", now), Err(TokenError::Malformed)));
    // a valid body whose payload is not a claims encoding
    let body = ".sig";
    assert!(matches!(verify_token(body, "k", now), Err(TokenError::Malformed)));
}
