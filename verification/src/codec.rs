//! The token codec: signing a claim set into an opaque token string, and
//! verifying a token string back into its claims.
//!
//! A token is `body.signature`: the base64url encoding of the canonical
//! claims payload, a dot, and the HMAC-SHA256 tag of the body under the
//! signing key.  Verification parses first, then checks expiry, then the
//! signature, so an expired token reports `Expired` whatever its signature.
use crate::claims::{claims_payload, parse_claims, render_claims, ClaimsView, TokenClaims};
use crate::errors::TokenError;
use vstd::prelude::*;

verus! {

/// The base64url (unpadded) encoding of the UTF-8 bytes of a text.
pub uninterp spec fn b64url_of(payload: Seq<char>) -> Seq<char>;

/// The base64url encoding of the HMAC-SHA256 tag of a message under a key.
pub uninterp spec fn hs256_sig(message: Seq<char>, key: Seq<char>) -> Seq<char>;

pub open spec fn dot_free(s: Seq<char>) -> bool {
    forall|i: int| 0 <= i < s.len() ==> s[i] != '.'
}

/// Whether a string is the base64url encoding of some text.
pub open spec fn is_b64url_image(s: Seq<char>) -> bool {
    exists|p: Seq<char>| s == b64url_of(p)
}

/// The signed token for a claim set under a key.
pub open spec fn token_of(c: ClaimsView, key: Seq<char>) -> Seq<char> {
    b64url_of(claims_payload(c)) + (seq!['.'] + hs256_sig(b64url_of(claims_payload(c)), key))
}

/// A key within which the HMAC backend keeps distinct keys apart: at most
/// 64 single-byte, non-zero characters.  RFC 2104 zero-pads a key shorter
/// than the 64-byte block and pre-hashes a longer one, so `"k"` and
/// `"k\u{0}"` sign alike, as does an over-long key and its digest; within
/// this class the padded block keys of distinct keys stay distinct.
pub open spec fn hmac_key_ok(k: Seq<char>) -> bool {
    k.len() <= 64 && forall|i: int| 0 <= i < k.len() ==> 1 <= (#[trigger] k[i]) as u32 <= 0x7f
}

/// Whether a signing key is within the class `hmac_key_ok` describes.
pub fn hmac_key_usable(k: &str) -> (r: bool)
    ensures
        r == hmac_key_ok(k@),
{
    let n = k.unicode_len();
    if n > 64 {
        return false;
    }
    let mut i: usize = 0;
    while i < n
        invariant
            i <= n,
            n == k@.len(),
            forall|j: int| 0 <= j < i ==> 1 <= (#[trigger] k@[j]) as u32 <= 0x7f,
        decreases n - i,
    {
        let u = k.get_char(i) as u32;
        if u == 0 || u > 0x7f {
            return false;
        }
        i = i + 1;
    }
    true
}

/// Relies on base64's `URL_SAFE_NO_PAD` engine: the result is the canonical
/// unpadded url-safe encoding of the UTF-8 bytes of `payload`; its alphabet
/// holds no dot, two texts never share an encoding, and the output holds
/// four characters for every three input bytes (at most four per
/// character), rounded up.
#[verifier::external_body]
fn b64url_encode(payload: &str) -> (r: String)
    ensures
        r@ == b64url_of(payload@),
        dot_free(r@),
        forall|p2: Seq<char>| b64url_of(p2) == r@ ==> p2 == payload@,
        r@.len() <= 6 * payload@.len(),
{
    base64::Engine::encode(&base64::engine::general_purpose::URL_SAFE_NO_PAD, payload.as_bytes())
}

/// Relies on base64's `URL_SAFE_NO_PAD` decode, which accepts exactly the
/// canonical encodings, and on UTF-8 decoding of the decoded bytes: it
/// returns the text whose encoding the input is, when there is one.
#[verifier::external_body]
fn b64url_decode(s: &str) -> (r: Option<String>)
    ensures
        r matches Some(p) ==> s@ == b64url_of(p@) && (forall|p2: Seq<char>|
            b64url_of(p2) == s@ ==> p2 == p@),
        is_b64url_image(s@) ==> r is Some,
{
    match base64::Engine::decode(&base64::engine::general_purpose::URL_SAFE_NO_PAD, s) {
        Ok(bytes) => match String::from_utf8(bytes) {
            Ok(p) => Some(p),
            Err(_) => None,
        },
        Err(_) => None,
    }
}

/// Relies on jsonwebtoken::crypto::sign with HS256 and a secret key: the
/// result is the base64url encoding of the 32-byte HMAC-SHA256 tag of the
/// message under the key — a deterministic function of the two, 43
/// characters of a dot-free alphabet.  With HS256 and a key from raw bytes
/// the call cannot fail.
#[verifier::external_body]
fn hs256_sign(message: &str, key: &str) -> (r: String)
    ensures
        r@ == hs256_sig(message@, key@),
        dot_free(r@),
        r@.len() == 43,
{
    jsonwebtoken::crypto::sign(
        message.as_bytes(),
        &jsonwebtoken::EncodingKey::from_secret(key.as_bytes()),
        jsonwebtoken::Algorithm::HS256,
    ).unwrap()
}

/// Relies on jsonwebtoken::crypto::verify with HS256: it re-computes the
/// tag of `message` under `key` and compares in constant time, so the
/// comparison succeeds exactly on the canonical tag; and on HMAC-SHA256
/// being a secure MAC within the key class `hmac_key_ok` describes, where
/// the padded block keys of distinct keys differ, so their tags for one
/// message differ.  Outside that class nothing is assumed: RFC 2104's key
/// preprocessing does alias some distinct key strings.
#[verifier::external_body]
fn hs256_verify(signature: &str, message: &str, key: &str) -> (r: bool)
    ensures
        r == (signature@ == hs256_sig(message@, key@)),
        r ==> forall|k2: Seq<char>|
            hmac_key_ok(key@) && hmac_key_ok(k2) && k2 != key@ ==> signature@ != hs256_sig(
                message@,
                k2,
            ),
{
    jsonwebtoken::crypto::verify(
        signature,
        message.as_bytes(),
        &jsonwebtoken::DecodingKey::from_secret(key.as_bytes()),
        jsonwebtoken::Algorithm::HS256,
    ).unwrap_or(false)
}

/// Signs a claim set into an opaque token string.
///
/// The second clause records that the token's body is dot-free — what lets
/// verification split a token unambiguously at its first dot; callers carry
/// it into `verify_token`'s hypotheses.  The length bound (body at most six
/// characters per payload character, dot, 43-character tag) lets callers
/// bound the token against the hashing backend's input limit.
pub fn sign_token(claims: &TokenClaims, key: &str) -> (r: String)
    ensures
        r@ == token_of(claims@, key@),
        dot_free(b64url_of(claims_payload(claims@))),
        r@.len() <= 6 * claims_payload(claims@).len() + 44,
{
    let payload = render_claims(claims);
    let body = b64url_encode(payload.as_str());
    let sig = hs256_sign(body.as_str(), key);
    let mut token = body;
    token.append(".");
    token.append(sig.as_str());
    proof {
        reveal_strlit(".");
        assert(token@ =~= token_of(claims@, key@));
    }
    token
}

/// Verifies a token string against a key and the current time, and recovers
/// its claims.
///
/// The contract pins the whole behaviour on well-formed tokens:
/// - a returned claim set is exactly the one whose signed form (under this
///   key) the token is, and it is unexpired;
/// - a token signed for any key whose claims are expired is refused as
///   `Expired`, before any signature check (so whatever its signature);
/// - an unexpired token signed with this key is accepted;
/// - an accepted token was signed with this key and no other — for keys in
///   the class `hmac_key_ok` describes, within which the MAC keeps
///   distinct keys apart.
pub fn verify_token(token: &str, key: &str, now: i64) -> (r: Result<TokenClaims, TokenError>)
    ensures
        r matches Ok(c) ==> token@ == token_of(c@, key@) && c@.exp >= now,
        forall|c: ClaimsView, k: Seq<char>|
            c.wf() && dot_free(b64url_of(claims_payload(c))) && token@ == token_of(c, k) && c.exp
                < now ==> (r matches Err(e) && e == TokenError::Expired),
        forall|c: ClaimsView|
            c.wf() && dot_free(b64url_of(claims_payload(c))) && token@ == token_of(c, key@)
                && c.exp >= now ==> (r matches Ok(rc) && rc@ == c),
        forall|c: ClaimsView, k: Seq<char>|
            c.wf() && dot_free(b64url_of(claims_payload(c))) && hmac_key_ok(key@) && hmac_key_ok(k)
                && token@ == token_of(c, k) && r is Ok ==> k == key@,
        forall|c: ClaimsView, k: Seq<char>|
            c.wf() && dot_free(b64url_of(claims_payload(c))) && hmac_key_ok(key@) && hmac_key_ok(k)
                && token@ == token_of(c, k) && c.exp >= now && k != key@ ==> (r matches Err(e) && e
                == TokenError::InvalidSignature),
{
    let n = token.unicode_len();
    let mut i: usize = 0;
    let mut found = false;
    while !found && i < n
        invariant
            i <= n,
            n == token@.len(),
            forall|j: int| 0 <= j < i ==> token@[j] != '.',
            found ==> i < n && token@[i as int] == '.',
        decreases n - i + (if found { 0int } else { 1int }),
    {
        if token.get_char(i) == '.' {
            found = true;
        } else {
            i = i + 1;
        }
    }
    proof {
        assert forall|c: ClaimsView, k: Seq<char>|
            c.wf() && dot_free(b64url_of(claims_payload(c))) && token@ == token_of(c, k) implies
            found && i == b64url_of(claims_payload(c)).len() && token@.subrange(0, i as int)
            == b64url_of(claims_payload(c)) && token@.subrange(i + 1, n as int) == hs256_sig(
            b64url_of(claims_payload(c)),
            k,
        ) by {
            let b = b64url_of(claims_payload(c));
            let s = hs256_sig(b, k);
            assert(token@ == b + (seq!['.'] + s));
            assert(token@.len() == b.len() + 1 + s.len());
            assert(token@[b.len() as int] == (seq!['.'] + s)[0]);
            if i > b.len() {
                assert(token@[b.len() as int] != '.');
                assert(false);
            }
            if !found {
                assert(i == n);
                assert(i > b.len());
                assert(false);
            }
            if i < b.len() {
                assert(token@[i as int] == b[i as int]);
                assert(false);
            }
            assert(token@.subrange(0, i as int) =~= b);
            assert forall|j: int| 0 <= j < s.len() implies token@.subrange(i + 1, n as int)[j]
                == s[j] by {
                assert(token@.subrange(i + 1, n as int)[j] == token@[i + 1 + j]);
                assert(token@[b.len() + 1 + j] == (seq!['.'] + s)[1 + j]);
            }
            assert(token@.subrange(i + 1, n as int) =~= s);
        }
    }
    if !found {
        return Err(TokenError::Malformed);
    }
    let body = token.substring_char(0, i);
    let sig = token.substring_char(i + 1, n);
    let payload = match b64url_decode(body) {
        Some(p) => p,
        None => {
            return Err(TokenError::Malformed);
        },
    };
    let claims = match parse_claims(payload.as_str()) {
        Some(c) => c,
        None => {
            proof {
                assert forall|c: ClaimsView, k: Seq<char>|
                    c.wf() && dot_free(b64url_of(claims_payload(c))) && token@ == token_of(
                        c,
                        k,
                    ) implies false by {
                    assert(payload@ == claims_payload(c));
                }
            }
            return Err(TokenError::Malformed);
        },
    };
    proof {
        assert forall|c: ClaimsView, k: Seq<char>|
            c.wf() && dot_free(b64url_of(claims_payload(c))) && token@ == token_of(c, k) implies
            claims@ == c by {
            assert(payload@ == claims_payload(c));
        }
    }
    if claims.exp < now {
        return Err(TokenError::Expired);
    }
    if !hs256_verify(sig, body, key) {
        proof {
            assert forall|c: ClaimsView|
                c.wf() && dot_free(b64url_of(claims_payload(c))) && token@ == token_of(c, key@)
                    && c.exp >= now implies false by {
                assert(sig@ == hs256_sig(body@, key@));
            }
        }
        return Err(TokenError::InvalidSignature);
    }
    proof {
        assert(token@ =~= token@.subrange(0, i as int) + (seq![token@[i as int]] + token@.subrange(
            i + 1,
            n as int,
        )));
        assert(token@ == token_of(claims@, key@));
    }
    Ok(claims)
}

} // verus!
