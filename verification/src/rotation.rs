//! The rotation service: exchanging a still-valid refresh token for a fresh
//! access/refresh pair, consuming the presented token.
//!
//! The presented plaintext is matched against the caller's unused stored
//! rows by hash verification (hashes cannot be looked up by equality), the
//! matched row is consumed by a compare-and-set, and the new refresh
//! token's hash is persisted.  A consumed row never matches again, which is
//! the single-use property of refresh tokens.
use crate::claims::{issued_claims, TokenClaims, TokenKind, REFRESH_LIFETIME_SECS};
use crate::codec::{sign_token, token_of};
use crate::errors::AuthError;
use crate::store::{has_usable_match, usable_match, RowView, SessionStore};
use crate::text::{blank, is_blank};
use vstd::prelude::*;

verus! {

/// The pair a successful rotation returns.
#[derive(Debug)]
pub struct NewTokens {
    pub new_access_token: String,
    pub new_refresh_token: String,
}

/// Relies on uuid::Uuid::new_v4 and its hyphenated rendering: a fresh
/// random identifier.  Nothing is assumed of its value.
#[verifier::external_body]
pub fn fresh_jti() -> (r: String) {
    uuid::Uuid::new_v4().to_string()
}

/// Relies on chrono::Utc::now().timestamp(): the current Unix time.
/// Nothing is assumed of its value.
#[verifier::external_body]
pub fn current_timestamp() -> (r: i64) {
    chrono::Utc::now().timestamp()
}

/// What blocks persisting the successor refresh token after a match was
/// found: the signed token outgrowing the hash backend's bounds, its hash
/// colliding with a stored row (the unique-hash constraint), or the row id
/// space being exhausted.
pub open spec fn storage_block(
    s: Seq<RowView>,
    next_id: int,
    new_refresh: Seq<char>,
) -> bool {
    ||| new_refresh.len() > 0x3FFF_FFFF
    ||| exists|j: int| 0 <= j < s.len() && (#[trigger] s[j]).secret == new_refresh
    ||| next_id == i64::MAX
}

/// The refresh protocol, for a caller whose identity the request gate
/// already verified.
///
/// A blank token is `InvalidInput`; a token matching no unused stored row
/// of the caller is `InvalidOrExpiredToken` (this also covers a token
/// already consumed, revoked, or never issued to this store); otherwise the
/// matched row is atomically consumed, a new pair is issued at `now` with
/// the given fresh ids, and the new refresh token's hash is stored.  On
/// success no unused row for the presented token remains: presenting it a
/// second time fails with `InvalidOrExpiredToken`.
pub fn refresh(
    store: &mut SessionStore,
    caller: &TokenClaims,
    presented: &str,
    now: i64,
    salt: &str,
    access_key: &str,
    refresh_key: &str,
    jti_access: String,
    jti_refresh: String,
) -> (r: Result<NewTokens, AuthError>)
    requires
        old(store).wf(),
        salt@ == old(store).salt(),
        8 <= salt@.len() <= 0x3FFF_FFFF,
        now <= i64::MAX - REFRESH_LIFETIME_SECS,
    ensures
        final(store).wf(),
        final(store).salt() == old(store).salt(),
        r is Err ==> final(store)@ == old(store)@,
        (r matches Err(e) && e == AuthError::InvalidInput) <==> blank(presented@),
        (r matches Err(e) && e == AuthError::InvalidOrExpiredToken) <==> (!blank(presented@)
            && !has_usable_match(old(store)@, caller@.user_id, presented@)),
        (r matches Err(e) && e == AuthError::StorageError) <==> (!blank(presented@)
            && has_usable_match(old(store)@, caller@.user_id, presented@) && storage_block(
            old(store)@,
            old(store).next_id(),
            token_of(
                issued_claims(
                    caller@.user_id,
                    caller@.name,
                    caller@.email,
                    TokenKind::Refresh,
                    now as int,
                    jti_refresh@,
                ),
                refresh_key@,
            ),
        )),
        !blank(presented@) && has_usable_match(old(store)@, caller@.user_id, presented@)
            && !storage_block(
            old(store)@,
            old(store).next_id(),
            token_of(
                issued_claims(
                    caller@.user_id,
                    caller@.name,
                    caller@.email,
                    TokenKind::Refresh,
                    now as int,
                    jti_refresh@,
                ),
                refresh_key@,
            ),
        ) ==> r is Ok,
        r matches Ok(t) ==> {
            let acc = issued_claims(
                caller@.user_id,
                caller@.name,
                caller@.email,
                TokenKind::Access,
                now as int,
                jti_access@,
            );
            let ref_c = issued_claims(
                caller@.user_id,
                caller@.name,
                caller@.email,
                TokenKind::Refresh,
                now as int,
                jti_refresh@,
            );
            &&& t.new_access_token@ == token_of(acc, access_key@)
            &&& t.new_refresh_token@ == token_of(ref_c, refresh_key@)
            &&& exists|i: int|
                {
                    &&& 0 <= i < old(store)@.len()
                    &&& usable_match(#[trigger] old(store)@[i], caller@.user_id, presented@)
                    &&& final(store)@ == old(store)@.update(
                        i,
                        RowView { used: true, ..old(store)@[i] },
                    ).push(
                        RowView {
                            id: old(store).next_id(),
                            hash: crate::hashing::argon_hash(t.new_refresh_token@, salt@),
                            secret: t.new_refresh_token@,
                            name: caller@.name,
                            email: caller@.email,
                            user_id: caller@.user_id,
                            exp: now + REFRESH_LIFETIME_SECS,
                            used: false,
                        },
                    )
                }
        },
        r is Ok ==> forall|j: int|
            0 <= j < final(store)@.len() ==> !(!(#[trigger] final(store)@[j]).used
                && final(store)@[j].secret == presented@),
{
    if is_blank(presented) {
        return Err(AuthError::InvalidInput);
    }
    let idx = match store.find_usable_match(caller.user_id, presented) {
        Some(i) => i,
        None => {
            return Err(AuthError::InvalidOrExpiredToken);
        },
    };
    let access_claims = TokenClaims::issue(
        caller.user_id,
        caller.name.as_str(),
        caller.email.as_str(),
        TokenKind::Access,
        now,
        jti_access,
    );
    let new_access_token = sign_token(&access_claims, access_key);
    let refresh_claims = TokenClaims::issue(
        caller.user_id,
        caller.name.as_str(),
        caller.email.as_str(),
        TokenKind::Refresh,
        now,
        jti_refresh,
    );
    let new_refresh_token = sign_token(&refresh_claims, refresh_key);
    if new_refresh_token.unicode_len() > 0x3FFF_FFFF || store.has_secret(new_refresh_token.as_str())
        || store.id_exhausted() {
        return Err(AuthError::StorageError);
    }
    let hash = store.hash_at(idx);
    let ghost before = store@;
    let consumed = store.consume(hash.as_str());
    proof {
        let s = before;
        old(store).lemma_wf_distinct();
        assert(s[idx as int].hash == hash@ && !s[idx as int].used);
        assert(consumed);
        let i0 = choose|i: int| 0 <= i < s.len() && s[i].hash == hash@ && !s[i].used;
        if i0 != idx {
            assert(s[i0].hash == s[idx as int].hash);
            assert(false);
        }
        assert(store@ == s.update(idx as int, RowView { used: true, ..s[idx as int] }));
    }
    let persisted = store.persist(&refresh_claims, new_refresh_token.as_str(), salt);
    proof {
        let consumed_s = before.update(idx as int, RowView { used: true, ..before[idx as int] });
        if persisted is Err {
            assert(exists|j: int|
                0 <= j < consumed_s.len() && (#[trigger] consumed_s[j]).secret
                    == new_refresh_token@);
            let j = choose|j: int|
                0 <= j < consumed_s.len() && (#[trigger] consumed_s[j]).secret
                    == new_refresh_token@;
            assert(before[j].secret == new_refresh_token@);
            assert(false);
        }
        assert forall|j: int|
            0 <= j < final(store)@.len() implies !(!(#[trigger] final(store)@[j]).used
            && final(store)@[j].secret == presented@) by {
            if j < before.len() {
                if j != idx && !final(store)@[j].used && final(store)@[j].secret == presented@ {
                    assert(final(store)@[j] == before[j]);
                    old(store).lemma_secret_unique(j, idx as int);
                    assert(false);
                }
            } else {
                if final(store)@[j].secret == presented@ {
                    assert(new_refresh_token@ == presented@);
                    assert(before[idx as int].secret == new_refresh_token@);
                    assert(false);
                }
            }
        }
    }
    Ok(NewTokens { new_access_token, new_refresh_token })
}

} // verus!
