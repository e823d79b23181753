//! The authentication service around the token lifecycle: the process-wide
//! secrets, registration checks, login, the per-request bearer gate, and
//! logout.
use crate::claims::{
    claims_payload, issued_claims, ClaimsView, TokenClaims, TokenKind, REFRESH_LIFETIME_SECS,
};
use crate::codec::{
    b64url_of, dot_free, hmac_key_ok, hmac_key_usable, sign_token, token_of, verify_token,
};
use crate::errors::{payload_is, AuthError, ValidationError};
use crate::hashing::{argon_hash, argon_matches, is_argon_encoding, verify_stored_hash};
use crate::models::{LoginData, RegisterData, UserDB};
use crate::rotation::storage_block;
use crate::store::{has_usable_match, RowView, SessionStore};
use crate::text::str_eq;
use crate::validation::{
    email_ok, format_validation_errors, is_valid_email, name_ok, password_len_ok, password_ok,
    password_strong, registration_ok,
};
use vstd::prelude::*;

verus! {

/// The three process-wide secrets, loaded once at startup: the hashing
/// salt and the two signing keys.  The salt is long enough for the hashing
/// backend; the two keys are distinct and within the class the MAC keeps
/// apart (at most 64 single-byte, non-zero characters), so a token signed
/// for one class can never verify as the other.
pub struct Secrets {
    salt: String,
    access_key: String,
    refresh_key: String,
}

impl Secrets {
    pub closed spec fn salt(&self) -> Seq<char> {
        self.salt@
    }

    pub closed spec fn access_key(&self) -> Seq<char> {
        self.access_key@
    }

    pub closed spec fn refresh_key(&self) -> Seq<char> {
        self.refresh_key@
    }

    pub closed spec fn wf(&self) -> bool {
        &&& 8 <= self.salt@.len() <= 0x3FFF_FFFF
        &&& self.access_key@ != self.refresh_key@
        &&& hmac_key_ok(self.access_key@)
        &&& hmac_key_ok(self.refresh_key@)
    }

    /// What well-formedness gives, for use outside this module.
    pub proof fn lemma_wf_facts(&self)
        requires
            self.wf(),
        ensures
            8 <= self.salt().len() <= 0x3FFF_FFFF,
            self.access_key() != self.refresh_key(),
            hmac_key_ok(self.access_key()),
            hmac_key_ok(self.refresh_key()),
    {
    }

    /// Accepts the three secrets when the salt is usable and the two keys
    /// are distinct and within the MAC's injective class; a configuration
    /// that fails here must abort startup.
    pub fn new(salt: String, access_key: String, refresh_key: String) -> (r: Option<Secrets>)
        ensures
            r matches Some(s) ==> s.wf() && s.salt() == salt@ && s.access_key() == access_key@
                && s.refresh_key() == refresh_key@,
            r is None <==> !(8 <= salt@.len() <= 0x3FFF_FFFF) || access_key@ == refresh_key@
                || !hmac_key_ok(access_key@) || !hmac_key_ok(refresh_key@),
    {
        let n = salt.unicode_len();
        if n < 8 || n > 0x3FFF_FFFF {
            return None;
        }
        if str_eq(access_key.as_str(), refresh_key.as_str()) {
            return None;
        }
        if !hmac_key_usable(access_key.as_str()) || !hmac_key_usable(refresh_key.as_str()) {
            return None;
        }
        Some(Secrets { salt, access_key, refresh_key })
    }

    /// The salt, for the hashing paths.
    pub fn get_salt(&self) -> (r: String)
        ensures
            r@ == self.salt(),
    {
        self.salt.clone()
    }

    /// The access-token signing key.
    pub fn get_access_key(&self) -> (r: String)
        ensures
            r@ == self.access_key(),
    {
        self.access_key.clone()
    }

    /// The refresh-token signing key.
    pub fn get_refresh_key(&self) -> (r: String)
        ensures
            r@ == self.refresh_key(),
    {
        self.refresh_key.clone()
    }

    pub fn salt_str(&self) -> (r: &str)
        ensures
            r@ == self.salt(),
    {
        self.salt.as_str()
    }

    pub fn access_key_str(&self) -> (r: &str)
        ensures
            r@ == self.access_key(),
    {
        self.access_key.as_str()
    }

    pub fn refresh_key_str(&self) -> (r: &str)
        ensures
            r@ == self.refresh_key(),
    {
        self.refresh_key.as_str()
    }
}

/// The pair a successful login returns.
#[derive(Debug)]
pub struct Tokens {
    pub access_token: String,
    pub refresh_token: String,
}

/// The Authorization header of a login request, as the transport handed it
/// over: absent, present but not text, or its text.
pub enum AuthHeader {
    Absent,
    NotText,
    Text(String),
}

/// Whether a header value carries the literal `Bearer ` scheme prefix.
pub open spec fn bearer_prefixed(h: Seq<char>) -> bool {
    h.len() >= 7 && h.subrange(0, 7) == "Bearer "@
}

/// Checks registration input and hashes the password for storage.
///
/// Succeeds exactly on a payload that passes the field rules and does not
/// collide with an existing user; the result is the password hash the user
/// row is created with.
pub fn register(payload: &RegisterData, user_exists: bool, salt: &str) -> (r: Result<
    String,
    ValidationError,
>)
    requires
        8 <= salt@.len() <= 0x3FFF_FFFF,
    ensures
        r is Ok <==> registration_ok(payload.name@, payload.password@, payload.email@)
            && !user_exists,
        r matches Ok(h) ==> h@ == argon_hash(payload.password@, salt@),
        !registration_ok(payload.name@, payload.password@, payload.email@) ==> (r matches Err(e)
            && ({
            let pidx: int = if name_ok(payload.name@) { 0 } else { 1 };
            let eidx: int = pidx + if password_ok(payload.password@) { 0int } else { 1 };
            &&& e.error@ == "Validation failed"@
            &&& e.details@.len() == (if name_ok(payload.name@) { 0int } else { 1 }) + (if password_ok(payload.password@) { 0int } else { 1 }) + (if email_ok(payload.email@) { 0int } else { 1 })
            &&& !name_ok(payload.name@) ==> e.details@[0].field@ == "name"@
                && e.details@[0].messages@.len() == 1 && e.details@[0].messages@[0]@
                == "Name must be between 3 and 48 characters"@
            &&& !password_ok(payload.password@) ==> e.details@[pidx].field@ == "password"@
            &&& !password_len_ok(payload.password@) ==> e.details@[pidx].messages@[0]@
                == "Password must be between 8 and 128 characters"@
            &&& password_len_ok(payload.password@) && !password_strong(payload.password@)
                ==> e.details@[pidx].messages@.len() == 1 && e.details@[pidx].messages@[0]@
                == "Password must contain at least one uppercase letter, one lowercase letter, one digit, and one special character"@
            &&& !password_len_ok(payload.password@) && !password_strong(payload.password@)
                ==> e.details@[pidx].messages@.len() == 2 && e.details@[pidx].messages@[1]@
                == "Password must contain at least one uppercase letter, one lowercase letter, one digit, and one special character"@
            &&& !password_len_ok(payload.password@) && password_strong(payload.password@)
                ==> e.details@[pidx].messages@.len() == 1
            &&& !email_ok(payload.email@) ==> e.details@[eidx].field@ == "email"@
            &&& !is_valid_email(payload.email@) ==> e.details@[eidx].messages@[0]@
                == "Invalid email format"@
            &&& is_valid_email(payload.email@) && payload.email@.len() > 254
                ==> e.details@[eidx].messages@.len() == 1 && e.details@[eidx].messages@[0]@
                == "Email is too long"@
            &&& !is_valid_email(payload.email@) && payload.email@.len() > 254
                ==> e.details@[eidx].messages@.len() == 2 && e.details@[eidx].messages@[1]@
                == "Email is too long"@
            &&& !is_valid_email(payload.email@) && payload.email@.len() <= 254
                ==> e.details@[eidx].messages@.len() == 1
        })),
        registration_ok(payload.name@, payload.password@, payload.email@) && user_exists ==> (
        r matches Err(e) && payload_is(
            e,
            "Validation failed"@,
            "user"@,
            "User with this name or email already exists"@,
        )),
{
    if let Err(e) = format_validation_errors(
        payload.name.as_str(),
        payload.password.as_str(),
        payload.email.as_str(),
    ) {
        return Err(e);
    }
    if user_exists {
        return Err(
            ValidationError::single(
                "Validation failed",
                "user",
                "User with this name or email already exists",
            ),
        );
    }
    let hashed = match crate::hashing::HashedSecret::hash(payload.password.as_str(), salt) {
        Ok(h) => h,
        Err(_) => {
            proof {
                assert(false);
            }
            return Err(ValidationError::single("Internal error", "password", "Hashing failed"));
        },
    };
    proof {
        hashed.lemma_wf_facts();
    }
    Ok(hashed.encoded_str().to_owned())
}

/// The per-request gate: the Authorization header must carry the literal
/// `Bearer ` prefix, and the rest must verify as an unexpired token under
/// the access key — never under the refresh key or any other.  On success
/// the recovered claims are handed to the downstream handler; every failure
/// is the same `Unauthorized` rejection.
pub fn auth_middleware(header: Option<&str>, access_key: &str, now: i64) -> (r: Result<
    TokenClaims,
    AuthError,
>)
    ensures
        r matches Err(e) ==> e == AuthError::Unauthorized,
        header is None ==> r is Err,
        r matches Ok(c) ==> (header matches Some(h) && bearer_prefixed(h@) && h@.subrange(
            7,
            h@.len() as int,
        ) == token_of(c@, access_key@) && c@.exp >= now),
        forall|c: ClaimsView|
            (header matches Some(h) && c.wf() && dot_free(b64url_of(claims_payload(c)))
                && bearer_prefixed(h@) && h@.subrange(7, h@.len() as int) == #[trigger] token_of(
                c,
                access_key@,
            ) && c.exp >= now) ==> (r matches Ok(rc) && rc@ == c),
        forall|c: ClaimsView, k: Seq<char>|
            (header matches Some(h) && c.wf() && dot_free(b64url_of(claims_payload(c)))
                && hmac_key_ok(access_key@) && hmac_key_ok(k) && bearer_prefixed(h@) && h@.subrange(
                7,
                h@.len() as int,
            ) == #[trigger] token_of(c, k) && r is Ok) ==> k == access_key@,
{
    let h = match header {
        Some(h) => h,
        None => {
            return Err(AuthError::Unauthorized);
        },
    };
    let n = h.unicode_len();
    if n < 7 {
        return Err(AuthError::Unauthorized);
    }
    let prefix = h.substring_char(0, 7);
    if !str_eq(prefix, "Bearer ") {
        return Err(AuthError::Unauthorized);
    }
    let token = h.substring_char(7, n);
    match verify_token(token, access_key, now) {
        Ok(c) => Ok(c),
        Err(_) => Err(AuthError::Unauthorized),
    }
}

/// Login: header gate, credential check, token pair issuance.
///
/// A request that already carries an Authorization header is refused before
/// any credential is looked at.  An unknown email and a wrong password
/// produce one and the same rejection, so the response does not reveal
/// whether the email exists.  On success a fresh access/refresh pair is
/// issued at `now` and the refresh token's hash is persisted as an unused
/// row.
pub fn login(
    store: &mut SessionStore,
    secrets: &Secrets,
    header: &AuthHeader,
    user: Option<&UserDB>,
    payload: &LoginData,
    now: i64,
    jti_access: String,
    jti_refresh: String,
) -> (r: Result<Tokens, (u16, ValidationError)>)
    requires
        old(store).wf(),
        secrets.wf(),
        old(store).salt() == secrets.salt(),
        now <= i64::MAX - REFRESH_LIFETIME_SECS,
    ensures
        final(store).wf(),
        final(store).salt() == old(store).salt(),
        r is Err ==> final(store)@ == old(store)@,
        header matches AuthHeader::Text(h) && bearer_prefixed(h@) ==> (r matches Err(e) && e.0
            == 409 && payload_is(
            e.1,
            "Authorization error"@,
            "Authorization"@,
            "Already authorized"@,
        )),
        header matches AuthHeader::Text(h) && !bearer_prefixed(h@) ==> (r matches Err(e) && e.0
            == 409 && payload_is(e.1, "Authorization error"@, "Authorization"@, "Not bearer"@)),
        header is NotText ==> (r matches Err(e) && e.0 == 400 && payload_is(
            e.1,
            "Authorization error"@,
            "Authorization"@,
            "Header not valid UTF-8"@,
        )),
        header is Absent && user is None ==> (r matches Err(e) && e.0 == 400 && payload_is(
            e.1,
            "Authentication failed"@,
            "credentials"@,
            "Wrong password or email"@,
        )),
        header is Absent && (user matches Some(u) && !argon_matches(u.password@, payload.password@))
            ==> (r matches Err(e) && ((e.0 == 400 && payload_is(
            e.1,
            "Authentication failed"@,
            "credentials"@,
            "Wrong password or email"@,
        )) || e.0 == 500)),
        header is Absent && (user matches Some(u) && is_argon_encoding(u.password@)
            && payload.password@.len() <= 0x3FFF_FFFF && !argon_matches(
            u.password@,
            payload.password@,
        )) ==> (r matches Err(e) && e.0 == 400 && payload_is(
            e.1,
            "Authentication failed"@,
            "credentials"@,
            "Wrong password or email"@,
        )),
        header is Absent && (user matches Some(u) && is_argon_encoding(u.password@)
            && payload.password@.len() <= 0x3FFF_FFFF && argon_matches(
            u.password@,
            payload.password@,
        ) && !storage_block(
            old(store)@,
            old(store).next_id(),
            token_of(
                issued_claims(
                    u.id as int,
                    u.name@,
                    u.email@,
                    TokenKind::Refresh,
                    now as int,
                    jti_refresh@,
                ),
                secrets.refresh_key(),
            ),
        )) ==> r is Ok,
        r matches Ok(t) ==> (header is Absent && (user matches Some(u) && argon_matches(
            u.password@,
            payload.password@,
        ) && t.access_token@ == token_of(
            issued_claims(
                u.id as int,
                u.name@,
                u.email@,
                TokenKind::Access,
                now as int,
                jti_access@,
            ),
            secrets.access_key(),
        ) && t.refresh_token@ == token_of(
            issued_claims(
                u.id as int,
                u.name@,
                u.email@,
                TokenKind::Refresh,
                now as int,
                jti_refresh@,
            ),
            secrets.refresh_key(),
        ) && final(store)@ == old(store)@.push(
            RowView {
                id: old(store).next_id(),
                hash: argon_hash(t.refresh_token@, secrets.salt()),
                secret: t.refresh_token@,
                name: u.name@,
                email: u.email@,
                user_id: u.id as int,
                exp: now + REFRESH_LIFETIME_SECS,
                used: false,
            },
        ))),
{
    match header {
        AuthHeader::Text(h) => {
            let n = h.unicode_len();
            let bearer = if n >= 7 {
                str_eq(h.substring_char(0, 7), "Bearer ")
            } else {
                false
            };
            if bearer {
                return Err(
                    (
                        409,
                        ValidationError::single(
                            "Authorization error",
                            "Authorization",
                            "Already authorized",
                        ),
                    ),
                );
            } else {
                return Err(
                    (
                        409,
                        ValidationError::single(
                            "Authorization error",
                            "Authorization",
                            "Not bearer",
                        ),
                    ),
                );
            }
        },
        AuthHeader::NotText => {
            return Err(
                (
                    400,
                    ValidationError::single(
                        "Authorization error",
                        "Authorization",
                        "Header not valid UTF-8",
                    ),
                ),
            );
        },
        AuthHeader::Absent => {},
    }
    let u = match user {
        Some(u) => u,
        None => {
            return Err(
                (
                    400,
                    ValidationError::single(
                        "Authentication failed",
                        "credentials",
                        "Wrong password or email",
                    ),
                ),
            );
        },
    };
    let is_correct = match verify_stored_hash(u.password.as_str(), payload.password.as_str()) {
        Ok(b) => b,
        Err(_) => {
            return Err(
                (
                    500,
                    ValidationError::single(
                        "Internal error",
                        "credentials",
                        "Stored credentials are unreadable",
                    ),
                ),
            );
        },
    };
    if !is_correct {
        return Err(
            (
                400,
                ValidationError::single(
                    "Authentication failed",
                    "credentials",
                    "Wrong password or email",
                ),
            ),
        );
    }
    let access_claims = TokenClaims::issue(
        u.id,
        u.name.as_str(),
        u.email.as_str(),
        TokenKind::Access,
        now,
        jti_access,
    );
    let access_token = sign_token(&access_claims, secrets.access_key_str());
    let refresh_claims = TokenClaims::issue(
        u.id,
        u.name.as_str(),
        u.email.as_str(),
        TokenKind::Refresh,
        now,
        jti_refresh,
    );
    let refresh_token = sign_token(&refresh_claims, secrets.refresh_key_str());
    proof {
        secrets.lemma_wf_facts();
    }
    if refresh_token.unicode_len() > 0x3FFF_FFFF || store.has_secret(refresh_token.as_str())
        || store.id_exhausted() {
        return Err(
            (500, ValidationError::single("Database error", "database", "Failed to add token")),
        );
    }
    let persisted = store.persist(&refresh_claims, refresh_token.as_str(), secrets.salt_str());
    proof {
        if persisted is Err {
            assert(false);
        }
    }
    Ok(Tokens { access_token, refresh_token })
}

/// Logout: revokes the stored row of the presented refresh token, if any.
///
/// Revoking is idempotent — deleting nothing is not an error — and after it
/// no stored row for this token remains, so a later rotation presenting the
/// same token cannot find a usable row and fails.
pub fn logout(store: &mut SessionStore, presented: &str)
    requires
        old(store).wf(),
    ensures
        final(store).wf(),
        final(store).salt() == old(store).salt(),
        forall|j: int| 0 <= j < final(store)@.len() ==> (#[trigger] final(store)@[j]).secret
            != presented@,
        (forall|j: int| 0 <= j < old(store)@.len() ==> (#[trigger] old(store)@[j]).secret
            != presented@) ==> final(store)@ == old(store)@,
        forall|i: int|
            0 <= i < old(store)@.len() && old(store)@[i].secret == presented@ ==> final(store)@
                == old(store)@.remove(i),
        forall|uid: int| !has_usable_match(final(store)@, uid, presented@),
{
    store.revoke(presented);
    proof {
        assert forall|uid: int| !has_usable_match(final(store)@, uid, presented@) by {
            if has_usable_match(final(store)@, uid, presented@) {
                let i = choose|i: int|
                    0 <= i < final(store)@.len() && crate::store::usable_match(
                        #[trigger] final(store)@[i],
                        uid,
                        presented@,
                    );
                assert(final(store)@[i].secret == presented@);
                assert(false);
            }
        }
    }
}

} // verus!
