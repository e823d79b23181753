//! Salted one-way hashing of secrets: passwords at rest and refresh tokens
//! at rest both go through the same transform.
//!
//! The hash itself is computed by the argon2 backend; this module pins down
//! what the backend guarantees and builds the `HashedSecret` type on top of
//! it, whose `verify` answers exactly "is this candidate the hashed secret?".
use crate::errors::AuthError;
use vstd::prelude::*;

verus! {

/// The encoded hash the argon2 backend produces for a secret and a salt.
/// It is a deterministic function of the two; nothing else is assumed of its
/// shape here.
pub uninterp spec fn argon_hash(secret: Seq<char>, salt: Seq<char>) -> Seq<char>;

/// Whether an encoded hash verifies against a candidate secret: the backend
/// re-computes the hash with the salt embedded in `encoded` and compares.
pub uninterp spec fn argon_matches(encoded: Seq<char>, candidate: Seq<char>) -> bool;

/// The inputs the backend accepts with its default configuration: the salt
/// must be at least 8 bytes, and both inputs must fit in the backend's
/// 32-bit length fields.  Lengths are counted in characters here; a
/// character is at most 4 bytes.
pub open spec fn hash_input_ok(secret: Seq<char>, salt: Seq<char>) -> bool {
    &&& 8 <= salt.len() <= 0x3FFF_FFFF
    &&& secret.len() <= 0x3FFF_FFFF
}

/// Relies on argon2::hash_encoded of rust-argon2: with the default
/// configuration it succeeds exactly when the inputs are within the length
/// bounds above; the encoded result is a deterministic function of secret
/// and salt, embeds the salt, and verifies against exactly the secret that
/// was hashed (the transform is collision-resistant in the secret).
#[verifier::external_body]
fn argon2_hash_encoded(secret: &str, salt: &str) -> (r: Result<String, AuthError>)
    ensures
        hash_input_ok(secret@, salt@) ==> r is Ok,
        r matches Ok(h) ==> h@ == argon_hash(secret@, salt@) && (forall|c: Seq<char>|
            #[trigger] argon_matches(h@, c) <==> c == secret@),
        r matches Err(e) ==> e == AuthError::HashingError,
{
    match argon2::hash_encoded(secret.as_bytes(), salt.as_bytes(), &argon2::Config::default()) {
        Ok(h) => Ok(h),
        Err(_) => Err(AuthError::HashingError),
    }
}

/// Whether a string is an encoding that `argon2::hash_encoded` can produce
/// on inputs within the accepted bounds.
pub open spec fn is_argon_encoding(encoded: Seq<char>) -> bool {
    exists|p: Seq<char>, s: Seq<char>| hash_input_ok(p, s) && encoded == argon_hash(p, s)
}

/// Relies on argon2::verify_encoded of rust-argon2: it decodes `encoded`,
/// re-computes the hash of `candidate` with the decoded salt and parameters,
/// and compares; it fails when `encoded` is not a well-formed encoding or
/// the candidate overruns the backend's 32-bit length field, never on a
/// mere mismatch.  In particular it succeeds on every encoding that
/// argon2::hash_encoded produced, for every candidate within the length
/// bound.
#[verifier::external_body]
fn argon2_verify_encoded(encoded: &str, candidate: &str) -> (r: Result<bool, AuthError>)
    ensures
        r matches Ok(b) ==> b == argon_matches(encoded@, candidate@),
        is_argon_encoding(encoded@) && candidate@.len() <= 0x3FFF_FFFF ==> r is Ok,
        r matches Err(e) ==> e == AuthError::HashingError,
{
    match argon2::verify_encoded(encoded, candidate.as_bytes()) {
        Ok(b) => Ok(b),
        Err(_) => Err(AuthError::HashingError),
    }
}

/// A salted one-way hash of a secret, together with (ghost) knowledge of
/// which secret and salt produced it.  Values of this type only come out of
/// `HashedSecret::hash`, so `verify` can promise an exact answer.
pub struct HashedSecret {
    encoded: String,
    secret: Ghost<Seq<char>>,
    salt: Ghost<Seq<char>>,
}

impl HashedSecret {
    /// The hashed (plaintext) secret.
    pub closed spec fn secret(&self) -> Seq<char> {
        self.secret@
    }

    /// The salt the hash was produced with.
    pub closed spec fn salt(&self) -> Seq<char> {
        self.salt@
    }

    /// The encoded hash at rest.
    pub closed spec fn encoded(&self) -> Seq<char> {
        self.encoded@
    }

    pub closed spec fn wf(&self) -> bool {
        &&& hash_input_ok(self.secret@, self.salt@)
        &&& self.encoded@ == argon_hash(self.secret@, self.salt@)
        &&& forall|c: Seq<char>| #[trigger] argon_matches(self.encoded@, c) <==> c == self.secret@
    }

    /// What well-formedness gives, for use outside this module: the
    /// encoded hash is the salted hash of the secret, the inputs were in
    /// bounds, and the hash verifies against exactly its secret.
    pub proof fn lemma_wf_facts(&self)
        requires
            self.wf(),
        ensures
            self.encoded() == argon_hash(self.secret(), self.salt()),
            hash_input_ok(self.secret(), self.salt()),
            forall|c: Seq<char>| #[trigger] argon_matches(self.encoded(), c) <==> c
                == self.secret(),
    {
    }

    /// Hashes a secret with the given salt.
    pub fn hash(secret: &str, salt: &str) -> (r: Result<HashedSecret, AuthError>)
        ensures
            hash_input_ok(secret@, salt@) ==> (r matches Ok(h) && h.wf() && h.secret() == secret@
                && h.salt() == salt@ && h.encoded() == argon_hash(secret@, salt@)),
            r matches Err(e) ==> e == AuthError::HashingError,
    {
        match argon2_hash_encoded(secret, salt) {
            Ok(h) => Ok(
                HashedSecret { encoded: h, secret: Ghost(secret@), salt: Ghost(salt@) },
            ),
            Err(_) => Err(AuthError::HashingError),
        }
    }

    /// Whether `candidate` is the secret this hash was produced from.
    ///
    /// Hashing a secret and verifying a candidate against the result answers
    /// true exactly on the original secret: equal secrets verify, and any
    /// other candidate is refused.
    pub fn verify(&self, candidate: &str) -> (r: bool)
        requires
            self.wf(),
        ensures
            r == (candidate@ == self.secret()),
    {
        if candidate.unicode_len() > 0x3FFF_FFFF {
            // the backend would refuse it, and no hashed secret is this
            // long, so the candidate cannot be the secret
            proof {
                assert(self.secret@.len() <= 0x3FFF_FFFF);
                assert(candidate@ != self.secret@);
            }
            return false;
        }
        proof {
            assert(hash_input_ok(self.secret@, self.salt@) && self.encoded@ == argon_hash(
                self.secret@,
                self.salt@,
            ));
        }
        match argon2_verify_encoded(self.encoded.as_str(), candidate) {
            Ok(b) => b,
            Err(_) => {
                proof {
                    assert(false);
                }
                false
            },
        }
    }

    /// The encoded hash, as stored at rest.
    pub fn encoded_str(&self) -> (r: &str)
        ensures
            r@ == self.encoded(),
    {
        self.encoded.as_str()
    }

    /// An owned copy carrying the same ghost knowledge.
    pub fn duplicate(&self) -> (r: HashedSecret)
        ensures
            r == *self,
    {
        HashedSecret {
            encoded: self.encoded.clone(),
            secret: Ghost(self.secret@),
            salt: Ghost(self.salt@),
        }
    }
}

/// Verifies a candidate against an encoded hash loaded from storage, about
/// which nothing is known; a hash that is not a well-formed encoding
/// surfaces as `HashingError`.
pub fn verify_stored_hash(encoded: &str, candidate: &str) -> (r: Result<bool, AuthError>)
    ensures
        r matches Ok(b) ==> b == argon_matches(encoded@, candidate@),
        r matches Err(e) ==> e == AuthError::HashingError,
        is_argon_encoding(encoded@) && candidate@.len() <= 0x3FFF_FFFF ==> r is Ok,
{
    argon2_verify_encoded(encoded, candidate)
}

} // verus!
