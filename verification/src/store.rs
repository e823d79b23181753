//! The session store: the table of issued refresh tokens, hashed at rest.
//!
//! Each row holds the salted hash of a signed refresh-token string, the
//! owner's identity snapshot, and a `used` flag.  A row is consumed (used
//! set) by a single compare-and-set that fails on an already-consumed row,
//! which is what makes refresh tokens single-use even under concurrency.
use crate::claims::TokenClaims;
use crate::errors::AuthError;
use crate::hashing::{argon_hash, hash_input_ok, HashedSecret};
use crate::models::DBToken;
use crate::text::str_eq;
use vstd::prelude::*;

verus! {

/// One stored refresh-token row.
pub struct TokenRecord {
    pub id: i64,
    pub token: HashedSecret,
    pub name: String,
    pub email: String,
    pub user_id: i64,
    pub exp: i64,
    pub used: bool,
}

/// The mathematical value of a stored row: its hash column, the (ghost)
/// plaintext the hash was made from, the identity snapshot, and the flag.
#[verifier::ext_equal]
pub ghost struct RowView {
    pub id: int,
    pub hash: Seq<char>,
    pub secret: Seq<char>,
    pub name: Seq<char>,
    pub email: Seq<char>,
    pub user_id: int,
    pub exp: int,
    pub used: bool,
}

impl View for TokenRecord {
    type V = RowView;

    open spec fn view(&self) -> RowView {
        RowView {
            id: self.id as int,
            hash: self.token.encoded(),
            secret: self.token.secret(),
            name: self.name@,
            email: self.email@,
            user_id: self.user_id as int,
            exp: self.exp as int,
            used: self.used,
        }
    }
}

/// A row that a rotation for `user_id` presenting `t` may consume.
pub open spec fn usable_match(row: RowView, user_id: int, t: Seq<char>) -> bool {
    !row.used && row.user_id == user_id && row.secret == t
}

/// Whether some row of `s` is consumable by `user_id` presenting `t`.
pub open spec fn has_usable_match(s: Seq<RowView>, user_id: int, t: Seq<char>) -> bool {
    exists|i: int| 0 <= i < s.len() && usable_match(s[i], user_id, t)
}

/// No two rows share a hash (the hash column is unique).
pub open spec fn distinct_hashes(s: Seq<RowView>) -> bool {
    forall|a: int, b: int| 0 <= a < b < s.len() ==> s[a].hash != s[b].hash
}

/// The compare-and-set that consumes a row: if an unused row carries the
/// hash, that row's `used` flag is set and the operation reports success;
/// otherwise the store is unchanged and it reports failure.
pub open spec fn consume_spec(s: Seq<RowView>, hash: Seq<char>) -> (Seq<RowView>, bool) {
    if exists|i: int| 0 <= i < s.len() && s[i].hash == hash && !s[i].used {
        let i = choose|i: int| 0 <= i < s.len() && s[i].hash == hash && !s[i].used;
        (s.update(i, RowView { used: true, ..s[i] }), true)
    } else {
        (s, false)
    }
}

/// One compare-and-set consumption per row, ever: after a consumption of
/// `hash` succeeds, a second consumption of the same `hash` fails.
///
/// Two concurrent rotations presenting one token serialize at this
/// compare-and-set, in some order; whichever runs second fails, so exactly
/// one of the two can succeed.
pub proof fn lemma_consume_once(s: Seq<RowView>, hash: Seq<char>)
    requires
        distinct_hashes(s),
    ensures
        ({
            let (s1, ok1) = consume_spec(s, hash);
            let (s2, ok2) = consume_spec(s1, hash);
            ok1 ==> !ok2
        }),
{
    let (s1, ok1) = consume_spec(s, hash);
    if ok1 {
        let i = choose|i: int| 0 <= i < s.len() && s[i].hash == hash && !s[i].used;
        assert(s1 == s.update(i, RowView { used: true, ..s[i] }));
        if exists|j: int| 0 <= j < s1.len() && s1[j].hash == hash && !s1[j].used {
            let j = choose|j: int| 0 <= j < s1.len() && s1[j].hash == hash && !s1[j].used;
            assert(j != i);
            assert(s1[j] == s[j]);
            assert(s[i].hash == s[j].hash);
            assert(false);
        }
    }
}

/// The persisted table of refresh tokens for one process-wide salt.
pub struct SessionStore {
    rows: Vec<TokenRecord>,
    next_id: i64,
    salt: Ghost<Seq<char>>,
}

impl View for SessionStore {
    type V = Seq<RowView>;

    closed spec fn view(&self) -> Seq<RowView> {
        self.rows@.map(|i: int, r: TokenRecord| r@)
    }
}

impl SessionStore {
    /// What well-formedness gives for one row: its hash column is the
    /// salted hash of its (ghost) plaintext, and verifies against exactly
    /// that plaintext.
    pub proof fn lemma_row_facts(&self, i: int)
        requires
            self.wf(),
            0 <= i < self@.len(),
        ensures
            self@[i].hash == argon_hash(self@[i].secret, self.salt()),
            forall|c: Seq<char>| #[trigger]
                crate::hashing::argon_matches(self@[i].hash, c) <==> c == self@[i].secret,
            hash_input_ok(self@[i].secret, self.salt()),
    {
        assert(self@[i] == self.rows@[i]@);
        assert(self.rows@[i].token.wf());
        self.rows@[i].token.lemma_wf_facts();
    }

    /// A well-formed store's hash column is unique.
    pub proof fn lemma_wf_distinct(&self)
        requires
            self.wf(),
        ensures
            distinct_hashes(self@),
    {
    }

    /// Two rows of a well-formed store never hash the same plaintext.
    pub proof fn lemma_secret_unique(&self, a: int, b: int)
        requires
            self.wf(),
            0 <= a < self@.len(),
            0 <= b < self@.len(),
            self@[a].secret == self@[b].secret,
        ensures
            a == b,
    {
        self.lemma_row_facts(a);
        self.lemma_row_facts(b);
        assert(self@[a].hash == self@[b].hash);
    }

    /// The salt every stored hash was produced with.
    pub closed spec fn salt(&self) -> Seq<char> {
        self.salt@
    }

    /// The id the next persisted row receives.
    pub closed spec fn next_id(&self) -> int {
        self.next_id as int
    }

    pub closed spec fn wf(&self) -> bool {
        &&& distinct_hashes(self@)
        &&& forall|i: int|
            0 <= i < self.rows@.len() ==> (#[trigger] self.rows@[i]).token.wf()
                && self.rows@[i].token.salt() == self.salt@
        &&& 0 <= self.next_id
    }

    /// An empty store for the given salt.
    pub fn new(salt: &str) -> (r: SessionStore)
        ensures
            r.wf(),
            r@ == Seq::<RowView>::empty(),
            r.salt() == salt@,
    {
        let r = SessionStore { rows: Vec::new(), next_id: 0, salt: Ghost(salt@) };
        proof {
            assert(r@ =~= Seq::<RowView>::empty());
        }
        r
    }

    /// The number of rows.
    pub fn len(&self) -> (r: usize)
        ensures
            r == self@.len(),
    {
        self.rows.len()
    }

    /// Persists the hash of a freshly issued refresh token, with the
    /// identity snapshot from its claims.  Fails, leaving the store as it
    /// was, exactly when the hash collides with a stored row's hash (the
    /// hash column is unique) or the id space is exhausted.
    pub fn persist(&mut self, claims: &TokenClaims, plaintext: &str, salt: &str) -> (r: Result<
        (),
        AuthError,
    >)
        requires
            old(self).wf(),
            salt@ == old(self).salt(),
            hash_input_ok(plaintext@, salt@),
        ensures
            final(self).wf(),
            final(self).salt() == old(self).salt(),
            r is Ok ==> final(self)@ == old(self)@.push(
                RowView {
                    id: old(self).next_id(),
                    hash: argon_hash(plaintext@, salt@),
                    secret: plaintext@,
                    name: claims@.name,
                    email: claims@.email,
                    user_id: claims@.user_id,
                    exp: claims@.exp,
                    used: claims@.used,
                },
            ),
            r is Err ==> final(self)@ == old(self)@,
            r is Err <==> ((exists|j: int|
                0 <= j < old(self)@.len() && (#[trigger] old(self)@[j]).secret == plaintext@)
                || old(self).next_id() == i64::MAX),
            r matches Err(e) ==> e == AuthError::StorageError,
    {
        let hashed = match HashedSecret::hash(plaintext, salt) {
            Ok(h) => h,
            Err(_) => {
                proof {
                    assert(false);
                }
                return Err(AuthError::StorageError);
            },
        };
        let n = self.rows.len();
        let mut j: usize = 0;
        while j < n
            invariant
                j <= n,
                n == self.rows@.len(),
                hashed.wf() && hashed.secret() == plaintext@ && hashed.salt() == salt@,
                forall|k: int| 0 <= k < j ==> (#[trigger] self@[k]).secret != plaintext@,
                self.wf(),
                salt@ == self.salt(),
            decreases n - j,
        {
            let same = str_eq(self.rows[j].token.encoded_str(), hashed.encoded_str());
            proof {
                self.lemma_row_facts(j as int);
                hashed.lemma_wf_facts();
                assert(self@[j as int].hash == self.rows@[j as int].token.encoded());
                if same {
                    assert(crate::hashing::argon_matches(hashed.encoded(), plaintext@));
                    assert(crate::hashing::argon_matches(self@[j as int].hash, plaintext@));
                    assert(self@[j as int].secret == plaintext@);
                } else {
                    if self@[j as int].secret == plaintext@ {
                        assert(self@[j as int].hash == argon_hash(plaintext@, salt@));
                        assert(hashed.encoded() == argon_hash(plaintext@, salt@));
                        assert(false);
                    }
                }
            }
            if same {
                return Err(AuthError::StorageError);
            }
            j = j + 1;
        }
        if self.next_id == i64::MAX {
            return Err(AuthError::StorageError);
        }
        let id = self.next_id;
        self.next_id = self.next_id + 1;
        let record = TokenRecord {
            id,
            token: hashed,
            name: claims.name.clone(),
            email: claims.email.clone(),
            user_id: claims.user_id,
            exp: claims.exp,
            used: claims.used,
        };
        self.rows.push(record);
        proof {
            assert(final(self)@ =~= old(self)@.push(
                RowView {
                    id: old(self).next_id(),
                    hash: argon_hash(plaintext@, salt@),
                    secret: plaintext@,
                    name: claims@.name,
                    email: claims@.email,
                    user_id: claims@.user_id,
                    exp: claims@.exp,
                    used: claims@.used,
                },
            ));
            assert forall|a: int, b: int| 0 <= a < b < final(self)@.len() implies final(self)@[a].hash
                != final(self)@[b].hash by {
                if b == final(self)@.len() - 1 {
                    if final(self)@[a].hash == final(self)@[b].hash {
                        old(self).lemma_row_facts(a);
                        hashed.lemma_wf_facts();
                        assert(final(self)@[a] == old(self)@[a]);
                        assert(final(self)@[b].hash == argon_hash(plaintext@, salt@));
                        assert(crate::hashing::argon_matches(old(self)@[a].hash, plaintext@));
                        assert(old(self)@[a].secret == plaintext@);
                        assert(false);
                    }
                } else {
                    assert(final(self)@[a] == old(self)@[a]);
                    assert(final(self)@[b] == old(self)@[b]);
                }
            }
        }
        Ok(())
    }

    /// The encoded hash stored in row `i`.
    pub fn hash_at(&self, i: usize) -> (r: String)
        requires
            i < self@.len(),
        ensures
            r@ == self@[i as int].hash,
    {
        self.rows[i].token.encoded_str().to_owned()
    }

    /// The identity snapshot of row `i`, as claims-like plain values.
    pub fn row_user_id(&self, i: usize) -> (r: i64)
        requires
            i < self@.len(),
        ensures
            r == self@[i as int].user_id,
    {
        self.rows[i].user_id
    }

    /// Row `i` in its plain at-rest shape, as a persistence layer would
    /// store it.
    pub fn row_at(&self, i: usize) -> (r: DBToken)
        requires
            i < self@.len(),
        ensures
            r.id == self@[i as int].id,
            r.token@ == self@[i as int].hash,
            r.name@ == self@[i as int].name,
            r.email@ == self@[i as int].email,
            r.user_id == self@[i as int].user_id,
            r.exp == self@[i as int].exp,
            r.used == self@[i as int].used,
    {
        let rec = &self.rows[i];
        DBToken {
            id: rec.id,
            token: rec.token.encoded_str().to_owned(),
            name: rec.name.clone(),
            email: rec.email.clone(),
            user_id: rec.user_id,
            exp: rec.exp,
            used: rec.used,
        }
    }

    /// Looks for an unused row of `user_id` whose stored hash verifies
    /// against the presented plaintext.
    pub fn find_usable_match(&self, user_id: i64, presented: &str) -> (r: Option<usize>)
        requires
            self.wf(),
        ensures
            r matches Some(i) ==> i < self@.len() && usable_match(
                self@[i as int],
                user_id as int,
                presented@,
            ),
            r is None ==> !has_usable_match(self@, user_id as int, presented@),
    {
        let n = self.rows.len();
        let mut j: usize = 0;
        while j < n
            invariant
                j <= n,
                n == self.rows@.len(),
                self.wf(),
                forall|k: int|
                    0 <= k < j ==> !usable_match(#[trigger] self@[k], user_id as int, presented@),
            decreases n - j,
        {
            if !self.rows[j].used && self.rows[j].user_id == user_id {
                proof {
                    assert(self.rows@[j as int].token.wf());
                }
                if self.rows[j].token.verify(presented) {
                    return Some(j);
                }
            }
            j = j + 1;
        }
        None
    }

    /// Whether some row's hash was made from this plaintext (used or not):
    /// the unique-hash constraint would refuse persisting it again.
    pub fn has_secret(&self, plaintext: &str) -> (r: bool)
        requires
            self.wf(),
        ensures
            r == exists|j: int| 0 <= j < self@.len() && (#[trigger] self@[j]).secret == plaintext@,
    {
        let n = self.rows.len();
        let mut j: usize = 0;
        while j < n
            invariant
                j <= n,
                n == self.rows@.len(),
                self.wf(),
                forall|k: int| 0 <= k < j ==> (#[trigger] self@[k]).secret != plaintext@,
            decreases n - j,
        {
            proof {
                assert(self.rows@[j as int].token.wf());
                assert(self@[j as int] == self.rows@[j as int]@);
            }
            if self.rows[j].token.verify(plaintext) {
                proof {
                    assert(self@[j as int].secret == plaintext@);
                }
                return true;
            }
            j = j + 1;
        }
        false
    }

    /// Whether the id space is exhausted.
    pub fn id_exhausted(&self) -> (r: bool)
        ensures
            r == (self.next_id() == i64::MAX),
    {
        self.next_id == i64::MAX
    }

    /// Atomically consumes the unused row carrying `encoded`, if any: the
    /// compare-and-set `consume_spec` describes.
    pub fn consume(&mut self, encoded: &str) -> (r: bool)
        requires
            old(self).wf(),
        ensures
            final(self).wf(),
            final(self).salt() == old(self).salt(),
            final(self).next_id() == old(self).next_id(),
            (final(self)@, r) == consume_spec(old(self)@, encoded@),
    {
        let n = self.rows.len();
        let mut j: usize = 0;
        while j < n
            invariant
                j <= n,
                n == self.rows@.len(),
                self.wf(),
                self == old(self),
                forall|k: int|
                    0 <= k < j ==> !((#[trigger] self@[k]).hash == encoded@ && !self@[k].used),
            decreases n - j,
        {
            let hit = !self.rows[j].used && str_eq(self.rows[j].token.encoded_str(), encoded);
            if hit {
                let rec = vstd::std_specs::vec::vec_index_mut(&mut self.rows, j);
                rec.used = true;
                proof {
                    let s = old(self)@;
                    let i0 = choose|i: int| 0 <= i < s.len() && s[i].hash == encoded@ && !s[i].used;
                    assert(0 <= j < s.len() && s[j as int].hash == encoded@ && !s[j as int].used);
                    if i0 != j {
                        assert(s[i0].hash == s[j as int].hash);
                        assert(false);
                    }
                    assert(final(self)@ =~= s.update(
                        j as int,
                        RowView { used: true, ..s[j as int] },
                    ));
                }
                return true;
            }
            j = j + 1;
        }
        proof {
            assert(final(self)@ =~= old(self)@);
        }
        false
    }

    /// Removes every row whose stored hash verifies against the presented
    /// token (the logout path).  Removing nothing is not an error; after
    /// the call no row for this plaintext remains, whether or not one was
    /// there.
    pub fn revoke(&mut self, presented: &str)
        requires
            old(self).wf(),
        ensures
            final(self).wf(),
            final(self).salt() == old(self).salt(),
            forall|j: int| 0 <= j < final(self)@.len() ==> (#[trigger] final(self)@[j]).secret
                != presented@,
            (forall|j: int| 0 <= j < old(self)@.len() ==> (#[trigger] old(self)@[j]).secret
                != presented@) ==> final(self)@ == old(self)@,
            forall|i: int|
                0 <= i < old(self)@.len() && old(self)@[i].secret == presented@ ==> final(self)@
                    == old(self)@.remove(i),
    {
        let n = self.rows.len();
        let mut j: usize = 0;
        while j < n
            invariant
                j <= n,
                n == self.rows@.len(),
                self.wf(),
                self == old(self),
                forall|k: int| 0 <= k < j ==> (#[trigger] self@[k]).secret != presented@,
            decreases n - j,
        {
            proof {
                assert(self.rows@[j as int].token.wf());
            }
            if self.rows[j].token.verify(presented) {
                self.rows.remove(j);
                proof {
                    let s = old(self)@;
                    assert(s[j as int].secret == presented@);
                    assert(final(self)@ =~= s.remove(j as int));
                    assert forall|i: int|
                        0 <= i < s.len() && s[i].secret == presented@ implies final(self)@
                        == s.remove(i) by {
                        if i != j {
                            old(self).lemma_secret_unique(i, j as int);
                        }
                    }
                    assert forall|k: int|
                        0 <= k < final(self)@.len() implies (#[trigger] final(self)@[k]).secret
                        != presented@ by {
                        if k < j {
                            assert(final(self)@[k] == s[k]);
                        } else {
                            assert(final(self)@[k] == s[k + 1]);
                            if s[k + 1].secret == presented@ {
                                old(self).lemma_secret_unique(k + 1, j as int);
                                assert(false);
                            }
                        }
                    }
                }
                return ;
            }
            j = j + 1;
        }
        proof {
            assert(final(self)@ =~= old(self)@);
        }
    }
}

} // verus!
