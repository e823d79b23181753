//! Token claims and their canonical text encoding.
//!
//! A claim set is encoded as seven fields in fixed order: the string fields
//! are length-prefixed (`len:value,`), the numeric fields are signed decimal
//! (`digits,`), the flag is `0,` or `1,`.  The encoding is canonical: parsing
//! recovers exactly the claims that were rendered, and nothing else parses.
use crate::text::{
    dec_of, i64_to_string, int_of, is_digit, lemma_chop, lemma_dec_of_digits, parse_digits,
    push_dec, str_chars, str_eq,
};
use vstd::prelude::*;

verus! {

/// Which signing key a token is made for: short-lived access tokens or
/// long-lived refresh tokens.
#[derive(Clone, Copy, Debug, PartialEq, Eq, Structural)]
pub enum TokenKind {
    Access,
    Refresh,
}

/// Access tokens live five minutes.
pub const ACCESS_LIFETIME_SECS: i64 = 300;

/// Refresh tokens live seven days.
pub const REFRESH_LIFETIME_SECS: i64 = 604800;

/// The claim set embedded in a signed token.
#[derive(Debug)]
pub struct TokenClaims {
    pub name: String,
    pub email: String,
    pub user_id: i64,
    pub exp: i64,
    pub token_type: String,
    pub used: bool,
    pub jti: String,
}

/// The mathematical value of a claim set.
#[verifier::ext_equal]
pub ghost struct ClaimsView {
    pub name: Seq<char>,
    pub email: Seq<char>,
    pub user_id: int,
    pub exp: int,
    pub token_type: Seq<char>,
    pub used: bool,
    pub jti: Seq<char>,
}

impl ClaimsView {
    /// The numeric fields fit the machine integers they are carried in.
    pub open spec fn wf(&self) -> bool {
        &&& i64::MIN <= self.user_id <= i64::MAX
        &&& i64::MIN <= self.exp <= i64::MAX
    }
}

impl View for TokenClaims {
    type V = ClaimsView;

    open spec fn view(&self) -> ClaimsView {
        ClaimsView {
            name: self.name@,
            email: self.email@,
            user_id: self.user_id as int,
            exp: self.exp as int,
            token_type: self.token_type@,
            used: self.used,
            jti: self.jti@,
        }
    }
}

/// The expiry a token issued at `now` carries.
pub open spec fn lifetime_of(kind: TokenKind) -> int {
    match kind {
        TokenKind::Access => ACCESS_LIFETIME_SECS as int,
        TokenKind::Refresh => REFRESH_LIFETIME_SECS as int,
    }
}

/// The `token_type` string a kind is recorded as.
pub open spec fn kind_label(kind: TokenKind) -> Seq<char> {
    match kind {
        TokenKind::Access => "Access"@,
        TokenKind::Refresh => "Refresh"@,
    }
}

/// The claim set issued for an identity: the given kind's label and
/// lifetime, a fresh `jti`, and `used` clear.
pub open spec fn issued_claims(
    user_id: int,
    name: Seq<char>,
    email: Seq<char>,
    kind: TokenKind,
    now: int,
    jti: Seq<char>,
) -> ClaimsView {
    ClaimsView {
        name: name,
        email: email,
        user_id: user_id,
        exp: now + lifetime_of(kind),
        token_type: kind_label(kind),
        used: false,
        jti: jti,
    }
}

impl TokenClaims {
    /// Builds the claim set for one issuance (the claims factory): `used`
    /// starts false, the expiry is `now` plus the kind's lifetime, and the
    /// caller supplies the fresh `jti`.
    pub fn issue(user_id: i64, name: &str, email: &str, kind: TokenKind, now: i64, jti: String) -> (
        r: TokenClaims)
        requires
            now <= i64::MAX - REFRESH_LIFETIME_SECS,
        ensures
            r@ == issued_claims(user_id as int, name@, email@, kind, now as int, jti@),
    {
        let token_type = match kind {
            TokenKind::Access => String::from_str("Access"),
            TokenKind::Refresh => String::from_str("Refresh"),
        };
        let lifetime: i64 = match kind {
            TokenKind::Access => ACCESS_LIFETIME_SECS,
            TokenKind::Refresh => REFRESH_LIFETIME_SECS,
        };
        let r = TokenClaims {
            name: name.to_owned(),
            email: email.to_owned(),
            user_id,
            exp: now + lifetime,
            token_type,
            used: false,
            jti,
        };
        proof {
            assert(r@ =~= issued_claims(user_id as int, name@, email@, kind, now as int, jti@));
        }
        r
    }

    /// An owned copy with the same view.
    pub fn duplicate(&self) -> (r: TokenClaims)
        ensures
            r@ == self@,
    {
        let r = TokenClaims {
            name: self.name.clone(),
            email: self.email.clone(),
            user_id: self.user_id,
            exp: self.exp,
            token_type: self.token_type.clone(),
            used: self.used,
            jti: self.jti.clone(),
        };
        proof {
            assert(r@ =~= self@);
        }
        r
    }
}

/// A length-prefixed string field.
pub open spec fn ns(s: Seq<char>) -> Seq<char> {
    dec_of(s.len()) + seq![':'] + s + seq![',']
}

/// A signed decimal field.
pub open spec fn num(i: int) -> Seq<char> {
    int_of(i) + seq![',']
}

/// A boolean field.
pub open spec fn flag(b: bool) -> Seq<char> {
    seq![if b { '1' } else { '0' }, ',']
}

/// The canonical encoding of a claim set: the seven fields in order.
pub open spec fn claims_payload(c: ClaimsView) -> Seq<char> {
    ns(c.name) + (ns(c.email) + (num(c.user_id) + (num(c.exp) + (ns(c.token_type) + (flag(c.used)
        + ns(c.jti))))))
}

/// Appends `ns(v@)`.
fn push_ns(s: &mut String, v: &str)
    ensures
        final(s)@ == old(s)@ + ns(v@),
{
    let n = v.unicode_len();
    push_dec(s, n as u64);
    s.append(":");
    s.append(v);
    s.append(",");
    proof {
        reveal_strlit(":");
        reveal_strlit(",");
        assert(final(s)@ =~= old(s)@ + ns(v@));
    }
}

/// Appends `num(i)`.
fn push_num(s: &mut String, i: i64)
    ensures
        final(s)@ == old(s)@ + num(i as int),
{
    let t = i64_to_string(i);
    s.append(t.as_str());
    s.append(",");
    proof {
        reveal_strlit(",");
        assert(final(s)@ =~= old(s)@ + num(i as int));
    }
}

/// Appends `flag(b)`.
fn push_flag(s: &mut String, b: bool)
    ensures
        final(s)@ == old(s)@ + flag(b),
{
    if b {
        s.append("1,");
    } else {
        s.append("0,");
    }
    proof {
        reveal_strlit("1,");
        reveal_strlit("0,");
        assert(final(s)@ =~= old(s)@ + flag(b));
    }
}

/// What follows the name field in a canonical encoding.
pub open spec fn after_name(c: ClaimsView) -> Seq<char> {
    ns(c.email) + (num(c.user_id) + (num(c.exp) + (ns(c.token_type) + (flag(c.used) + ns(c.jti)))))
}

/// What follows the email field.
pub open spec fn after_email(c: ClaimsView) -> Seq<char> {
    num(c.user_id) + (num(c.exp) + (ns(c.token_type) + (flag(c.used) + ns(c.jti))))
}

/// What follows the user id field.
pub open spec fn after_user_id(c: ClaimsView) -> Seq<char> {
    num(c.exp) + (ns(c.token_type) + (flag(c.used) + ns(c.jti)))
}

/// What follows the expiry field.
pub open spec fn after_exp(c: ClaimsView) -> Seq<char> {
    ns(c.token_type) + (flag(c.used) + ns(c.jti))
}

/// What follows the token type field.
pub open spec fn after_type(c: ClaimsView) -> Seq<char> {
    flag(c.used) + ns(c.jti)
}

/// The field offsets of a canonical encoding.
pub open spec fn off_name(c: ClaimsView) -> int {
    ns(c.name).len() as int
}

pub open spec fn off_email(c: ClaimsView) -> int {
    off_name(c) + ns(c.email).len()
}

pub open spec fn off_user_id(c: ClaimsView) -> int {
    off_email(c) + num(c.user_id).len()
}

pub open spec fn off_exp(c: ClaimsView) -> int {
    off_user_id(c) + num(c.exp).len()
}

pub open spec fn off_type(c: ClaimsView) -> int {
    off_exp(c) + ns(c.token_type).len()
}

pub open spec fn off_used(c: ClaimsView) -> int {
    off_type(c) + 2
}

/// How a canonical encoding splits at each field boundary.
pub proof fn lemma_payload_parts(c: ClaimsView)
    ensures
        claims_payload(c) == ns(c.name) + after_name(c),
        claims_payload(c).subrange(off_name(c), claims_payload(c).len() as int) == ns(c.email)
            + after_email(c),
        claims_payload(c).subrange(off_email(c), claims_payload(c).len() as int) == num(c.user_id)
            + after_user_id(c),
        claims_payload(c).subrange(off_user_id(c), claims_payload(c).len() as int) == num(c.exp)
            + after_exp(c),
        claims_payload(c).subrange(off_exp(c), claims_payload(c).len() as int) == ns(c.token_type)
            + after_type(c),
        claims_payload(c).subrange(off_type(c), claims_payload(c).len() as int) == flag(c.used)
            + ns(c.jti),
        claims_payload(c).subrange(off_used(c), claims_payload(c).len() as int) == ns(c.jti)
            + Seq::<char>::empty(),
        claims_payload(c).len() == off_used(c) + ns(c.jti).len(),
{
    let w = claims_payload(c);
    assert(w =~= ns(c.name) + after_name(c));
    assert(w.subrange(0, w.len() as int) =~= w);
    lemma_chop(w, 0, ns(c.name), after_name(c));
    assert(after_name(c) =~= ns(c.email) + after_email(c));
    lemma_chop(w, off_name(c), ns(c.email), after_email(c));
    assert(after_email(c) =~= num(c.user_id) + after_user_id(c));
    lemma_chop(w, off_email(c), num(c.user_id), after_user_id(c));
    assert(after_user_id(c) =~= num(c.exp) + after_exp(c));
    lemma_chop(w, off_user_id(c), num(c.exp), after_exp(c));
    assert(after_exp(c) =~= ns(c.token_type) + after_type(c));
    lemma_chop(w, off_exp(c), ns(c.token_type), after_type(c));
    assert(after_type(c) =~= flag(c.used) + ns(c.jti));
    assert(flag(c.used).len() == 2);
    lemma_chop(w, off_type(c), flag(c.used), ns(c.jti));
    assert(w.subrange(off_used(c), w.len() as int) =~= ns(c.jti) + Seq::<char>::empty());
}

/// Reads one length-prefixed string field at `pos`.  On every suffix of the
/// form `ns(f) + rest` it succeeds and returns exactly `f`.
fn parse_ns(payload: &str, v: &Vec<char>, pos: usize) -> (r: Option<(String, usize)>)
    requires
        v@ == payload@,
        pos <= v@.len(),
    ensures
        r matches Some(p) ==> pos < p.1 <= v@.len(),
        forall|f: Seq<char>, rest: Seq<char>|
            v@.subrange(pos as int, v@.len() as int) == ns(f) + rest ==> (r matches Some(p) && p.0@
                == f && p.1 == pos + ns(f).len()),
{
    let ghost whole = v@.subrange(pos as int, v@.len() as int);
    let len = v.len();
    proof {
        assert forall|f: Seq<char>, rest: Seq<char>| whole == ns(f) + rest implies whole =~= dec_of(
            f.len(),
        ) + (seq![':'] + f + seq![','] + rest) && !is_digit((seq![':'] + f + seq![','] + rest)[0])
            && f.len() <= whole.len() by {
            assert(ns(f) + rest =~= dec_of(f.len()) + (seq![':'] + f + seq![','] + rest));
        }
    }
    let parsed = match parse_digits(v, pos) {
        Some(p) => p,
        None => {
            return None;
        },
    };
    let n = parsed.0;
    let d_end = parsed.1;
    proof {
        assert forall|f: Seq<char>, rest: Seq<char>| whole == ns(f) + rest implies n == f.len()
            && d_end == pos + dec_of(f.len()).len() && whole[(d_end - pos) as int] == ':' by {
            let tail = seq![':'] + f + seq![','] + rest;
            assert(whole == dec_of(f.len()) + tail);
            assert(whole[dec_of(f.len()).len() as int] == tail[0]);
        }
    }
    if d_end == len || v[d_end] != ':' {
        return None;
    }
    let start = d_end + 1;
    if n > (len - start) as u64 {
        proof {
            assert forall|f: Seq<char>, rest: Seq<char>| whole == ns(f) + rest implies false by {
                assert(whole.len() == dec_of(f.len()).len() + 1 + f.len() + 1 + rest.len());
            }
        }
        return None;
    }
    let end = start + (n as usize);
    if end == len || v[end] != ',' {
        proof {
            assert forall|f: Seq<char>, rest: Seq<char>| whole == ns(f) + rest implies false by {
                let tail = seq![':'] + f + seq![','] + rest;
                assert(whole == dec_of(f.len()) + tail);
                assert(whole.len() == dec_of(f.len()).len() + 1 + f.len() + 1 + rest.len());
                assert(whole[(end - pos) as int] == tail[(1 + f.len()) as int]);
                assert(tail[(1 + f.len()) as int] == ',');
            }
        }
        return None;
    }
    let field = payload.substring_char(start, end).to_owned();
    proof {
        assert forall|f: Seq<char>, rest: Seq<char>| whole == ns(f) + rest implies field@ == f
            && end + 1 == pos + ns(f).len() by {
            let tail = seq![':'] + f + seq![','] + rest;
            assert(whole == dec_of(f.len()) + tail);
            assert(field@ == v@.subrange(start as int, end as int));
            assert forall|j: int| 0 <= j < f.len() implies v@.subrange(start as int, end as int)[j]
                == f[j] by {
                assert(v@.subrange(start as int, end as int)[j] == v@[start + j]);
                assert(whole[(start - pos) + j] == v@[start + j]);
                assert(whole[(start - pos) + j] == tail[1 + j]);
                assert(tail[1 + j] == f[j]);
            }
            assert(v@.subrange(start as int, end as int) =~= f);
        }
    }
    Some((field, end + 1))
}

/// Reads one signed decimal field at `pos`.  On every suffix of the form
/// `num(i) + rest` with `i` in `i64` range it succeeds and returns `i`.
fn parse_num(v: &Vec<char>, pos: usize) -> (r: Option<(i64, usize)>)
    requires
        pos <= v@.len(),
    ensures
        r matches Some(p) ==> pos < p.1 <= v@.len(),
        forall|i: int, rest: Seq<char>|
            i64::MIN <= i <= i64::MAX && v@.subrange(pos as int, v@.len() as int) == num(i) + rest
                ==> (r matches Some(p) && p.0 == i && p.1 == pos + num(i).len()),
{
    let ghost whole = v@.subrange(pos as int, v@.len() as int);
    let len = v.len();
    proof {
        assert forall|i: int, rest: Seq<char>|
            i64::MIN <= i <= i64::MAX && whole == num(i) + rest implies (i >= 0 ==> whole =~=
            dec_of(i as nat) + (seq![','] + rest)) && (i < 0 ==> whole =~= seq!['-'] + (dec_of(
            (-i) as nat,
        ) + (seq![','] + rest))) && whole.len() > 0 by {
            if i >= 0 {
                assert(num(i) + rest =~= dec_of(i as nat) + (seq![','] + rest));
            } else {
                assert(num(i) + rest =~= seq!['-'] + (dec_of((-i) as nat) + (seq![','] + rest)));
            }
        }
    }
    let neg = pos < len && v[pos] == '-';
    let dpos = if neg {
        pos + 1
    } else {
        pos
    };
    proof {
        assert forall|i: int, rest: Seq<char>|
            i64::MIN <= i <= i64::MAX && whole == num(i) + rest implies (i < 0 <==> neg) && (neg
            ==> v@.subrange(dpos as int, v@.len() as int) =~= dec_of((-i) as nat) + (seq![',']
            + rest)) && (!neg ==> v@.subrange(dpos as int, v@.len() as int) =~= dec_of(i as nat) + (
        seq![','] + rest)) by {
            lemma_dec_of_digits(if i >= 0 {
                i as nat
            } else {
                (-i) as nat
            });
            assert(whole[0] == v@[pos as int]);
            if i >= 0 {
                assert(whole[0] == dec_of(i as nat)[0]);
                assert(is_digit(whole[0]));
                assert(!neg);
            } else {
                assert(whole[0] == '-');
                assert(pos < len);
                assert(neg);
                let inner = dec_of((-i) as nat) + (seq![','] + rest);
                assert forall|j: int| 0 <= j < inner.len() implies v@.subrange(
                    dpos as int,
                    v@.len() as int,
                )[j] == inner[j] by {
                    assert(v@.subrange(dpos as int, v@.len() as int)[j] == v@[dpos + j]);
                    assert(whole[1 + j] == v@[dpos + j]);
                    assert(whole[1 + j] == (seq!['-'] + inner)[1 + j]);
                }
            }
        }
    }
    let parsed = match parse_digits(v, dpos) {
        Some(p) => p,
        None => {
            return None;
        },
    };
    let mag = parsed.0;
    let d_end = parsed.1;
    proof {
        assert forall|i: int, rest: Seq<char>|
            i64::MIN <= i <= i64::MAX && whole == num(i) + rest implies mag == (if i >= 0 {
            i
        } else {
            -i
        }) && d_end + 1 == pos + num(i).len() && d_end < len && v@[d_end as int] == ',' by {
            let m: nat = if i >= 0 {
                i as nat
            } else {
                (-i) as nat
            };
            let after = seq![','] + rest;
            assert(v@.subrange(dpos as int, v@.len() as int) == dec_of(m) + after);
            assert(!is_digit(after[0]));
            assert(m <= u64::MAX);
            assert(d_end == dpos + dec_of(m).len());
            assert(v@.subrange(dpos as int, v@.len() as int)[(d_end - dpos) as int] == after[0]);
        }
    }
    if d_end == len || v[d_end] != ',' {
        return None;
    }
    let value: i64;
    if neg {
        if mag > 0x8000_0000_0000_0000u64 {
            return None;
        }
        if mag == 0x8000_0000_0000_0000u64 {
            value = i64::MIN;
        } else {
            value = -(mag as i64);
        }
    } else {
        if mag > 0x7FFF_FFFF_FFFF_FFFFu64 {
            return None;
        }
        value = mag as i64;
    }
    Some((value, d_end + 1))
}

/// Reads one boolean field at `pos`.
fn parse_flag(v: &Vec<char>, pos: usize) -> (r: Option<(bool, usize)>)
    requires
        pos <= v@.len(),
    ensures
        r matches Some(p) ==> pos < p.1 <= v@.len(),
        forall|b: bool, rest: Seq<char>|
            v@.subrange(pos as int, v@.len() as int) == flag(b) + rest ==> (r matches Some(p) && p.0
                == b && p.1 == pos + 2),
{
    let ghost whole = v@.subrange(pos as int, v@.len() as int);
    let len = v.len();
    proof {
        assert forall|b: bool, rest: Seq<char>| whole == flag(b) + rest implies whole.len() >= 2
            && whole[0] == (if b {
            '1'
        } else {
            '0'
        }) && whole[1] == ',' by {
            assert((flag(b) + rest)[0] == flag(b)[0]);
            assert((flag(b) + rest)[1] == flag(b)[1]);
        }
    }
    if len - pos < 2 {
        return None;
    }
    let c0 = v[pos];
    let c1 = v[pos + 1];
    proof {
        assert(whole[0] == v@[pos as int]);
        assert(whole[1] == v@[pos + 1 as int]);
    }
    if c1 != ',' {
        return None;
    }
    if c0 == '1' {
        Some((true, pos + 2))
    } else if c0 == '0' {
        Some((false, pos + 2))
    } else {
        None
    }
}

/// Parses the canonical encoding of a claim set.
///
/// Exactly the canonical renderings parse: on `claims_payload(cv)` the
/// result is a claim set whose view is `cv`, and whenever the result is
/// `Some(c)` the input was `claims_payload(c@)`.
pub fn parse_claims(payload: &str) -> (r: Option<TokenClaims>)
    ensures
        r matches Some(c) ==> payload@ == claims_payload(c@),
        forall|cv: ClaimsView|
            cv.wf() && payload@ == claims_payload(cv) ==> (r matches Some(c) && c@ == cv),
{
    let v = str_chars(payload);
    proof {
        assert(v@.subrange(0, v@.len() as int) =~= v@);
    }
    let s1 = match parse_ns(payload, &v, 0) {
        Some(x) => x,
        None => {
            proof {
                assert forall|cv: ClaimsView|
                    cv.wf() && payload@ == claims_payload(cv) implies false by {
                    lemma_payload_parts(cv);
                }
            }
            return None;
        },
    };
    let name = s1.0;
    let p1 = s1.1;
    let s2 = match parse_ns(payload, &v, p1) {
        Some(x) => x,
        None => {
            proof {
                assert forall|cv: ClaimsView|
                    cv.wf() && payload@ == claims_payload(cv) implies false by {
                    lemma_payload_parts(cv);
                }
            }
            return None;
        },
    };
    let email = s2.0;
    let p2 = s2.1;
    let s3 = match parse_num(&v, p2) {
        Some(x) => x,
        None => {
            proof {
                assert forall|cv: ClaimsView|
                    cv.wf() && payload@ == claims_payload(cv) implies false by {
                    lemma_payload_parts(cv);
                }
            }
            return None;
        },
    };
    let user_id = s3.0;
    let p3 = s3.1;
    let s4 = match parse_num(&v, p3) {
        Some(x) => x,
        None => {
            proof {
                assert forall|cv: ClaimsView|
                    cv.wf() && payload@ == claims_payload(cv) implies false by {
                    lemma_payload_parts(cv);
                }
            }
            return None;
        },
    };
    let exp = s4.0;
    let p4 = s4.1;
    let s5 = match parse_ns(payload, &v, p4) {
        Some(x) => x,
        None => {
            proof {
                assert forall|cv: ClaimsView|
                    cv.wf() && payload@ == claims_payload(cv) implies false by {
                    lemma_payload_parts(cv);
                }
            }
            return None;
        },
    };
    let token_type = s5.0;
    let p5 = s5.1;
    let s6 = match parse_flag(&v, p5) {
        Some(x) => x,
        None => {
            proof {
                assert forall|cv: ClaimsView|
                    cv.wf() && payload@ == claims_payload(cv) implies false by {
                    lemma_payload_parts(cv);
                }
            }
            return None;
        },
    };
    let used = s6.0;
    let p6 = s6.1;
    let s7 = match parse_ns(payload, &v, p6) {
        Some(x) => x,
        None => {
            proof {
                assert forall|cv: ClaimsView|
                    cv.wf() && payload@ == claims_payload(cv) implies false by {
                    lemma_payload_parts(cv);
                }
            }
            return None;
        },
    };
    let jti = s7.0;
    let p7 = s7.1;
    if p7 != v.len() {
        proof {
            assert forall|cv: ClaimsView|
                cv.wf() && payload@ == claims_payload(cv) implies false by {
                lemma_payload_parts(cv);
            }
        }
        return None;
    }
    let c = TokenClaims { name, email, user_id, exp, token_type, used, jti };
    let rendered = render_claims(&c);
    if !str_eq(rendered.as_str(), payload) {
        proof {
            assert forall|cv: ClaimsView|
                cv.wf() && payload@ == claims_payload(cv) implies false by {
                lemma_payload_parts(cv);
                assert(c@ =~= cv);
            }
        }
        return None;
    }
    proof {
        assert forall|cv: ClaimsView| cv.wf() && payload@ == claims_payload(cv) implies c@
            =~= cv by {
            lemma_payload_parts(cv);
        }
    }
    Some(c)
}

/// Renders a claim set into its canonical encoding.
pub fn render_claims(c: &TokenClaims) -> (r: String)
    ensures
        r@ == claims_payload(c@),
{
    let mut s = String::new();
    push_ns(&mut s, c.name.as_str());
    push_ns(&mut s, c.email.as_str());
    push_num(&mut s, c.user_id);
    push_num(&mut s, c.exp);
    push_ns(&mut s, c.token_type.as_str());
    push_flag(&mut s, c.used);
    push_ns(&mut s, c.jti.as_str());
    proof {
        assert(s@ =~= claims_payload(c@));
    }
    s
}

} // verus!
