//! Decimal rendering and parsing of integers, and small string helpers.
//!
//! The claims encoding writes lengths and numeric fields in decimal; the
//! round-trip proofs for the token codec rest on the lemmas here.
use vstd::prelude::*;

verus! {

/// The character for one decimal digit value.
pub open spec fn digit_char(d: int) -> char {
    if d == 0 {
        '0'
    } else if d == 1 {
        '1'
    } else if d == 2 {
        '2'
    } else if d == 3 {
        '3'
    } else if d == 4 {
        '4'
    } else if d == 5 {
        '5'
    } else if d == 6 {
        '6'
    } else if d == 7 {
        '7'
    } else if d == 8 {
        '8'
    } else {
        '9'
    }
}

pub open spec fn is_digit(c: char) -> bool {
    c == '0' || c == '1' || c == '2' || c == '3' || c == '4' || c == '5' || c == '6' || c == '7'
        || c == '8' || c == '9'
}

/// The value of one decimal digit character.
pub open spec fn digit_val(c: char) -> int {
    if c == '0' {
        0
    } else if c == '1' {
        1
    } else if c == '2' {
        2
    } else if c == '3' {
        3
    } else if c == '4' {
        4
    } else if c == '5' {
        5
    } else if c == '6' {
        6
    } else if c == '7' {
        7
    } else if c == '8' {
        8
    } else {
        9
    }
}

/// The canonical decimal rendering of a natural number: no sign, no leading
/// zeros (a single `'0'` for zero).
pub open spec fn dec_of(n: nat) -> Seq<char>
    decreases n,
{
    if n < 10 {
        seq![digit_char(n as int)]
    } else {
        dec_of(n / 10).push(digit_char((n % 10) as int))
    }
}

/// The canonical decimal rendering of an integer: a `'-'` sign for negative
/// values, then the digits of the absolute value.
pub open spec fn int_of(i: int) -> Seq<char> {
    if i < 0 {
        seq!['-'] + dec_of((-i) as nat)
    } else {
        dec_of(i as nat)
    }
}

/// The number denoted by a digit sequence, most significant digit first.
pub open spec fn val_of(s: Seq<char>) -> int
    decreases s.len(),
{
    if s.len() == 0 {
        0
    } else {
        val_of(s.drop_last()) * 10 + digit_val(s.last())
    }
}

pub open spec fn all_digits(s: Seq<char>) -> bool {
    forall|i: int| 0 <= i < s.len() ==> is_digit(#[trigger] s[i])
}

pub proof fn lemma_dec_of_digits(n: nat)
    ensures
        dec_of(n).len() >= 1,
        all_digits(dec_of(n)),
        n >= 10 ==> dec_of(n)[0] != '0',
        n < 10 ==> dec_of(n).len() == 1,
        n >= 10 ==> dec_of(n).len() >= 2,
    decreases n,
{
    if n >= 10 {
        lemma_dec_of_digits(n / 10);
        assert(dec_of(n) == dec_of(n / 10).push(digit_char((n % 10) as int)));
        assert forall|i: int| 0 <= i < dec_of(n).len() implies is_digit(#[trigger] dec_of(n)[i]) by {
            if i < dec_of(n / 10).len() {
                assert(dec_of(n)[i] == dec_of(n / 10)[i]);
            }
        }
        if n / 10 >= 10 {
            assert(dec_of(n)[0] == dec_of(n / 10)[0]);
        } else {
            assert(n / 10 >= 1);
            assert(dec_of(n)[0] == digit_char((n / 10) as int));
        }
    }
}

pub proof fn lemma_val_of_dec_of(n: nat)
    ensures
        val_of(dec_of(n)) == n,
    decreases n,
{
    if n < 10 {
        assert(dec_of(n) == seq![digit_char(n as int)]);
        assert(dec_of(n).drop_last() =~= Seq::<char>::empty());
        assert(dec_of(n).last() == digit_char(n as int));
        assert(digit_val(digit_char(n as int)) == n);
        assert(val_of(dec_of(n)) == val_of(Seq::<char>::empty()) * 10 + n);
    } else {
        lemma_val_of_dec_of(n / 10);
        assert(dec_of(n) == dec_of(n / 10).push(digit_char((n % 10) as int)));
        assert(dec_of(n).drop_last() == dec_of(n / 10));
        assert(dec_of(n).last() == digit_char((n % 10) as int));
        assert(digit_val(digit_char((n % 10) as int)) == n % 10);
        assert(val_of(dec_of(n)) == (n / 10) * 10 + n % 10);
        assert(n == (n / 10) * 10 + n % 10) by (nonlinear_arith);
    }
}

/// Two equal sequences that both start with an all-digit run closed off by a
/// non-digit (or by the end of the sequence) have runs of the same length.
pub proof fn lemma_digit_run_align(x1: Seq<char>, y1: Seq<char>, x2: Seq<char>, y2: Seq<char>)
    requires
        x1 + y1 == x2 + y2,
        all_digits(x1),
        all_digits(x2),
        y1.len() == 0 || !is_digit(y1[0]),
        y2.len() == 0 || !is_digit(y2[0]),
    ensures
        x1 == x2,
        y1 == y2,
{
    let s = x1 + y1;
    if x1.len() < x2.len() {
        assert(y1.len() > 0);
        assert(s[x1.len() as int] == y1[0]);
        assert((x2 + y2)[x1.len() as int] == x2[x1.len() as int]);
        assert(is_digit(x2[x1.len() as int]));
        assert(false);
    }
    if x2.len() < x1.len() {
        assert(y2.len() > 0);
        assert(s[x2.len() as int] == x1[x2.len() as int]);
        assert((x2 + y2)[x2.len() as int] == y2[0]);
        assert(is_digit(x1[x2.len() as int]));
        assert(false);
    }
    assert(x1.len() == x2.len());
    assert((x1 + y1).len() == x1.len() + y1.len());
    assert((x2 + y2).len() == x2.len() + y2.len());
    assert(y1.len() == y2.len());
    assert forall|i: int| 0 <= i < x1.len() implies x1[i] == x2[i] by {
        assert(s[i] == x1[i]);
        assert((x2 + y2)[i] == x2[i]);
    }
    assert(x1 =~= x2);
    assert forall|i: int| 0 <= i < y1.len() implies y1[i] == y2[i] by {
        assert(s[x1.len() + i] == y1[i]);
        assert((x2 + y2)[x2.len() + i] == y2[i]);
    }
    assert(y1 =~= y2);
}

/// Appending digits never decreases a digit run's value.
pub proof fn lemma_val_of_prefix(p: Seq<char>, t: Seq<char>)
    requires
        all_digits(p + t),
        forall|i: int| 0 <= i < p.len() ==> digit_val(#[trigger] p[i]) >= 0,
    ensures
        val_of(p) <= val_of(p + t),
        val_of(p) >= 0,
    decreases t.len(),
{
    if p.len() > 0 {
        assert(p.drop_last() + (seq![p.last()] + t) =~= p + t);
    }
    if t.len() == 0 {
        assert(p + t =~= p);
        lemma_val_of_nonneg(p);
    } else {
        let t0 = t.drop_last();
        assert((p + t).drop_last() =~= p + t0);
        lemma_val_of_prefix(p, t0);
        assert(val_of(p + t) == val_of(p + t0) * 10 + digit_val((p + t).last()));
        lemma_val_of_nonneg(p + t0);
        assert(val_of(p + t0) * 10 >= val_of(p + t0)) by (nonlinear_arith)
            requires
                val_of(p + t0) >= 0,
        ;
        assert(digit_val((p + t).last()) >= 0);
    }
}

pub proof fn lemma_val_of_nonneg(s: Seq<char>)
    ensures
        val_of(s) >= 0,
    decreases s.len(),
{
    if s.len() > 0 {
        lemma_val_of_nonneg(s.drop_last());
        assert(val_of(s.drop_last()) * 10 >= 0) by (nonlinear_arith)
            requires
                val_of(s.drop_last()) >= 0,
        ;
        assert(digit_val(s.last()) >= 0);
    }
}

/// The one-character string for a digit value.
pub fn digit_str(d: u64) -> (r: &'static str)
    requires
        d < 10,
    ensures
        r@ == seq![digit_char(d as int)],
{
    proof {
        reveal_strlit("0");
        reveal_strlit("1");
        reveal_strlit("2");
        reveal_strlit("3");
        reveal_strlit("4");
        reveal_strlit("5");
        reveal_strlit("6");
        reveal_strlit("7");
        reveal_strlit("8");
        reveal_strlit("9");
    }
    match d {
        0 => "0",
        1 => "1",
        2 => "2",
        3 => "3",
        4 => "4",
        5 => "5",
        6 => "6",
        7 => "7",
        8 => "8",
        _ => "9",
    }
}

/// Appends the canonical decimal rendering of `n`.
pub fn push_dec(s: &mut String, n: u64)
    ensures
        final(s)@ == old(s)@ + dec_of(n as nat),
    decreases n,
{
    if n >= 10 {
        push_dec(s, n / 10);
    }
    let d = digit_str(n % 10);
    s.append(d);
    proof {
        if n >= 10 {
            assert(final(s)@ =~= old(s)@ + dec_of(n as nat / 10).push(
                digit_char((n as nat % 10) as int),
            ));
        } else {
            assert(final(s)@ =~= old(s)@ + seq![digit_char(n as int)]);
        }
    }
}

pub fn u64_to_string(n: u64) -> (r: String)
    ensures
        r@ == dec_of(n as nat),
{
    let mut s = String::new();
    push_dec(&mut s, n);
    proof {
        assert(s@ =~= dec_of(n as nat));
    }
    s
}

pub fn i64_to_string(i: i64) -> (r: String)
    ensures
        r@ == int_of(i as int),
{
    if i >= 0 {
        u64_to_string(i as u64)
    } else {
        let mut s = String::from_str("-");
        let abs: u64 = ((-(i + 1)) as u64) + 1;
        proof {
            reveal_strlit("-");
            assert(abs as nat == -(i as int));
        }
        push_dec(&mut s, abs);
        proof {
            assert(s@ =~= seq!['-'] + dec_of(abs as nat));
        }
        s
    }
}

/// Whether a character is a decimal digit, usable from executable code.
pub fn digit(c: char) -> (r: bool)
    ensures
        r == is_digit(c),
{
    match c {
        '0' | '1' | '2' | '3' | '4' | '5' | '6' | '7' | '8' | '9' => true,
        _ => false,
    }
}

/// The value of a digit character, usable from executable code.
pub fn digit_value(c: char) -> (r: u64)
    requires
        is_digit(c),
    ensures
        r == digit_val(c),
        r < 10,
{
    match c {
        '0' => 0,
        '1' => 1,
        '2' => 2,
        '3' => 3,
        '4' => 4,
        '5' => 5,
        '6' => 6,
        '7' => 7,
        '8' => 8,
        _ => 9,
    }
}

/// The characters of a string, as a vector.
pub fn str_chars(s: &str) -> (r: Vec<char>)
    ensures
        r@ == s@,
{
    let n = s.unicode_len();
    let mut r: Vec<char> = Vec::new();
    let mut i: usize = 0;
    while i < n
        invariant
            i <= n,
            n == s@.len(),
            r@ =~= s@.subrange(0, i as int),
        decreases n - i,
    {
        r.push(s.get_char(i));
        i = i + 1;
    }
    proof {
        assert(r@ =~= s@);
    }
    r
}

/// Whether a character has the Unicode white-space property, as
/// `str::trim` and `char::is_whitespace` understand it.
pub uninterp spec fn is_whitespace_char(c: char) -> bool;

/// Relies on char::is_whitespace of std: whether the character has the
/// Unicode white-space property.
pub assume_specification[ char::is_whitespace ](c: char) -> (r: bool)
    ensures
        r == is_whitespace_char(c),
;

/// A string that trims to nothing: every character is whitespace.
pub open spec fn blank(s: Seq<char>) -> bool {
    forall|i: int| 0 <= i < s.len() ==> is_whitespace_char(#[trigger] s[i])
}

/// Whether a string is empty after trimming.
pub fn is_blank(s: &str) -> (r: bool)
    ensures
        r == blank(s@),
{
    let n = s.unicode_len();
    let mut i: usize = 0;
    while i < n
        invariant
            i <= n,
            n == s@.len(),
            forall|j: int| 0 <= j < i ==> is_whitespace_char(#[trigger] s@[j]),
        decreases n - i,
    {
        if !s.get_char(i).is_whitespace() {
            return false;
        }
        i = i + 1;
    }
    true
}

/// Chopping a known prefix off a suffix of `w` leaves the rest.
pub proof fn lemma_chop(w: Seq<char>, off: int, a: Seq<char>, b: Seq<char>)
    requires
        0 <= off <= w.len(),
        w.subrange(off, w.len() as int) == a + b,
    ensures
        off + a.len() <= w.len(),
        w.subrange(off + a.len(), w.len() as int) == b,
{
    assert((a + b).len() == a.len() + b.len());
    assert forall|j: int| 0 <= j < b.len() implies w.subrange(off + a.len(), w.len() as int)[j]
        == b[j] by {
        assert(w.subrange(off + a.len(), w.len() as int)[j] == w[off + a.len() + j]);
        assert(w.subrange(off, w.len() as int)[a.len() + j] == w[off + a.len() + j]);
        assert((a + b)[a.len() + j] == b[j]);
    }
    assert(w.subrange(off + a.len(), w.len() as int) =~= b);
}

/// Character-wise string equality.
pub fn str_eq(a: &str, b: &str) -> (r: bool)
    ensures
        r == (a@ == b@),
{
    let na = a.unicode_len();
    let nb = b.unicode_len();
    if na != nb {
        return false;
    }
    let mut i: usize = 0;
    while i < na
        invariant
            i <= na,
            na == a@.len(),
            na == b@.len(),
            forall|j: int| 0 <= j < i ==> a@[j] == b@[j],
        decreases na - i,
    {
        if a.get_char(i) != b.get_char(i) {
            return false;
        }
        i = i + 1;
    }
    proof {
        assert(a@ =~= b@);
    }
    true
}

/// Reads a maximal run of decimal digits starting at `pos`, rejecting runs
/// with a redundant leading zero and values that do not fit in `u64`.
pub fn parse_digits(v: &Vec<char>, pos: usize) -> (r: Option<(u64, usize)>)
    requires
        pos <= v@.len(),
    ensures
        (r matches Some(p) ==> {
            &&& pos < p.1 <= v@.len()
            &&& all_digits(v@.subrange(pos as int, p.1 as int))
            &&& (p.1 < v@.len() && v@[pos as int] != '0' ==> !is_digit(v@[p.1 as int]))
            &&& p.0 == val_of(v@.subrange(pos as int, p.1 as int))
            &&& (v@[pos as int] == '0' ==> p.1 == pos + 1)
        }),
        forall|n: nat, rest: Seq<char>|
            n <= u64::MAX && v@.subrange(pos as int, v@.len() as int) == dec_of(n) + rest && (
            rest.len() == 0 || !is_digit(rest[0])) ==> (r matches Some(p) && p.0 == n && p.1 == pos
                + dec_of(n).len()),
{
    let ghost whole = v@.subrange(pos as int, v@.len() as int);
    let len = v.len();
    if pos == len || !digit(v[pos]) {
        proof {
            assert forall|n: nat, rest: Seq<char>|
                n <= u64::MAX && whole == dec_of(n) + rest && (rest.len() == 0 || !is_digit(
                    rest[0],
                )) implies false by {
                lemma_dec_of_digits(n);
                if pos == len {
                    assert(whole.len() == 0);
                    assert((dec_of(n) + rest).len() >= 1);
                } else {
                    assert(whole[0] == dec_of(n)[0]);
                    assert(whole[0] == v@[pos as int]);
                    assert(is_digit(v@[pos as int]));
                }
            }
        }
        return None;
    }
    if v[pos] == '0' {
        proof {
            assert forall|n: nat, rest: Seq<char>|
                n <= u64::MAX && whole == dec_of(n) + rest && (rest.len() == 0 || !is_digit(
                    rest[0],
                )) implies n == 0 && 1 == dec_of(n).len() by {
                lemma_dec_of_digits(n);
                assert(whole[0] == dec_of(n)[0]);
                assert(whole[0] == v@[pos as int]);
                if n >= 10 {
                    assert(dec_of(n)[0] != '0');
                } else {
                    assert(dec_of(n)[0] == digit_char(n as int));
                    assert(digit_char(n as int) == '0' ==> n == 0);
                }
            }
            assert(v@.subrange(pos as int, pos + 1 as int) =~= seq![v@[pos as int]]);
            assert(seq!['0'].len() == 1);
            assert(seq!['0'].drop_last() =~= Seq::<char>::empty());
            assert(seq!['0'].last() == '0');
            assert(val_of(Seq::<char>::empty()) == 0);
            assert(val_of(seq!['0']) == val_of(seq!['0'].drop_last()) * 10 + digit_val(
                seq!['0'].last(),
            ));
            assert(val_of(seq!['0']) == 0);
        }
        return Some((0, pos + 1));
    }
    let mut end = pos;
    let mut acc: u64 = 0;
    while end < len && digit(v[end])
        invariant
            pos <= end <= len,
            len == v@.len(),
            pos < len && is_digit(v@[pos as int]) && v@[pos as int] != '0',
            all_digits(v@.subrange(pos as int, end as int)),
            acc == val_of(v@.subrange(pos as int, end as int)),
            whole == v@.subrange(pos as int, v@.len() as int),
        decreases len - end,
    {
        let d = digit_value(v[end]);
        if acc > (u64::MAX - d) / 10 {
            proof {
                let run = v@.subrange(pos as int, end + 1 as int);
                assert(run.drop_last() =~= v@.subrange(pos as int, end as int));
                assert(all_digits(run));
                lemma_val_of_nonneg(run.drop_last());
                assert(val_of(run) == acc * 10 + d);
                assert(acc * 10 + d > u64::MAX) by (nonlinear_arith)
                    requires
                        acc > (u64::MAX - d) / 10,
                        acc >= 0,
                        0 <= d < 10,
                ;
                assert forall|n: nat, rest: Seq<char>|
                    n <= u64::MAX && whole == dec_of(n) + rest && (rest.len() == 0 || !is_digit(
                        rest[0],
                    )) implies false by {
                    lemma_dec_of_digits(n);
                    lemma_val_of_dec_of(n);
                    // The run scanned so far, extended with the digit at `end`,
                    // is an all-digit prefix of `whole`, so it is a prefix of
                    // `dec_of(n)`, whose value already exceeds `u64::MAX`.
                    if end + 1 - pos > dec_of(n).len() {
                        let k = dec_of(n).len();
                        assert(rest.len() > 0 ==> !is_digit(rest[0]));
                        if rest.len() == 0 {
                            assert(whole.len() == k);
                            assert(end + 1 <= len);
                            assert(end + 1 - pos <= whole.len());
                            assert(false);
                        } else {
                            assert(whole[k as int] == rest[0]);
                            assert(pos + k < end + 1);
                            assert(pos + k <= end);
                            if pos + k < end {
                                assert(whole[k as int] == v@.subrange(pos as int, end as int)[
                                k as int]);
                                assert(is_digit(whole[k as int]));
                            } else {
                                assert(v@[end as int] == whole[k as int]);
                                assert(is_digit(v@[end as int]));
                            }
                            assert(false);
                        }
                    } else {
                        let m = (end + 1 - pos) as int;
                        assert forall|j: int| 0 <= j < m implies run[j] == dec_of(n)[j] by {
                            assert(whole[j] == dec_of(n)[j]);
                            assert(run[j] == v@[pos + j]);
                            assert(whole[j] == v@[pos + j]);
                        }
                        assert(run =~= dec_of(n).subrange(0, m));
                        assert(dec_of(n) =~= dec_of(n).subrange(0, m) + dec_of(n).subrange(
                            m,
                            dec_of(n).len() as int,
                        ));
                        lemma_val_of_prefix(
                            dec_of(n).subrange(0, m),
                            dec_of(n).subrange(m, dec_of(n).len() as int),
                        );
                        assert(val_of(run) <= val_of(dec_of(n)));
                        assert(val_of(run) > u64::MAX);
                        assert(false);
                    }
                }
            }
            return None;
        }
        proof {
            let run = v@.subrange(pos as int, end + 1 as int);
            assert(run.drop_last() =~= v@.subrange(pos as int, end as int));
            assert(run.last() == v@[end as int]);
            assert(val_of(run) == acc * 10 + d);
            assert(acc * 10 + d <= u64::MAX) by (nonlinear_arith)
                requires
                    acc <= (u64::MAX - d) / 10,
                    acc >= 0,
                    0 <= d < 10,
            ;
        }
        acc = acc * 10 + d;
        end = end + 1;
    }
    proof {
        let run = v@.subrange(pos as int, end as int);
        let tail = v@.subrange(end as int, v@.len() as int);
        assert(whole =~= run + tail);
        assert(end < len ==> !is_digit(v@[end as int]));
        assert(tail.len() == 0 || !is_digit(tail[0]));
        assert forall|n: nat, rest: Seq<char>|
            n <= u64::MAX && whole == dec_of(n) + rest && (rest.len() == 0 || !is_digit(rest[0]))
            implies acc == n && end == pos + dec_of(n).len() by {
            lemma_dec_of_digits(n);
            lemma_val_of_dec_of(n);
            lemma_digit_run_align(run, tail, dec_of(n), rest);
        }
        assert(pos < end);
    }
    Some((acc, end))
}

} // verus!
