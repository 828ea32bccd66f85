//! Text helpers over `Seq<char>`: prefix and substring tests, trimming,
//! line splitting and decimal rendering, plus the few std character
//! functions they rest on.
use vstd::prelude::*;

verus! {

/// What `str::to_lowercase` makes of a text.
pub uninterp spec fn lower_of(s: Seq<char>) -> Seq<char>;

/// Whether `char::is_whitespace` holds of a character.
pub uninterp spec fn whitespace_char(c: char) -> bool;

/// Whether `char::is_uppercase` holds of a character.
pub uninterp spec fn uppercase_char(c: char) -> bool;

/// Whether `char::is_alphabetic` holds of a character.
pub uninterp spec fn alphabetic_char(c: char) -> bool;

/// Relies on `str::chars`: the characters of a text, in order.
#[verifier::external_body]
pub(crate) fn to_chars(s: &str) -> (r: Vec<char>)
    ensures
        r@ == s@,
{
    s.chars().collect()
}

/// Relies on `FromIterator<char>` for `String`: the text of the characters.
#[verifier::external_body]
pub(crate) fn from_chars(v: &Vec<char>) -> (r: String)
    ensures
        r@ == v@,
{
    v.iter().collect()
}

/// Relies on `str::to_lowercase`; an empty text stays empty.
#[verifier::external_body]
pub(crate) fn lowercase(s: &str) -> (r: String)
    ensures
        r@ == lower_of(s@),
        s@.len() == 0 ==> r@.len() == 0,
{
    s.to_lowercase()
}

/// Relies on `char::is_whitespace`.
#[verifier::external_body]
pub(crate) fn is_whitespace(c: char) -> (r: bool)
    ensures
        r == whitespace_char(c),
{
    c.is_whitespace()
}

/// Relies on `char::is_uppercase`.
#[verifier::external_body]
pub(crate) fn is_uppercase(c: char) -> (r: bool)
    ensures
        r == uppercase_char(c),
{
    c.is_uppercase()
}

/// Relies on `char::is_alphabetic`.
#[verifier::external_body]
pub(crate) fn is_alphabetic(c: char) -> (r: bool)
    ensures
        r == alphabetic_char(c),
{
    c.is_alphabetic()
}

/// Whether two texts are equal.
pub fn str_eq(a: &str, b: &str) -> (r: bool)
    ensures
        r == (a@ == b@),
{
    String::from_str(a) == String::from_str(b)
}

pub open spec fn is_prefix(p: Seq<char>, s: Seq<char>) -> bool {
    p.len() <= s.len() && s.subrange(0, p.len() as int) == p
}

pub open spec fn occurs_at(s: Seq<char>, p: Seq<char>, i: int) -> bool {
    0 <= i && i + p.len() <= s.len() && s.subrange(i, i + p.len()) == p
}

pub open spec fn contains_seq(s: Seq<char>, p: Seq<char>) -> bool {
    exists|i: int| occurs_at(s, p, i)
}

/// Whether `p` matches `s` at position `i`.
pub fn matches_at(s: &Vec<char>, p: &Vec<char>, i: usize) -> (r: bool)
    requires
        i + p@.len() <= s@.len(),
    ensures
        r == occurs_at(s@, p@, i as int),
{
    let n = s.len();
    let mut k: usize = 0;
    while k < p.len()
        invariant
            n == s@.len(),
            k <= p@.len(),
            i + p@.len() <= s@.len(),
            forall|j: int| 0 <= j < k ==> s@[i + j] == p@[j],
        decreases p@.len() - k,
    {
        assert(i + k < s@.len());
        if s[i + k] != p[k] {
            assert(s@.subrange(i as int, i + p@.len())[k as int] != p@[k as int]);
            return false;
        }
        k += 1;
    }
    assert(s@.subrange(i as int, i + p@.len()) =~= p@);
    true
}

/// Whether `p` occurs in `s`.
pub fn contains_chars(s: &Vec<char>, p: &Vec<char>) -> (r: bool)
    ensures
        r == contains_seq(s@, p@),
{
    if p.len() > s.len() {
        assert forall|i: int| !occurs_at(s@, p@, i) by {}
        return false;
    }
    let last = s.len() - p.len();
    let mut i: usize = 0;
    while i < last
        invariant
            i <= last,
            last + p@.len() == s@.len(),
            forall|j: int| 0 <= j < i ==> !occurs_at(s@, p@, j),
        decreases last - i,
    {
        if matches_at(s, p, i) {
            return true;
        }
        i += 1;
    }
    if matches_at(s, p, last) {
        return true;
    }
    assert forall|j: int| !occurs_at(s@, p@, j) by {
        if 0 <= j && j <= i {
        }
    }
    false
}

/// Whether the text `p` occurs in the text `s`.
pub fn contains_str(s: &str, p: &str) -> (r: bool)
    ensures
        r == contains_seq(s@, p@),
{
    let sv = to_chars(s);
    let pv = to_chars(p);
    contains_chars(&sv, &pv)
}

/// Whether the text `s` begins with the text `p`.
pub fn starts_with_str(s: &str, p: &str) -> (r: bool)
    ensures
        r == is_prefix(p@, s@),
{
    let sv = to_chars(s);
    let pv = to_chars(p);
    if pv.len() > sv.len() {
        return false;
    }
    let r = matches_at(&sv, &pv, 0);
    r
}

/// Position of the first character that is not whitespace, or the length.
pub open spec fn trim_start_at(s: Seq<char>) -> int
    decreases s.len(),
{
    if s.len() == 0 {
        0
    } else if whitespace_char(s[0]) {
        1 + trim_start_at(s.subrange(1, s.len() as int))
    } else {
        0
    }
}

/// One past the last character that is not whitespace, or zero.
pub open spec fn trim_end_at(s: Seq<char>) -> int
    decreases s.len(),
{
    if s.len() == 0 {
        0
    } else if whitespace_char(s[s.len() - 1]) {
        trim_end_at(s.drop_last())
    } else {
        s.len() as int
    }
}

/// `s` without leading and trailing whitespace.
pub open spec fn trim_seq(s: Seq<char>) -> Seq<char> {
    let a = trim_start_at(s);
    let b = trim_end_at(s);
    if a < b {
        s.subrange(a, b)
    } else {
        Seq::empty()
    }
}

proof fn lemma_trim_start_bounds(s: Seq<char>)
    ensures
        0 <= trim_start_at(s) <= s.len(),
    decreases s.len(),
{
    if s.len() > 0 && whitespace_char(s[0]) {
        lemma_trim_start_bounds(s.subrange(1, s.len() as int));
    }
}

proof fn lemma_trim_end_bounds(s: Seq<char>)
    ensures
        0 <= trim_end_at(s) <= s.len(),
    decreases s.len(),
{
    if s.len() > 0 && whitespace_char(s[s.len() - 1]) {
        lemma_trim_end_bounds(s.drop_last());
    }
}

/// `s[i..]` starts trimming where `s` does, when all before `i` is whitespace.
proof fn lemma_trim_start_step(s: Seq<char>, i: int)
    requires
        0 <= i < s.len(),
        forall|j: int| 0 <= j < i ==> whitespace_char(s[j]),
    ensures
        trim_start_at(s) == i + trim_start_at(s.subrange(i, s.len() as int)),
    decreases i,
{
    if i > 0 {
        let t = s.subrange(1, s.len() as int);
        assert(whitespace_char(s[0]));
        assert forall|j: int| 0 <= j < i - 1 implies whitespace_char(t[j]) by {
            assert(t[j] == s[j + 1]);
        }
        lemma_trim_start_step(t, i - 1);
        assert(t.subrange(i - 1, t.len() as int) =~= s.subrange(i, s.len() as int));
    } else {
        assert(s.subrange(0, s.len() as int) =~= s);
    }
}

proof fn lemma_trim_end_step(s: Seq<char>, e: int)
    requires
        0 <= e <= s.len(),
        forall|j: int| e <= j < s.len() ==> whitespace_char(s[j]),
    ensures
        trim_end_at(s) == trim_end_at(s.subrange(0, e)),
    decreases s.len() - e,
{
    if e < s.len() {
        let t = s.drop_last();
        assert forall|j: int| e <= j < t.len() implies whitespace_char(t[j]) by {
            assert(t[j] == s[j]);
        }
        lemma_trim_end_step(t, e);
        assert(t.subrange(0, e) =~= s.subrange(0, e));
    } else {
        assert(s.subrange(0, e) =~= s);
    }
}

/// The characters of `v` without leading and trailing whitespace.
pub fn trim_vec(v: &Vec<char>) -> (r: Vec<char>)
    ensures
        r@ == trim_seq(v@),
{
    let n = v.len();
    let mut a: usize = 0;
    while a < n && is_whitespace(v[a])
        invariant
            a <= n == v@.len(),
            forall|j: int| 0 <= j < a ==> whitespace_char(v@[j]),
        decreases n - a,
    {
        a += 1;
    }
    let mut b: usize = n;
    while b > a && is_whitespace(v[b - 1])
        invariant
            a <= b <= n == v@.len(),
            forall|j: int| b <= j < n ==> whitespace_char(v@[j]),
        decreases b,
    {
        b -= 1;
    }
    proof {
        lemma_trim_start_bounds(v@);
        lemma_trim_end_bounds(v@);
        if a < n {
            lemma_trim_start_step(v@, a as int);
            let t = v@.subrange(a as int, n as int);
            assert(t[0] == v@[a as int]);
            assert(trim_start_at(v@) == a);
        } else {
            if n > 0 {
                lemma_trim_start_step(v@, n - 1);
                let t = v@.subrange(n - 1, n as int);
                assert(t[0] == v@[n - 1]);
                assert(whitespace_char(t[0]));
                assert(t.subrange(1, t.len() as int) =~= Seq::<char>::empty());
                assert(trim_start_at(t.subrange(1, t.len() as int)) == 0);
                assert(trim_start_at(t) == 1);
            } else {
                assert(v@ =~= Seq::<char>::empty());
            }
            assert(trim_start_at(v@) == n);
        }
        lemma_trim_end_step(v@, b as int);
        let u = v@.subrange(0, b as int);
        if b > a {
            assert(u[u.len() - 1] == v@[b - 1]);
            assert(trim_end_at(u) == b);
        }
    }
    let mut r: Vec<char> = Vec::new();
    let mut i: usize = a;
    while i < b
        invariant
            a <= i <= b <= n == v@.len(),
            r@ == v@.subrange(a as int, i as int),
        decreases b - i,
    {
        r.push(v[i]);
        i += 1;
    }
    proof {
        if a < b {
            assert(trim_end_at(v@) == b);
        } else {
            assert(r@ =~= Seq::<char>::empty());
        }
    }
    r
}

pub open spec fn digit_char(d: int) -> char {
    if d == 0 { '0' } else if d == 1 { '1' } else if d == 2 { '2' } else if d == 3 { '3' }
    else if d == 4 { '4' } else if d == 5 { '5' } else if d == 6 { '6' } else if d == 7 { '7' }
    else if d == 8 { '8' } else { '9' }
}

/// The decimal digits of `n`, most significant first.
pub open spec fn decimal_seq(n: nat) -> Seq<char>
    decreases n,
{
    if n < 10 {
        seq![digit_char(n as int)]
    } else {
        decimal_seq(n / 10).push(digit_char((n % 10) as int))
    }
}

fn digit(d: u64) -> (c: char)
    requires
        d < 10,
    ensures
        c == digit_char(d as int),
{
    if d == 0 { '0' } else if d == 1 { '1' } else if d == 2 { '2' } else if d == 3 { '3' }
    else if d == 4 { '4' } else if d == 5 { '5' } else if d == 6 { '6' } else if d == 7 { '7' }
    else if d == 8 { '8' } else { '9' }
}

fn push_decimal(n: u64, out: &mut Vec<char>)
    ensures
        final(out)@ == old(out)@ + decimal_seq(n as nat),
    decreases n,
{
    if n >= 10 {
        push_decimal(n / 10, out);
    }
    out.push(digit(n % 10));
    proof {
        if n < 10 {
            assert(n % 10 == n);
        }
        assert(final(out)@ =~= old(out)@ + decimal_seq(n as nat));
    }
}

/// The decimal text of `n`.
pub fn decimal(n: u64) -> (r: String)
    ensures
        r@ == decimal_seq(n as nat),
{
    let mut v: Vec<char> = Vec::new();
    push_decimal(n, &mut v);
    assert(v@ =~= decimal_seq(n as nat));
    from_chars(&v)
}

/// A value in thousandths, rounded half up to hundredths and written with two
/// decimals (`505` is `0.51`, `-250` is `-0.25`).
pub open spec fn fixed2_seq(v: int) -> Seq<char> {
    let m = if v < 0 { -v } else { v };
    let r = (m + 5) / 10;
    let sign = if v < 0 && r > 0 { seq!['-'] } else { Seq::<char>::empty() };
    sign + decimal_seq((r / 100) as nat) + seq!['.', digit_char((r / 10) % 10), digit_char(r % 10)]
}

/// Renders a value in thousandths with two decimals.
pub fn fixed2(v: i64) -> (r: String)
    ensures
        r@ == fixed2_seq(v as int),
{
    let m: u128 = if v < 0 { (-(v as i128)) as u128 } else { v as u128 };
    let r: u64 = ((m + 5) / 10) as u64;
    let mut out: Vec<char> = Vec::new();
    if v < 0 && r > 0 {
        out.push('-');
    }
    push_decimal(r / 100, &mut out);
    out.push('.');
    out.push(digit((r / 10) % 10));
    out.push(digit(r % 10));
    assert(out@ =~= fixed2_seq(v as int));
    from_chars(&out)
}

} // verus!
