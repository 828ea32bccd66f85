//! Ordering of store positions: by recency, or by recency raised by
//! emotional intensity, with the later position first on ties.
use vstd::prelude::*;
use crate::types::Memory;

verus! {

/// Milliseconds of recency that one thousandth of emotional intensity is
/// worth in weighted recall.
pub const INTENSITY_WEIGHT: i128 = 1000;

pub open spec fn abs_int(x: int) -> int {
    if x < 0 {
        -x
    } else {
        x
    }
}

/// The ranking key of position `p`: its time, raised by its emotional
/// intensity when `weighted`.
pub open spec fn rank_key(s: Seq<Memory>, p: int, weighted: bool) -> int {
    if weighted {
        s[p].timestamp as int + abs_int(s[p].emotional_valence as int) * INTENSITY_WEIGHT
    } else {
        s[p].timestamp as int
    }
}

/// Position `p` ranks before position `q`.
pub open spec fn ahead(s: Seq<Memory>, p: int, q: int, weighted: bool) -> bool {
    rank_key(s, p, weighted) > rank_key(s, q, weighted) || (rank_key(s, p, weighted) == rank_key(
        s,
        q,
        weighted,
    ) && p > q)
}

/// `p` ranks before every other candidate.
pub open spec fn is_first(s: Seq<Memory>, cand: Set<int>, p: int, weighted: bool) -> bool {
    cand.contains(p) && forall|q: int| #[trigger] cand.contains(q) && q != p ==> ahead(s, p, q, weighted)
}

/// The first `k` candidates in ranking order (all of them when there are
/// fewer).
pub open spec fn ranked(s: Seq<Memory>, cand: Set<int>, k: nat, weighted: bool) -> Seq<int>
    decreases k,
{
    if k == 0 {
        Seq::empty()
    } else if exists|p: int| is_first(s, cand, p, weighted) {
        let p = choose|p: int| is_first(s, cand, p, weighted);
        seq![p] + ranked(s, cand.remove(p), (k - 1) as nat, weighted)
    } else {
        Seq::empty()
    }
}

/// At most one candidate ranks first.
pub proof fn lemma_first_unique(s: Seq<Memory>, cand: Set<int>, p: int, q: int, weighted: bool)
    requires
        is_first(s, cand, p, weighted),
        is_first(s, cand, q, weighted),
    ensures
        p == q,
{
    if p != q {
        assert(cand.contains(q));
        assert(ahead(s, p, q, weighted));
        assert(cand.contains(p));
        assert(ahead(s, q, p, weighted));
    }
}

/// The positions a sequence of indices holds.
pub open spec fn pos_set(c: Seq<usize>) -> Set<int> {
    Set::new(|p: int| exists|i: int| 0 <= i < c.len() && c[i] as int == p)
}

pub open spec fn as_ints(c: Seq<usize>) -> Seq<int> {
    c.map_values(|x: usize| x as int)
}

pub open spec fn distinct(c: Seq<usize>) -> bool {
    forall|i: int, j: int| 0 <= i < c.len() && 0 <= j < c.len() && i != j ==> c[i] != c[j]
}

pub open spec fn in_range(c: Seq<usize>, n: int) -> bool {
    forall|i: int| 0 <= i < c.len() ==> (c[i] as int) < n
}

fn key_of(s: &Vec<Memory>, p: usize, weighted: bool) -> (r: i128)
    requires
        p < s@.len(),
    ensures
        r == rank_key(s@, p as int, weighted),
{
    let m = &s[p];
    if weighted {
        let v: i128 = if m.emotional_valence < 0 { -(m.emotional_valence as i128) } else { m.emotional_valence as i128 };
        m.timestamp as i128 + v * INTENSITY_WEIGHT
    } else {
        m.timestamp as i128
    }
}

/// Whether position `p` ranks before position `q`.
pub fn is_ahead(s: &Vec<Memory>, p: usize, q: usize, weighted: bool) -> (r: bool)
    requires
        p < s@.len(),
        q < s@.len(),
    ensures
        r == ahead(s@, p as int, q as int, weighted),
{
    let kp = key_of(s, p, weighted);
    let kq = key_of(s, q, weighted);
    kp > kq || (kp == kq && p > q)
}

proof fn lemma_remove_pos(c: Seq<usize>, b: int)
    requires
        distinct(c),
        0 <= b < c.len(),
    ensures
        pos_set(c.remove(b)) == pos_set(c).remove(c[b] as int),
        distinct(c.remove(b)),
{
    let d = c.remove(b);
    assert forall|p: int| pos_set(d).contains(p) <==> pos_set(c).remove(c[b] as int).contains(p) by {
        if pos_set(d).contains(p) {
            let i = choose|i: int| 0 <= i < d.len() && d[i] as int == p;
            if i < b {
                assert(c[i] == d[i]);
            } else {
                assert(c[i + 1] == d[i]);
            }
        }
        if pos_set(c).remove(c[b] as int).contains(p) {
            let i = choose|i: int| 0 <= i < c.len() && c[i] as int == p;
            assert(i != b);
            if i < b {
                assert(d[i] == c[i]);
            } else {
                assert(d[i - 1] == c[i]);
            }
        }
    }
    assert(pos_set(d) =~= pos_set(c).remove(c[b] as int));
    assert forall|i: int, j: int| 0 <= i < d.len() && 0 <= j < d.len() && i != j implies d[i] != d[j] by {
        let ii = if i < b { i } else { i + 1 };
        let jj = if j < b { j } else { j + 1 };
        assert(d[i] == c[ii]);
        assert(d[j] == c[jj]);
    }
}

/// The first `k` of the candidate positions in ranking order.
pub fn rank_positions(s: &Vec<Memory>, cand: Vec<usize>, k: usize, weighted: bool) -> (r: Vec<usize>)
    requires
        distinct(cand@),
        in_range(cand@, s@.len() as int),
    ensures
        as_ints(r@) == ranked(s@, pos_set(cand@), k as nat, weighted),
        in_range(r@, s@.len() as int),
{
    let ghost all = pos_set(cand@);
    let mut rem = cand;
    let mut r: Vec<usize> = Vec::new();
    while r.len() < k && rem.len() > 0
        invariant
            r@.len() <= k,
            distinct(rem@),
            in_range(rem@, s@.len() as int),
            in_range(r@, s@.len() as int),
            ranked(s@, all, k as nat, weighted) == as_ints(r@) + ranked(
                s@,
                pos_set(rem@),
                (k - r@.len()) as nat,
                weighted,
            ),
        decreases rem@.len(),
    {
        let mut b: usize = 0;
        let mut j: usize = 1;
        while j < rem.len()
            invariant
                0 < rem@.len(),
                b < j <= rem@.len(),
                distinct(rem@),
                in_range(rem@, s@.len() as int),
                forall|t: int| 0 <= t < j && t != b ==> ahead(s@, rem@[b as int] as int, rem@[t] as int, weighted),
            decreases rem@.len() - j,
        {
            if is_ahead(s, rem[j], rem[b], weighted) {
                b = j;
            }
            j += 1;
        }
        let ghost set0 = pos_set(rem@);
        let ghost p = rem@[b as int] as int;
        proof {
            assert(set0.contains(p));
            assert forall|q: int| #[trigger] set0.contains(q) && q != p implies ahead(s@, p, q, weighted) by {
                let t = choose|t: int| 0 <= t < rem@.len() && rem@[t] as int == q;
                assert(t != b);
            }
            assert(is_first(s@, set0, p, weighted));
            let c = choose|c: int| is_first(s@, set0, c, weighted);
            lemma_first_unique(s@, set0, p, c, weighted);
            lemma_remove_pos(rem@, b as int);
            let kk = (k - r@.len()) as nat;
            assert(ranked(s@, set0, kk, weighted) == seq![p] + ranked(s@, set0.remove(p), (kk - 1) as nat, weighted));
        }
        let x = rem.remove(b);
        let ghost r0 = r@;
        r.push(x);
        proof {
            assert(as_ints(r@) =~= as_ints(r0).push(p));
            assert(as_ints(r@) + ranked(s@, pos_set(rem@), (k - r@.len()) as nat, weighted) =~= as_ints(r0) + (seq![p]
                + ranked(s@, pos_set(rem@), (k - r@.len()) as nat, weighted)));
        }
    }
    proof {
        let kk = (k - r@.len()) as nat;
        if rem@.len() == 0 {
            assert forall|p: int| !is_first(s@, pos_set(rem@), p, weighted) by {
                if pos_set(rem@).contains(p) {
                    let i = choose|i: int| 0 <= i < rem@.len() && rem@[i] as int == p;
                }
            }
        }
        assert(ranked(s@, pos_set(rem@), kk, weighted) == Seq::<int>::empty());
        assert(as_ints(r@) + Seq::<int>::empty() =~= as_ints(r@));
    }
    r
}

/// No position is ranked twice.
pub proof fn lemma_ranked_distinct(s: Seq<Memory>, cand: Set<int>, k: nat, weighted: bool)
    ensures
        ranked(s, cand, k, weighted).no_duplicates(),
        forall|i: int| 0 <= i < ranked(s, cand, k, weighted).len() ==> cand.contains(#[trigger] ranked(s, cand, k, weighted)[i]),
    decreases k,
{
    if k > 0 && exists|p: int| is_first(s, cand, p, weighted) {
        let p = choose|p: int| is_first(s, cand, p, weighted);
        let rest = ranked(s, cand.remove(p), (k - 1) as nat, weighted);
        lemma_ranked_distinct(s, cand.remove(p), (k - 1) as nat, weighted);
        let r = ranked(s, cand, k, weighted);
        assert(r == seq![p] + rest);
        assert forall|i: int| 0 <= i < r.len() implies cand.contains(#[trigger] r[i]) by {
            if i > 0 {
                assert(r[i] == rest[i - 1]);
            }
        }
        assert forall|i: int, j: int| 0 <= i < r.len() && 0 <= j < r.len() && i != j implies r[i] != r[j] by {
            if i > 0 {
                assert(r[i] == rest[i - 1]);
                assert(cand.remove(p).contains(rest[i - 1]));
            }
            if j > 0 {
                assert(r[j] == rest[j - 1]);
                assert(cand.remove(p).contains(rest[j - 1]));
            }
        }
    }
}

/// At most `k` positions are ranked.
pub proof fn lemma_ranked_len(s: Seq<Memory>, cand: Set<int>, k: nat, weighted: bool)
    ensures
        ranked(s, cand, k, weighted).len() <= k,
    decreases k,
{
    if k > 0 && exists|p: int| is_first(s, cand, p, weighted) {
        let p = choose|p: int| is_first(s, cand, p, weighted);
        lemma_ranked_len(s, cand.remove(p), (k - 1) as nat, weighted);
    }
}

} // verus!
