//! The append-only memory store: records, the entity index, weighted
//! recall, consolidation, compression and backup bookkeeping.
use vstd::prelude::*;
use vstd::relations::injective_on;
use vstd::set_lib::{lemma_int_range, lemma_map_size, lemma_subset_equality, set_int_range};
use crate::physics::{
    compressed_text, shared_count, connects, contains_string, entity_overlap, link_all, MemoryConservation,
    NarrativeCausality, RelationalGravity,
};
use crate::text::str_eq;
use crate::ranking::{as_ints, distinct, in_range, pos_set, rank_positions, ranked};
use crate::types::{
    views,valid_valence, Memory, MemorySource, MemoryType, DAY_MS};

verus! {

/// The capitalized-word runs (`Alice`, `New York`) that the pattern
/// `\b[A-Z][a-z]+(?:\s+[A-Z][a-z]+)*\b` finds in a text, left to right.
pub uninterp spec fn proper_noun_matches(s: Seq<char>) -> Seq<Seq<char>>;

/// The insides of the double-quoted spans that the pattern `"([^"]+)"`
/// finds in a text, left to right.
pub uninterp spec fn quoted_matches(s: Seq<char>) -> Seq<Seq<char>>;

/// Relies on regex's `Regex::find_iter`: the successive non-overlapping
/// matches of the capitalized-word pattern.
#[verifier::external_body]
fn proper_nouns(text: &str) -> (r: Vec<String>)
    ensures
        views(r@) == proper_noun_matches(text@),
{
    let re = regex::Regex::new(r"\b[A-Z][a-z]+(?:\s+[A-Z][a-z]+)*\b").unwrap();
    re.find_iter(text).map(|m| m.as_str().to_string()).collect()
}

/// Relies on regex's `Regex::captures_iter`: the first group of each
/// successive match of the quoted-span pattern.
#[verifier::external_body]
fn quoted_spans(text: &str) -> (r: Vec<String>)
    ensures
        views(r@) == quoted_matches(text@),
{
    let re = regex::Regex::new(r#""([^"]+)""#).unwrap();
    re.captures_iter(text).map(|c| c[1].to_string()).collect()
}

/// Words too common to stand for an entity.
pub open spec fn is_stop_word(w: Seq<char>) -> bool {
    w == "The"@ || w == "A"@ || w == "An"@ || w == "I"@
}

/// The capitalized words kept as entities: first occurrences only, stop
/// words left out.
pub open spec fn pick_nouns(ns: Seq<Seq<char>>) -> Seq<Seq<char>>
    decreases ns.len(),
{
    if ns.len() == 0 {
        ns
    } else {
        let r = pick_nouns(ns.drop_last());
        let x = ns.last();
        if r.contains(x) || is_stop_word(x) {
            r
        } else {
            r.push(x)
        }
    }
}

/// `r` extended by each of `qs` that it does not hold yet, in order.
pub open spec fn add_unique(r: Seq<Seq<char>>, qs: Seq<Seq<char>>) -> Seq<Seq<char>>
    decreases qs.len(),
{
    if qs.len() == 0 {
        r
    } else {
        let t = add_unique(r, qs.drop_last());
        if t.contains(qs.last()) {
            t
        } else {
            t.push(qs.last())
        }
    }
}

/// The entities of a text with these capitalized words and quoted spans:
/// a set, in order of first appearance.
pub open spec fn entities_from(nouns: Seq<Seq<char>>, quoted: Seq<Seq<char>>) -> Seq<Seq<char>> {
    add_unique(pick_nouns(nouns), quoted)
}

/// The entities that the store extracts from a text.
pub open spec fn entities_of(text: Seq<char>) -> Seq<Seq<char>> {
    entities_from(proper_noun_matches(text), quoted_matches(text))
}

fn is_stop(w: &String) -> (r: bool)
    ensures
        r == is_stop_word(w@),
{
    let s = w.as_str();
    str_eq(s, "The") || str_eq(s, "A") || str_eq(s, "An") || str_eq(s, "I")
}

/// Keeps the first occurrence of each capitalized word that is not a stop
/// word, then each quoted span not kept yet.
pub fn select_entities(nouns: Vec<String>, quoted: Vec<String>) -> (r: Vec<String>)
    ensures
        views(r@) == entities_from(views(nouns@), views(quoted@)),
        views(r@).no_duplicates(),
{
    let mut r: Vec<String> = Vec::new();
    let mut i: usize = 0;
    while i < nouns.len()
        invariant
            i <= nouns@.len(),
            views(r@) == pick_nouns(views(nouns@.subrange(0, i as int))),
            views(r@).no_duplicates(),
        decreases nouns@.len() - i,
    {
        let ghost before = views(nouns@.subrange(0, i as int));
        let w = &nouns[i];
        if !contains_string(&r, w) && !is_stop(w) {
            let ghost r0 = views(r@);
            r.push(w.clone());
            proof {
                lemma_push_fresh(r0, w@);
                assert(views(r@) =~= r0.push(w@));
            }
        }
        proof {
            let now = views(nouns@.subrange(0, i + 1));
            assert(now.drop_last() =~= before);
            assert(now.last() == nouns@[i as int]@);
            assert(views(r@) =~= pick_nouns(now));
        }
        i += 1;
    }
    assert(nouns@.subrange(0, nouns@.len() as int) =~= nouns@);
    let mut j: usize = 0;
    let ghost picked = views(r@);
    while j < quoted.len()
        invariant
            j <= quoted@.len(),
            views(r@) == add_unique(picked, views(quoted@.subrange(0, j as int))),
            views(r@).no_duplicates(),
        decreases quoted@.len() - j,
    {
        let ghost b = views(r@);
        proof {
            let sub = views(quoted@.subrange(0, j + 1));
            assert(sub.drop_last() =~= views(quoted@.subrange(0, j as int)));
            assert(sub.last() == quoted@[j as int]@);
        }
        if !contains_string(&r, &quoted[j]) {
            r.push(quoted[j].clone());
            proof {
                lemma_push_fresh(b, quoted@[j as int]@);
                assert(views(r@) =~= b.push(quoted@[j as int]@));
            }
        }
        j += 1;
    }
    assert(quoted@.subrange(0, quoted@.len() as int) =~= quoted@);
    r
}

proof fn lemma_push_fresh(s: Seq<Seq<char>>, x: Seq<char>)
    requires
        s.no_duplicates(),
        !s.contains(x),
    ensures
        s.push(x).no_duplicates(),
{
    let d = s.push(x);
    assert forall|i: int, j: int| 0 <= i < d.len() && 0 <= j < d.len() && i != j implies d[i] != d[j] by {
        if i == s.len() {
            assert(d[j] == s[j]);
        }
        if j == s.len() {
            assert(d[i] == s[i]);
        }
    }
}

/// Why the store refused an operation.
#[derive(Clone, Copy, Debug, PartialEq, Eq, Structural)]
pub enum MemoryError {
    /// A record with the same id is already stored.
    DuplicateId,
    /// No backup snapshot exists.
    NoBackup,
    /// A snapshot breaks the store's invariant.
    InvalidSnapshot,
}

impl MemoryError {
    pub fn message(&self) -> (r: String)
        ensures
            r@ == match *self {
                MemoryError::DuplicateId => "A memory with this id already exists"@,
                MemoryError::NoBackup => "No backup file found"@,
                MemoryError::InvalidSnapshot => "Backup snapshot is not a valid memory stream"@,
            },
    {
        match self {
            MemoryError::DuplicateId => String::from_str("A memory with this id already exists"),
            MemoryError::NoBackup => String::from_str("No backup file found"),
            MemoryError::InvalidSnapshot => String::from_str("Backup snapshot is not a valid memory stream"),
        }
    }
}

/// The ids of a sequence of records.
pub open spec fn ids(s: Seq<Memory>) -> Seq<Seq<char>> {
    s.map_values(|m: Memory| m.id@)
}

pub open spec fn ids_unique(s: Seq<Memory>) -> bool {
    forall|i: int, j: int| 0 <= i < s.len() && 0 <= j < s.len() && i != j ==> s[i].id@ != s[j].id@
}

pub open spec fn records_wf(s: Seq<Memory>) -> bool {
    forall|i: int| 0 <= i < s.len() ==> (#[trigger] s[i]).wf()
}

/// The record `x` is in `b` under its id, with its connections only
/// extended.
pub open spec fn kept_in(b: Seq<Memory>, x: Memory) -> bool {
    exists|j: int|
        0 <= j < b.len() && (#[trigger] b[j]).id@ == x.id@ && views(x.connections@).is_prefix_of(
            views(b[j].connections@),
        )
}

/// Every record of `a` is still in `b`, under the same id and with its
/// connections only extended; `b` holds at least as many records.
pub open spec fn conserves(a: Seq<Memory>, b: Seq<Memory>) -> bool {
    &&& a.len() <= b.len()
    &&& forall|i: int| 0 <= i < a.len() ==> kept_in(b, #[trigger] a[i])
}

/// Conservation holds across any sequence of store operations: if each
/// step keeps every record, so does the whole run.
pub proof fn lemma_conservation_chain(a: Seq<Memory>, b: Seq<Memory>, c: Seq<Memory>)
    requires
        conserves(a, b),
        conserves(b, c),
    ensures
        conserves(a, c),
        c.len() >= a.len(),
{
    assert forall|i: int| 0 <= i < a.len() implies kept_in(c, #[trigger] a[i]) by {
        assert(kept_in(b, a[i]));
        let j = choose|j: int|
            0 <= j < b.len() && (#[trigger] b[j]).id@ == a[i].id@ && views(a[i].connections@).is_prefix_of(
                views(b[j].connections@),
            );
        assert(kept_in(c, b[j]));
        let k = choose|k: int|
            0 <= k < c.len() && (#[trigger] c[k]).id@ == b[j].id@ && views(b[j].connections@).is_prefix_of(
                views(c[k].connections@),
            );
        let x = views(a[i].connections@);
        let y = views(b[j].connections@);
        let z = views(c[k].connections@);
        assert forall|t: int| 0 <= t < x.len() implies x[t] == z[t] by {
            assert(x[t] == y[t]);
        }
        assert(x.is_prefix_of(z));
    }
}

/// A store conserves itself.
pub proof fn lemma_conservation_refl(a: Seq<Memory>)
    ensures
        conserves(a, a),
{
    assert forall|i: int| 0 <= i < a.len() implies kept_in(a, #[trigger] a[i]) by {
        assert(views(a[i].connections@).is_prefix_of(views(a[i].connections@)));
    }
}

/// The whole store: records in insertion order, the entity index, and when
/// the last backup was taken. The index maps each entity to the ordered
/// ids of the records that mention it, held as (entity, record id)
/// postings in order of mention.
#[derive(Debug)]
pub struct MemoryStream {
    pub memories: Vec<Memory>,
    pub entity_index: Vec<(String, String)>,
    pub backup_created_at: Option<i64>,
}

impl MemoryStream {
    pub open spec fn wf(&self) -> bool {
        records_wf(self.memories@) && ids_unique(self.memories@)
    }

    /// An empty store that was never backed up.
    pub fn new() -> (r: MemoryStream)
        ensures
            r.wf(),
            r.memories@.len() == 0,
            r.entity_index@.len() == 0,
            r.backup_created_at is None,
    {
        MemoryStream { memories: Vec::new(), entity_index: Vec::new(), backup_created_at: None }
    }

    /// Whether the stream meets the store's invariant.
    pub fn is_valid(&self) -> (r: bool)
        ensures
            r == self.wf(),
    {
        let n = self.memories.len();
        let mut i: usize = 0;
        while i < n
            invariant
                i <= n == self.memories@.len(),
                forall|a: int| 0 <= a < i ==> (#[trigger] self.memories@[a]).wf(),
                forall|a: int, b: int| 0 <= a < i && 0 <= b < n && a != b ==> self.memories@[a].id@
                    != self.memories@[b].id@,
            decreases n - i,
        {
            let m = &self.memories[i];
            if !(-1000 <= m.emotional_valence && m.emotional_valence <= 1000 && m.confidence <= 1000) {
                return false;
            }
            if !distinct_strings(&m.entities) || !distinct_strings(&m.connections) || contains_string(
                &m.connections,
                &m.id,
            ) {
                return false;
            }
            let mut j: usize = 0;
            while j < n
                invariant
                    i < n,
                    j <= n == self.memories@.len(),
                    forall|b: int| 0 <= b < j && b != i ==> self.memories@[i as int].id@
                        != self.memories@[b].id@,
                decreases n - j,
            {
                if j != i && self.memories[j].id == self.memories[i].id {
                    return false;
                }
                j += 1;
            }
            i += 1;
        }
        true
    }
}

/// Whether no two strings of `v` have the same view.
pub fn distinct_strings(v: &Vec<String>) -> (r: bool)
    ensures
        r == views(v@).no_duplicates(),
{
    let n = v.len();
    let mut i: usize = 0;
    while i < n
        invariant
            i <= n == v@.len(),
            forall|a: int, b: int| 0 <= a < i && 0 <= b < n && a != b ==> v@[a]@ != v@[b]@,
        decreases n - i,
    {
        let mut j: usize = 0;
        while j < n
            invariant
                i < n == v@.len(),
                j <= n,
                forall|a: int, b: int| 0 <= a < i && 0 <= b < n && a != b ==> v@[a]@ != v@[b]@,
                forall|b: int| 0 <= b < j && b != i ==> v@[i as int]@ != v@[b]@,
            decreases n - j,
        {
            if j != i && v[i] == v[j] {
                assert(views(v@)[i as int] == views(v@)[j as int]);
                return false;
            }
            j += 1;
        }
        i += 1;
    }
    assert forall|a: int, b: int| 0 <= a < views(v@).len() && 0 <= b < views(v@).len() && a != b implies views(
        v@,
    )[a] != views(v@)[b] by {
        assert(views(v@)[a] == v@[a]@);
        assert(views(v@)[b] == v@[b]@);
    }
    true
}

/// Whether the id `id` occurs among the records.
pub fn has_id(s: &Vec<Memory>, id: &String) -> (r: bool)
    ensures
        r == ids(s@).contains(id@),
{
    let mut i: usize = 0;
    while i < s.len()
        invariant
            i <= s@.len(),
            forall|j: int| 0 <= j < i ==> s@[j].id@ != id@,
        decreases s@.len() - i,
    {
        if s[i].id == *id {
            assert(ids(s@)[i as int] == id@);
            return true;
        }
        i += 1;
    }
    assert forall|j: int| 0 <= j < ids(s@).len() implies ids(s@)[j] != id@ by {
        assert(ids(s@)[j] == s@[j].id@);
    }
    false
}

/// Record count above which the store is sorted and its oldest records
/// compressed.
pub const COMPRESSION_THRESHOLD: usize = 1000;

/// How many of the oldest records are compressed.
pub const COMPRESSION_BATCH: usize = 100;

/// The times of a sequence of records.
pub open spec fn timestamps(s: Seq<Memory>) -> Seq<i64> {
    s.map_values(|m: Memory| m.timestamp)
}

/// Position `q` is older than position `p`: earlier in time, or as old and
/// stored before it.
pub open spec fn older(ts: Seq<i64>, q: int, p: int) -> bool {
    ts[q] < ts[p] || (ts[q] == ts[p] && q < p)
}

/// How many of the first `n` positions are older than `p`.
pub open spec fn older_count(ts: Seq<i64>, p: int, n: int) -> nat
    decreases n,
{
    if n <= 0 {
        0
    } else {
        older_count(ts, p, n - 1) + if older(ts, n - 1, p) { 1nat } else { 0nat }
    }
}

proof fn lemma_older_count_mono(ts: Seq<i64>, p: int, a: int, b: int)
    requires
        a <= b,
    ensures
        older_count(ts, p, a) <= older_count(ts, p, b),
    decreases b - a,
{
    if a < b {
        lemma_older_count_mono(ts, p, a, b - 1);
    }
}

/// Where position `p` stands once the store is sorted by time, ties kept
/// in store order: the number of positions older than it.
pub open spec fn rank(ts: Seq<i64>, p: int) -> int {
    older_count(ts, p, ts.len() as int) as int
}

proof fn lemma_older_count_gap(ts: Seq<i64>, q: int, p: int, m: int)
    requires
        0 <= q < ts.len(),
        0 <= p < ts.len(),
        0 <= m <= ts.len(),
        older(ts, q, p),
    ensures
        older_count(ts, p, m) >= older_count(ts, q, m) + if q < m { 1int } else { 0int },
    decreases m,
{
    if m > 0 {
        lemma_older_count_gap(ts, q, p, m - 1);
    }
}

proof fn lemma_older_count_bound(ts: Seq<i64>, p: int, m: int)
    requires
        0 <= p < ts.len(),
        0 <= m <= ts.len(),
    ensures
        older_count(ts, p, m) + (if p < m { 1int } else { 0int }) <= m,
    decreases m,
{
    if m > 0 {
        lemma_older_count_bound(ts, p, m - 1);
    }
}

/// Some position has rank `k`.
pub open spec fn has_rank(ts: Seq<i64>, k: int) -> bool {
    exists|p: int| 0 <= p < ts.len() && rank(ts, p) == k
}

/// Ranks number the positions one to one.
pub proof fn lemma_rank_bijective(ts: Seq<i64>)
    ensures
        forall|p: int| 0 <= p < ts.len() ==> 0 <= #[trigger] rank(ts, p) < ts.len(),
        forall|p: int, q: int|
            0 <= p < ts.len() && 0 <= q < ts.len() && p != q ==> #[trigger] rank(ts, p) != #[trigger] rank(ts, q),
        forall|k: int| 0 <= k < ts.len() ==> #[trigger] has_rank(ts, k),
{
    let n = ts.len() as int;
    assert forall|p: int| 0 <= p < n implies 0 <= #[trigger] rank(ts, p) < n by {
        lemma_older_count_bound(ts, p, n);
    }
    assert forall|p: int, q: int| 0 <= p < n && 0 <= q < n && p != q implies #[trigger] rank(ts, p) != #[trigger] rank(ts, q) by {
        if older(ts, q, p) {
            lemma_older_count_gap(ts, q, p, n);
        } else {
            assert(older(ts, p, q));
            lemma_older_count_gap(ts, p, q, n);
        }
    }
    let x = set_int_range(0, n);
    let f = |p: int| rank(ts, p);
    let y = x.map(f);
    lemma_int_range(0, n);
    assert(injective_on(f, x));
    lemma_map_size(x, y, f);
    assert(y.subset_of(x)) by {
        assert forall|k: int| y.contains(k) implies x.contains(k) by {
            let p = choose|p: int| x.contains(p) && f(p) == k;
        }
    }
    lemma_subset_equality(y, x);
    assert forall|k: int| 0 <= k < n implies #[trigger] has_rank(ts, k) by {
        assert(x.contains(k));
        assert(y.contains(k));
        let p = choose|p: int| x.contains(p) && f(p) == k;
        assert(rank(ts, p) == k);
    }
}

proof fn lemma_sorted_count(ts: Seq<i64>, k: int, m: int)
    requires
        forall|i: int, j: int| 0 <= i < j < ts.len() ==> ts[i] <= ts[j],
        0 <= k < ts.len(),
        0 <= m <= ts.len(),
    ensures
        older_count(ts, k, m) == if m < k { m } else { k },
    decreases m,
{
    if m > 0 {
        lemma_sorted_count(ts, k, m - 1);
        if m - 1 < k {
            assert(ts[m - 1] <= ts[k]);
        } else if m - 1 > k {
            assert(ts[k] <= ts[m - 1]);
        }
    }
}

/// Two records agree on every field but their content.
pub open spec fn same_but_content(a: Memory, b: Memory) -> bool {
    &&& a.id@ == b.id@
    &&& a.entities@ == b.entities@
    &&& a.memory_type == b.memory_type
    &&& a.timestamp == b.timestamp
    &&& a.emotional_valence == b.emotional_valence
    &&& a.connections@ == b.connections@
    &&& a.source == b.source
    &&& a.confidence == b.confidence
}

/// The record at position `p` of `a` stands at its rank in `b`, its
/// content compressed when the rank is below a hundred.
pub open spec fn placed(a: Seq<Memory>, b: Seq<Memory>, p: int) -> bool {
    let k = rank(timestamps(a), p);
    &&& same_but_content(a[p], b[k])
    &&& b[k].content@ == if k < COMPRESSION_BATCH {
        compressed_text(a[p].content@)
    } else {
        a[p].content@
    }
}

/// `b` is `a` after the compression check: up to a thousand records nothing
/// changes; past that the records are sorted by time (ties in store order)
/// and the hundred oldest compressed.
pub open spec fn compression_of(a: Seq<Memory>, b: Seq<Memory>) -> bool {
    if a.len() <= COMPRESSION_THRESHOLD {
        b == a
    } else {
        &&& b.len() == a.len()
        &&& forall|p: int| 0 <= p < a.len() ==> #[trigger] placed(a, b, p)
    }
}

/// Past the threshold, the compressed store is a rearrangement of the old
/// one, sorted by time.
pub proof fn lemma_compression_sorted(a: Seq<Memory>, b: Seq<Memory>)
    requires
        compression_of(a, b),
        a.len() > COMPRESSION_THRESHOLD,
    ensures
        forall|k: int| 0 <= k < b.len() ==> #[trigger] has_rank(timestamps(a), k),
        forall|i: int, j: int| 0 <= i < j < b.len() ==> b[i].timestamp <= b[j].timestamp,
{
    let ts = timestamps(a);
    lemma_rank_bijective(ts);
    assert forall|i: int, j: int| 0 <= i < j < b.len() implies b[i].timestamp <= b[j].timestamp by {
        assert(has_rank(ts, i));
        let p = choose|p: int| 0 <= p < ts.len() && rank(ts, p) == i;
        assert(has_rank(ts, j));
        let q = choose|q: int| 0 <= q < ts.len() && rank(ts, q) == j;
        assert(placed(a, b, p));
        assert(placed(a, b, q));
        if ts[q] < ts[p] {
            assert(older(ts, q, p));
            lemma_older_count_gap(ts, q, p, ts.len() as int);
        }
    }
}

/// Compression keeps every record.
pub proof fn lemma_compression_conserves(a: Seq<Memory>, b: Seq<Memory>)
    requires
        compression_of(a, b),
    ensures
        conserves(a, b),
{
    if a.len() <= COMPRESSION_THRESHOLD {
        lemma_conservation_refl(a);
    } else {
        let ts = timestamps(a);
        lemma_rank_bijective(ts);
        assert forall|i: int| 0 <= i < a.len() implies kept_in(b, #[trigger] a[i]) by {
            assert(placed(a, b, i));
            let k = rank(ts, i);
            assert(views(a[i].connections@) =~= views(b[k].connections@));
            assert(views(a[i].connections@).is_prefix_of(views(b[k].connections@)));
        }
    }
}

/// Running the compression check a second time, with no record added in
/// between, changes no content.
pub proof fn lemma_compression_idempotent_store(a: Seq<Memory>, b: Seq<Memory>, c: Seq<Memory>)
    requires
        compression_of(a, b),
        compression_of(b, c),
    ensures
        c.len() == b.len(),
        forall|p: int| 0 <= p < c.len() ==> (#[trigger] c[p]).content@ == b[p].content@,
{
    if a.len() > COMPRESSION_THRESHOLD {
        let ta = timestamps(a);
        let tb = timestamps(b);
        lemma_compression_sorted(a, b);
        lemma_rank_bijective(ta);
        assert forall|k: int| 0 <= k < b.len() implies (#[trigger] c[k]).content@ == b[k].content@ by {
            assert forall|i: int, j: int| 0 <= i < j < tb.len() implies tb[i] <= tb[j] by {
                assert(tb[i] == b[i].timestamp);
                assert(tb[j] == b[j].timestamp);
            }
            lemma_sorted_count(tb, k, tb.len() as int);
            assert(rank(tb, k) == k);
            assert(placed(b, c, k));
            assert(has_rank(ta, k));
            let p = choose|p: int| 0 <= p < ta.len() && rank(ta, p) == k;
            assert(placed(a, b, p));
            crate::physics::lemma_compression_idempotent(a[p].content@);
        }
    }
}

/// How many positions are older than `p`, counting no further than `cap`.
fn count_older(s: &Vec<Memory>, p: usize, cap: usize) -> (r: usize)
    requires
        p < s@.len(),
    ensures
        r == min_nat(older_count(timestamps(s@), p as int, s@.len() as int), cap as nat),
{
    let ghost ts = timestamps(s@);
    let n = s.len();
    let mut c: usize = 0;
    let mut q: usize = 0;
    while q < n
        invariant
            q <= n == s@.len(),
            ts == timestamps(s@),
            p < n,
            c == older_count(ts, p as int, q as int),
            c <= q,
        decreases n - q,
    {
        if c >= cap {
            proof {
                lemma_older_count_mono(ts, p as int, q as int, n as int);
            }
            return cap;
        }
        let t = s[q].timestamp;
        let tp = s[p].timestamp;
        assert(ts[q as int] == t && ts[p as int] == tp);
        if t < tp || (t == tp && q < p) {
            c += 1;
        }
        q += 1;
    }
    if c >= cap {
        cap
    } else {
        c
    }
}

pub open spec fn min_nat(a: nat, b: nat) -> nat {
    if a < b {
        a
    } else {
        b
    }
}

/// Copies every record of a store.
fn copy_records(s: &Vec<Memory>) -> (r: Vec<Memory>)
    ensures
        r@.len() == s@.len(),
        forall|i: int| 0 <= i < s@.len() ==> (#[trigger] r@[i]).same_as(&s@[i]),
{
    let mut r: Vec<Memory> = Vec::new();
    let mut i: usize = 0;
    while i < s.len()
        invariant
            i <= s@.len(),
            r@.len() == i,
            forall|j: int| 0 <= j < i ==> (#[trigger] r@[j]).same_as(&s@[j]),
        decreases s@.len() - i,
    {
        r.push(s[i].duplicate());
        i += 1;
    }
    r
}

/// `r` holds copies of the records at positions `ps`, in order.
pub open spec fn records_at(s: Seq<Memory>, ps: Seq<int>, r: Seq<Memory>) -> bool {
    &&& r.len() == ps.len()
    &&& forall|i: int| 0 <= i < r.len() ==> (#[trigger] r[i]).same_as(&s[ps[i]])
}

fn copy_at(s: &Vec<Memory>, ps: &Vec<usize>) -> (r: Vec<Memory>)
    requires
        crate::ranking::in_range(ps@, s@.len() as int),
    ensures
        records_at(s@, crate::ranking::as_ints(ps@), r@),
{
    let mut r: Vec<Memory> = Vec::new();
    let mut i: usize = 0;
    while i < ps.len()
        invariant
            i <= ps@.len(),
            crate::ranking::in_range(ps@, s@.len() as int),
            r@.len() == i,
            forall|j: int| 0 <= j < i ==> (#[trigger] r@[j]).same_as(&s@[ps@[j] as int]),
        decreases ps@.len() - i,
    {
        r.push(s[ps[i]].duplicate());
        i += 1;
    }
    r
}

/// Some posting of the index names an entity of `es` and the record `id`.
pub open spec fn mentioned(index: Seq<(String, String)>, es: Seq<Seq<char>>, id: Seq<char>) -> bool {
    exists|j: int| 0 <= j < index.len() && es.contains(#[trigger] index[j].0@) && index[j].1@ == id
}

/// The positions among the first `n` whose record the index ties to one of
/// the entities `es`, in store order.
pub open spec fn matched_positions(s: Seq<Memory>, index: Seq<(String, String)>, es: Seq<Seq<char>>, n: int) -> Seq<int>
    decreases n,
{
    if n <= 0 {
        Seq::empty()
    } else {
        let r = matched_positions(s, index, es, n - 1);
        if mentioned(index, es, s[n - 1].id@) {
            r.push(n - 1)
        } else {
            r
        }
    }
}

/// Every position of the store.
pub open spec fn all_positions(n: int) -> Set<int> {
    Set::new(|p: int| 0 <= p < n)
}

/// The positions that `recall_recent(k)` returns.
pub open spec fn recent_positions(s: Seq<Memory>, k: nat) -> Seq<int> {
    crate::ranking::ranked(s, all_positions(s.len() as int), k, false)
}

/// Most records that weighted recall returns.
pub const RECALL_LIMIT: usize = 10;

/// The positions that `recall_weighted(es, k)` returns: the records tied to
/// the entities together with the `k` most recent, ranked by recency
/// raised by emotional intensity, at most ten.
pub open spec fn weighted_positions(s: Seq<Memory>, index: Seq<(String, String)>, es: Seq<Seq<char>>, k: nat) -> Seq<int> {
    let cand = matched_positions(s, index, es, s.len() as int).to_set().union(recent_positions(s, k).to_set());
    crate::ranking::ranked(s, cand, RECALL_LIMIT as nat, true)
}

/// Recall is deterministic: two weighted recalls with the same entities
/// and count on an unchanged store return the same records in the same
/// order.
pub proof fn lemma_recall_deterministic(
    m: MemoryManager,
    es: Seq<Seq<char>>,
    k: nat,
    r1: Seq<Memory>,
    r2: Seq<Memory>,
)
    requires
        records_at(m.records(), weighted_positions(m.records(), m.stream.entity_index@, es, k), r1),
        records_at(m.records(), weighted_positions(m.records(), m.stream.entity_index@, es, k), r2),
    ensures
        r1.len() == r2.len(),
        forall|i: int| 0 <= i < r1.len() ==> (#[trigger] r1[i]).same_as(&r2[i]),
{
}

/// Whether some posting ties one of the entities to `id`.
fn is_mentioned(index: &Vec<(String, String)>, es: &[String], id: &String) -> (r: bool)
    ensures
        r == mentioned(index@, views(es@), id@),
{
    let ev: Vec<String> = slice_to_strings(es);
    let mut j: usize = 0;
    while j < index.len()
        invariant
            j <= index@.len(),
            views(ev@) == views(es@),
            forall|t: int| 0 <= t < j ==> !(views(es@).contains(#[trigger] index@[t].0@) && index@[t].1@ == id@),
        decreases index@.len() - j,
    {
        if index[j].1 == *id && contains_string(&ev, &index[j].0) {
            return true;
        }
        j += 1;
    }
    false
}

fn slice_to_strings(es: &[String]) -> (r: Vec<String>)
    ensures
        views(r@) == views(es@),
{
    let mut r: Vec<String> = Vec::new();
    let mut i: usize = 0;
    while i < es.len()
        invariant
            i <= es@.len(),
            r@ == es@.subrange(0, i as int),
        decreases es@.len() - i,
    {
        r.push(es[i].clone());
        i += 1;
    }
    assert(r@ =~= es@);
    r
}

/// The store, with the path of its snapshot file.
#[derive(Debug)]
pub struct MemoryManager {
    pub stream: MemoryStream,
    pub file_path: String,
}

impl MemoryManager {
    pub open spec fn wf(&self) -> bool {
        self.stream.wf()
    }

    pub open spec fn records(&self) -> Seq<Memory> {
        self.stream.memories@
    }

    /// A manager over a stream, which must meet the store's invariant.
    pub fn from_stream(stream: MemoryStream, file_path: String) -> (r: Result<MemoryManager, MemoryError>)
        ensures
            stream.wf() ==> (r matches Ok(m) && m.stream == stream && m.file_path == file_path),
            !stream.wf() ==> r == Err::<MemoryManager, MemoryError>(MemoryError::InvalidSnapshot),
    {
        if stream.is_valid() {
            Ok(MemoryManager { stream, file_path })
        } else {
            Err(MemoryError::InvalidSnapshot)
        }
    }

    /// An empty store kept at `file_path`.
    pub fn empty(file_path: String) -> (r: MemoryManager)
        ensures
            r.wf(),
            r.records().len() == 0,
            r.stream.entity_index@.len() == 0,
            r.stream.backup_created_at is None,
            r.file_path == file_path,
    {
        MemoryManager { stream: MemoryStream::new(), file_path }
    }

    /// Where the backup snapshot lives: the store's path with `.backup`.
    pub fn backup_path(&self) -> (r: String)
        ensures
            r@ == self.file_path@ + ".backup"@,
    {
        crate::physics::join2(self.file_path.as_str(), ".backup")
    }

    /// The entities of a text: its capitalized words, each once and without
    /// `The`, `A`, `An` and `I`, then its quoted spans.
    pub fn extract_entities(&self, text: &str) -> (r: Vec<String>)
        ensures
            views(r@) == entities_of(text@),
            views(r@).no_duplicates(),
    {
        select_entities(proper_nouns(text), quoted_spans(text))
    }

    /// Once the store holds more than a thousand records, sorts them by
    /// time (ties in store order) and compresses the hundred oldest; nothing
    /// is removed.
    pub fn check_compression(&mut self)
        requires
            old(self).wf(),
        ensures
            final(self).wf(),
            compression_of(old(self).records(), final(self).records()),
            conserves(old(self).records(), final(self).records()),
            final(self).stream.entity_index == old(self).stream.entity_index,
            final(self).stream.backup_created_at == old(self).stream.backup_created_at,
            final(self).file_path == old(self).file_path,
    {
        let ghost a = self.records();
        let n = self.stream.memories.len();
        if n <= COMPRESSION_THRESHOLD {
            proof {
                lemma_conservation_refl(a);
            }
            return;
        }
        let ghost ts = timestamps(a);
        proof {
            lemma_rank_bijective(ts);
        }
        let mut out = copy_records(&self.stream.memories);
        let mut p: usize = 0;
        while p < n
            invariant
                p <= n == a.len() == out@.len(),
                n > COMPRESSION_THRESHOLD,
                a == self.records(),
                ts == timestamps(a),
                a == old(self).records(),
                forall|q: int| 0 <= q < n ==> 0 <= #[trigger] rank(ts, q) < n,
                forall|q: int, r: int| 0 <= q < n && 0 <= r < n && q != r ==> #[trigger] rank(ts, q) != #[trigger] rank(ts, r),
                forall|q: int| 0 <= q < p ==> #[trigger] placed(a, out@, q),
                self.stream.entity_index == old(self).stream.entity_index,
                self.stream.backup_created_at == old(self).stream.backup_created_at,
                self.file_path == old(self).file_path,
            decreases n - p,
        {
            let k = count_older(&self.stream.memories, p, n);
            assert(k as int == rank(ts, p as int));
            let x = if k < COMPRESSION_BATCH {
                MemoryConservation::compress_memory(&self.stream.memories[p])
            } else {
                self.stream.memories[p].duplicate()
            };
            let ghost before = out@;
            out.set(k, x);
            proof {
                assert forall|q: int| 0 <= q < p + 1 implies #[trigger] placed(a, out@, q) by {
                    if q < p {
                        assert(placed(a, before, q));
                        assert(rank(ts, q) != k);
                        assert(out@[rank(ts, q)] == before[rank(ts, q)]);
                    }
                }
            }
            p += 1;
        }
        self.stream.memories = out;
        proof {
            let b = self.records();
            assert(compression_of(a, b));
            lemma_compression_conserves(a, b);
            lemma_compression_sorted(a, b);
            assert forall|k: int| 0 <= k < n implies (#[trigger] b[k]).wf() by {
                assert(has_rank(ts, k));
                let p = choose|p: int| 0 <= p < ts.len() && rank(ts, p) == k;
                assert(placed(a, b, p));
                assert(a[p].wf());
            }
            assert forall|i: int, j: int| 0 <= i < n && 0 <= j < n && i != j implies b[i].id@ != b[j].id@ by {
                assert(has_rank(ts, i));
        let p = choose|p: int| 0 <= p < ts.len() && rank(ts, p) == i;
                assert(has_rank(ts, j));
        let q = choose|q: int| 0 <= q < ts.len() && rank(ts, q) == j;
                assert(placed(a, b, p));
                assert(placed(a, b, q));
            }
        }
    }

    /// Stores a prepared record: refused when its id is taken; else it is
    /// linked to the records it connects to, indexed under its entities,
    /// appended, and the compression check runs.
    fn append_record(&mut self, memory: Memory) -> (r: Result<String, MemoryError>)
        requires
            old(self).wf(),
            memory.wf(),
        ensures
            ids(old(self).records()).contains(memory.id@) ==> r == Err::<String, MemoryError>(MemoryError::DuplicateId)
                && *final(self) == *old(self),
            !ids(old(self).records()).contains(memory.id@) ==> (r matches Ok(id) && id@ == memory.id@ && appended(
                *old(self),
                *final(self),
                memory,
            )),
    {
        if has_id(&self.stream.memories, &memory.id) {
            return Err(MemoryError::DuplicateId);
        }
        let ghost m0 = memory;
        let ghost a = self.records();
        let mut memory = memory;
        NarrativeCausality::build_connections(&mut memory, self.stream.memories.as_slice());
        let id = memory.id.clone();
        let ghost index0 = self.stream.entity_index@;
        let mut k: usize = 0;
        while k < memory.entities.len()
            invariant
                k <= memory.entities@.len(),
                memory.entities == m0.entities,
                id@ == m0.id@,
                self.stream.memories@ == a,
                self.stream.entity_index@.len() == index0.len() + k,
                self.stream.entity_index@.subrange(0, index0.len() as int) == index0,
                forall|t: int| 0 <= t < k ==> (#[trigger] self.stream.entity_index@[index0.len() + t]).0@
                    == m0.entities@[t]@ && self.stream.entity_index@[index0.len() + t].1@ == m0.id@,
                self.stream.backup_created_at == old(self).stream.backup_created_at,
                self.file_path == old(self).file_path,
            decreases memory.entities@.len() - k,
        {
            let ghost before = self.stream.entity_index@;
            RelationalGravity::strengthen_connection(
                &mut self.stream.entity_index,
                memory.entities[k].as_str(),
                id.as_str(),
            );
            proof {
                assert(self.stream.entity_index@.subrange(0, index0.len() as int) =~= before.subrange(
                    0,
                    index0.len() as int,
                ));
                assert forall|t: int| 0 <= t < k + 1 implies (#[trigger] self.stream.entity_index@[index0.len()
                    + t]).0@ == m0.entities@[t]@ && self.stream.entity_index@[index0.len() + t].1@ == m0.id@ by {
                    if t < k {
                        assert(self.stream.entity_index@[index0.len() + t] == before[index0.len() + t]);
                    }
                }
            }
            k += 1;
        }
        let ghost linked = memory;
        self.stream.memories.push(memory);
        let ghost pre = self.records();
        proof {
            assert(pre == a.push(linked));
            assert forall|i: int, j: int| 0 <= i < pre.len() && 0 <= j < pre.len() && i != j implies pre[i].id@
                != pre[j].id@ by {
                if i == a.len() {
                    assert(ids(a)[j] == a[j].id@);
                }
                if j == a.len() {
                    assert(ids(a)[i] == a[i].id@);
                }
            }
            crate::physics::lemma_link_all_set(
                views(m0.connections@),
                m0.id@,
                views(m0.entities@),
                m0.emotional_valence as int,
                a,
            );
            assert(linked.wf());
            assert(records_wf(pre));
        }
        self.check_compression();
        proof {
            assert(linked_as(linked, m0, a));
            assert(self.stream.entity_index@ =~= self.stream.entity_index@.subrange(0, index0.len() as int)
                + self.stream.entity_index@.subrange(index0.len() as int, self.stream.entity_index@.len() as int));
        }
        Ok(id)
    }

    /// Stores a record of direct experience about `content`, with the
    /// entities extracted from it and a fresh id; returns that id. Refused
    /// only when the fresh id is already taken.
    pub fn add_memory(&mut self, content: String, memory_type: MemoryType, emotional_valence: i32) -> (r: Result<
        String,
        MemoryError,
    >)
        requires
            old(self).wf(),
            valid_valence(emotional_valence),
        ensures
            final(self).wf(),
            conserves(old(self).records(), final(self).records()),
            r is Err ==> r == Err::<String, MemoryError>(MemoryError::DuplicateId) && *final(self) == *old(self),
            r is Ok ==> exists|m: Memory|
                {
                    &&& appended(*old(self), *final(self), m)
                    &&& r->Ok_0@ == m.id@
                    &&& m.content@ == content@
                    &&& views(m.entities@) == entities_of(content@)
                    &&& m.memory_type == memory_type
                    &&& m.emotional_valence == emotional_valence
                    &&& m.connections@.len() == 0
                    &&& m.source == MemorySource::Direct
                    &&& m.confidence == 1000
                },
    {
        let entities = self.extract_entities(content.as_str());
        let ghost c = content@;
        let memory = Memory::new(content, entities, memory_type, emotional_valence);
        let ghost m = memory;
        let r = self.append_record(memory);
        proof {
            if r is Ok {
                lemma_appended_conserves(*old(self), *final(self), m);
            }
        }
        r
    }

    /// Stores a prepared record with its provenance kept as given; returns
    /// its id. Refused when a record with that id is already stored.
    pub fn add_memory_with_source(&mut self, memory: Memory) -> (r: Result<String, MemoryError>)
        requires
            old(self).wf(),
            memory.wf(),
        ensures
            final(self).wf(),
            conserves(old(self).records(), final(self).records()),
            ids(old(self).records()).contains(memory.id@) ==> r == Err::<String, MemoryError>(MemoryError::DuplicateId)
                && *final(self) == *old(self),
            !ids(old(self).records()).contains(memory.id@) ==> (r matches Ok(id) && id@ == memory.id@ && appended(
                *old(self),
                *final(self),
                memory,
            )),
    {
        let ghost m = memory;
        let r = self.append_record(memory);
        proof {
            if r is Ok {
                lemma_appended_conserves(*old(self), *final(self), m);
            }
        }
        r
    }

    fn matched_vec(&self, entities: &[String]) -> (r: Vec<usize>)
        ensures
            as_ints(r@) == matched_positions(self.records(), self.stream.entity_index@, views(entities@), self.records().len() as int),
            distinct(r@),
            in_range(r@, self.records().len() as int),
    {
        let n = self.stream.memories.len();
        let mut r: Vec<usize> = Vec::new();
        let mut p: usize = 0;
        while p < n
            invariant
                p <= n == self.records().len(),
                as_ints(r@) == matched_positions(self.records(), self.stream.entity_index@, views(entities@), p as int),
                distinct(r@),
                in_range(r@, p as int),
            decreases n - p,
        {
            let ghost r0 = r@;
            if is_mentioned(&self.stream.entity_index, entities, &self.stream.memories[p].id) {
                r.push(p);
                assert(as_ints(r@) =~= as_ints(r0).push(p as int));
            }
            p += 1;
        }
        r
    }

    /// The records that the index ties to any of `entities`, in store order.
    pub fn recall_by_entities(&self, entities: &[String]) -> (r: Vec<Memory>)
        ensures
            records_at(
                self.records(),
                matched_positions(self.records(), self.stream.entity_index@, views(entities@), self.records().len() as int),
                r@,
            ),
    {
        let ps = self.matched_vec(entities);
        copy_at(&self.stream.memories, &ps)
    }

    fn recent_vec(&self, n: usize) -> (r: Vec<usize>)
        ensures
            as_ints(r@) == recent_positions(self.records(), n as nat),
            in_range(r@, self.records().len() as int),
            distinct(r@),
    {
        let len = self.stream.memories.len();
        let mut cand: Vec<usize> = Vec::new();
        let mut p: usize = 0;
        while p < len
            invariant
                p <= len == self.records().len(),
                cand@.len() == p,
                forall|i: int| 0 <= i < p ==> cand@[i] as int == i,
            decreases len - p,
        {
            cand.push(p);
            p += 1;
        }
        assert(pos_set(cand@) =~= all_positions(len as int)) by {
            assert forall|q: int| all_positions(len as int).contains(q) implies pos_set(cand@).contains(q) by {
                assert(cand@[q] as int == q);
            }
        }
        let r = rank_positions(&self.stream.memories, cand, n, false);
        proof {
            crate::ranking::lemma_ranked_distinct(self.records(), all_positions(len as int), n as nat, false);
            lemma_distinct_ints(r@);
        }
        r
    }

    /// The `n` most recent records, most recent first (on equal times the
    /// later stored first).
    pub fn recall_recent(&self, n: usize) -> (r: Vec<Memory>)
        ensures
            records_at(self.records(), recent_positions(self.records(), n as nat), r@),
    {
        let ps = self.recent_vec(n);
        copy_at(&self.stream.memories, &ps)
    }

    /// Up to ten records: those tied to `entities` and the `recent_n` most
    /// recent, each once, ranked by recency raised by emotional intensity.
    pub fn recall_weighted(&self, entities: &[String], recent_n: usize) -> (r: Vec<Memory>)
        ensures
            records_at(
                self.records(),
                weighted_positions(self.records(), self.stream.entity_index@, views(entities@), recent_n as nat),
                r@,
            ),
            r@.len() <= RECALL_LIMIT,
    {
        let matched = self.matched_vec(entities);
        let recent = self.recent_vec(recent_n);
        let ghost ma = matched@;
        let ghost re = recent@;
        let mut cand = matched;
        let mut i: usize = 0;
        while i < recent.len()
            invariant
                i <= recent@.len(),
                re == recent@,
                distinct(cand@),
                in_range(cand@, self.records().len() as int),
                in_range(recent@, self.records().len() as int),
                pos_set(cand@) == pos_set(ma).union(pos_set(re.subrange(0, i as int))),
            decreases recent@.len() - i,
        {
            let x = recent[i];
            let ghost c0 = cand@;
            if !contains_pos(&cand, x) {
                cand.push(x);
                proof {
                    assert forall|a: int, b: int| 0 <= a < cand@.len() && 0 <= b < cand@.len() && a != b implies cand@[a]
                        != cand@[b] by {
                        if a == c0.len() {
                            assert(cand@[b] == c0[b]);
                        }
                        if b == c0.len() {
                            assert(cand@[a] == c0[a]);
                        }
                    }
                }
            }
            proof {
                assert(pos_set(cand@) =~= pos_set(ma).union(pos_set(re.subrange(0, i + 1)))) by {
                    assert forall|q: int| pos_set(cand@).contains(q) <==> pos_set(ma).union(pos_set(re.subrange(0, i + 1))).contains(q) by {
                        if pos_set(re.subrange(0, i + 1)).contains(q) {
                            let t = choose|t: int| 0 <= t < i + 1 && #[trigger] re.subrange(0, i + 1)[t] as int == q;
                            if t < i {
                                assert(re.subrange(0, i as int)[t] == re[t]);
                                assert(pos_set(re.subrange(0, i as int)).contains(q));
                            } else {
                                assert(pos_set(cand@).contains(x as int)) by {
                                    if c0.len() < cand@.len() {
                                        assert(cand@[c0.len() as int] == x);
                                    }
                                }
                            }
                        }
                        if pos_set(re.subrange(0, i as int)).contains(q) {
                            let t = choose|t: int| 0 <= t < i && #[trigger] re.subrange(0, i as int)[t] as int == q;
                            assert(re.subrange(0, i + 1)[t] == re[t]);
                        }
                        if pos_set(cand@).contains(q) {
                            let t = choose|t: int| 0 <= t < cand@.len() && cand@[t] as int == q;
                            if t < c0.len() {
                                assert(cand@[t] == c0[t]);
                                assert(pos_set(c0).contains(q));
                            } else {
                                assert(re.subrange(0, i + 1)[i as int] == x);
                            }
                        }
                        if pos_set(c0).contains(q) {
                            let t = choose|t: int| 0 <= t < c0.len() && c0[t] as int == q;
                            assert(cand@[t] == c0[t]);
                        }
                    }
                }
            }
            i += 1;
        }
        proof {
            assert(re.subrange(0, re.len() as int) =~= re);
            lemma_pos_set_to_set(ma);
            lemma_pos_set_to_set(re);
        }
        let ps = rank_positions(&self.stream.memories, cand, RECALL_LIMIT, true);
        proof {
            crate::ranking::lemma_ranked_len(self.records(), pos_set(cand@), RECALL_LIMIT as nat, true);
        }
        copy_at(&self.stream.memories, &ps)
    }

    fn overlap_pairs(&self) -> (r: Vec<(usize, usize)>)
        ensures
            pair_ints(r@) == merge_pairs(self.records(), self.records().len() as int),
    {
        let s = &self.stream.memories;
        let n = s.len();
        let mut r: Vec<(usize, usize)> = Vec::new();
        let mut i: usize = 0;
        while i < n
            invariant
                i <= n == s@.len(),
                s@ == self.records(),
                pair_ints(r@) == merge_pairs(s@, i as int),
            decreases n - i,
        {
            let ghost r0 = pair_ints(r@);
            let mut j: usize = i + 1;
            while j < n
                invariant
                    i < n == s@.len(),
                    i + 1 <= j <= n,
                    pair_ints(r@) == r0 + pairs_row(s@, i as int, j as int),
                decreases n - j,
            {
                let ghost r1 = r@;
                let a = &s[i];
                let b = &s[j];
                let shared = entity_overlap(&a.entities, &b.entities);
                let union: u128 = (a.entities.len() as u128) + (b.entities.len() as u128) - (shared as u128);
                if union > 0 && 10 * (shared as u128) > 7 * union {
                    r.push((i, j));
                    assert(pair_ints(r@) =~= pair_ints(r1).push((i as int, j as int)));
                }
                j += 1;
            }
            assert(merge_pairs(s@, i + 1) == merge_pairs(s@, i as int) + pairs_row(s@, i as int, n as int));
            i += 1;
        }
        r
    }

    /// Rebuilds the connections of every record against the whole store and
    /// returns the pairs of records (by position) whose entity sets overlap
    /// by more than seven tenths: candidates for a merge that is never
    /// carried out.
    pub fn consolidate(&mut self) -> (r: Vec<(usize, usize)>)
        requires
            old(self).wf(),
        ensures
            final(self).wf(),
            pair_ints(r@) == merge_pairs(old(self).records(), old(self).records().len() as int),
            consolidated(*old(self), *final(self)),
            final(self).records().len() == old(self).records().len(),
            forall|i: int|
                0 <= i < old(self).records().len() ==> relinked(
                    old(self).records(),
                    #[trigger] final(self).records()[i],
                    i,
                ),
            conserves(old(self).records(), final(self).records()),
            final(self).stream.entity_index == old(self).stream.entity_index,
            final(self).stream.backup_created_at == old(self).stream.backup_created_at,
            final(self).file_path == old(self).file_path,
    {
        let pairs = self.overlap_pairs();
        let ghost a = self.records();
        let all = copy_records(&self.stream.memories);
        let n = self.stream.memories.len();
        let mut i: usize = 0;
        while i < n
            invariant
                i <= n == a.len() == self.stream.memories@.len() == all@.len(),
                a == old(self).records(),
                forall|k: int| 0 <= k < n ==> (#[trigger] all@[k]).same_as(&a[k]),
                forall|k: int| 0 <= k < i ==> relinked(a, #[trigger] self.stream.memories@[k], k),
                forall|k: int| i <= k < n ==> #[trigger] self.stream.memories@[k] == a[k],
                self.stream.entity_index == old(self).stream.entity_index,
                self.stream.backup_created_at == old(self).stream.backup_created_at,
                self.file_path == old(self).file_path,
            decreases n - i,
        {
            let mut m = self.stream.memories[i].duplicate();
            NarrativeCausality::build_connections(&mut m, all.as_slice());
            proof {
                let x = a[i as int];
                lemma_link_all_same(views(x.connections@), x.id@, views(x.entities@), x.emotional_valence as int, all@, a);
            }
            self.stream.memories.set(i, m);
            i += 1;
        }
        proof {
            let t = self.records();
            assert forall|k: int| 0 <= k < a.len() implies kept_in(t, #[trigger] a[k]) by {
                assert(relinked(a, t[k], k));
                let x = a[k];
                crate::physics::lemma_link_all_extends(views(x.connections@), x.id@, views(x.entities@), x.emotional_valence as int, a);
            }
            assert forall|p: int, q: int| 0 <= p < t.len() && 0 <= q < t.len() && p != q implies t[p].id@ != t[q].id@ by {
                assert(relinked(a, t[p], p));
                assert(relinked(a, t[q], q));
            }
            assert forall|p: int| 0 <= p < t.len() implies (#[trigger] t[p]).wf() by {
                assert(relinked(a, t[p], p));
                assert(a[p].wf());
                let x = a[p];
                crate::physics::lemma_link_all_set(views(x.connections@), x.id@, views(x.entities@), x.emotional_valence as int, a);
            }
        }
        pairs
    }

    /// Whether a backup is due at time `now`: never taken, or more than
    /// seven days old.
    pub fn needs_backup_at(&self, now: i64) -> (r: bool)
        ensures
            r == backup_due(self.stream.backup_created_at, now),
    {
        match self.stream.backup_created_at {
            None => true,
            Some(last) => (now as i128) - (last as i128) > 7 * (DAY_MS as i128),
        }
    }

    /// Whether a backup is due now; always when none was ever taken.
    pub fn needs_backup(&self) -> (r: bool)
        ensures
            self.stream.backup_created_at is None ==> r,
    {
        let now = crate::types::now_millis();
        self.needs_backup_at(now)
    }

    /// Notes that a snapshot was written at time `now`.
    pub fn mark_backup_created(&mut self, now: i64)
        ensures
            final(self).stream.backup_created_at == Some(now),
            final(self).stream.memories == old(self).stream.memories,
            final(self).stream.entity_index == old(self).stream.entity_index,
            final(self).file_path == old(self).file_path,
    {
        self.stream.backup_created_at = Some(now);
    }

    /// Replaces the store with a backup snapshot and records the recovery
    /// as a mildly positive reflection. Fails when there is no snapshot or
    /// when it breaks the store's invariant; the store is then unchanged.
    pub fn restore_from_snapshot(&mut self, snapshot: Option<MemoryStream>) -> (r: Result<String, MemoryError>)
        requires
            old(self).wf(),
        ensures
            final(self).wf(),
            snapshot is None ==> r == Err::<String, MemoryError>(MemoryError::NoBackup) && *final(self) == *old(self),
            snapshot is Some && !snapshot->Some_0.wf() ==> r == Err::<String, MemoryError>(MemoryError::InvalidSnapshot)
                && *final(self) == *old(self),
            snapshot is Some && snapshot->Some_0.wf() ==> (r is Ok || (r == Err::<String, MemoryError>(
                MemoryError::DuplicateId,
            ) && final(self).stream == snapshot->Some_0 && final(self).file_path == old(self).file_path)),
            snapshot is Some && snapshot->Some_0.wf() && r is Ok ==> exists|m: Memory|
                {
                    &&& appended((MemoryManager { stream: snapshot->Some_0, file_path: old(self).file_path }), *final(self), m)
                    &&& m.content@ == recovery_note()
                    &&& m.memory_type == MemoryType::Reflection
                    &&& m.emotional_valence == 300
                    &&& m.source == MemorySource::Direct
                },
    {
        match snapshot {
            None => Err(MemoryError::NoBackup),
            Some(stream) => {
                if !stream.is_valid() {
                    return Err(MemoryError::InvalidSnapshot);
                }
                self.stream = stream;
                let r = self.add_memory(
                    String::from_str("System recovered from memory corruption. Continuity preserved."),
                    MemoryType::Reflection,
                    300,
                );
                r
            },
        }
    }

    /// Number of records.
    pub fn count(&self) -> (r: usize)
        ensures
            r == self.records().len(),
    {
        self.stream.memories.len()
    }

    /// Every record, in insertion order.
    pub fn all_memories(&self) -> (r: &[Memory])
        ensures
            r@ == self.records(),
    {
        self.stream.memories.as_slice()
    }

    /// The records with the given provenance, in store order.
    pub fn memories_by_source(&self, source: MemorySource) -> (r: Vec<&Memory>)
        ensures
            r@.len() == source_positions(self.records(), source, self.records().len() as int).len(),
            forall|i: int|
                0 <= i < r@.len() ==> *(#[trigger] r@[i]) == self.records()[source_positions(
                    self.records(),
                    source,
                    self.records().len() as int,
                )[i]],
    {
        let n = self.stream.memories.len();
        let mut r: Vec<&Memory> = Vec::new();
        let mut p: usize = 0;
        while p < n
            invariant
                p <= n == self.records().len(),
                r@.len() == source_positions(self.records(), source, p as int).len(),
                forall|i: int|
                    0 <= i < r@.len() ==> *(#[trigger] r@[i]) == self.records()[source_positions(
                        self.records(),
                        source,
                        p as int,
                    )[i]],
            decreases n - p,
        {
            if self.stream.memories[p].source == source {
                r.push(&self.stream.memories[p]);
            }
            p += 1;
        }
        r
    }

    /// How many records have the given provenance.
    pub fn count_by_source(&self, source: MemorySource) -> (r: usize)
        ensures
            r == source_positions(self.records(), source, self.records().len() as int).len(),
    {
        let n = self.stream.memories.len();
        let mut c: usize = 0;
        let mut p: usize = 0;
        while p < n
            invariant
                p <= n == self.records().len(),
                c == source_positions(self.records(), source, p as int).len(),
                c <= p,
            decreases n - p,
        {
            if self.stream.memories[p].source == source {
                c += 1;
            }
            p += 1;
        }
        c
    }

} // impl

/// `l` is the record `m` linked to the records of `s` it connects to.
pub open spec fn linked_as(l: Memory, m: Memory, s: Seq<Memory>) -> bool {
    &&& l.id@ == m.id@
    &&& l.content@ == m.content@
    &&& l.entities@ == m.entities@
    &&& l.memory_type == m.memory_type
    &&& l.timestamp == m.timestamp
    &&& l.emotional_valence == m.emotional_valence
    &&& l.source == m.source
    &&& l.confidence == m.confidence
    &&& views(l.connections@) == link_all(views(m.connections@), m.id@, views(m.entities@), m.emotional_valence as int, s)
}

/// `b` is `a` with the record `m` appended: linked to the records it
/// connects to, indexed under each of its entities, and with the
/// compression check run over the grown store.
pub open spec fn appended(a: MemoryManager, b: MemoryManager, m: Memory) -> bool {
    &&& b.wf()
    &&& exists|l: Memory| linked_as(l, m, a.records()) && compression_of(a.records().push(l), b.records())
    &&& b.stream.entity_index@.len() == a.stream.entity_index@.len() + m.entities@.len()
    &&& b.stream.entity_index@.subrange(0, a.stream.entity_index@.len() as int) == a.stream.entity_index@
    &&& forall|k: int|
        0 <= k < m.entities@.len() ==> (#[trigger] b.stream.entity_index@[a.stream.entity_index@.len() + k]).0@
            == m.entities@[k]@ && b.stream.entity_index@[a.stream.entity_index@.len() + k].1@ == m.id@
    &&& b.stream.backup_created_at == a.stream.backup_created_at
    &&& b.file_path == a.file_path
}

/// Appending a record keeps every record that was there.
pub proof fn lemma_appended_conserves(a: MemoryManager, b: MemoryManager, m: Memory)
    requires
        appended(a, b, m),
    ensures
        conserves(a.records(), b.records()),
        b.records().len() == a.records().len() + 1,
{
    let s = a.records();
    let l = choose|l: Memory| linked_as(l, m, s) && compression_of(s.push(l), b.records());
    let pre = s.push(l);
    assert forall|i: int| 0 <= i < s.len() implies kept_in(pre, #[trigger] s[i]) by {
        assert(pre[i] == s[i]);
        assert(views(s[i].connections@).is_prefix_of(views(pre[i].connections@)));
    }
    lemma_compression_conserves(pre, b.records());
    lemma_conservation_chain(s, pre, b.records());
}

fn contains_pos(v: &Vec<usize>, x: usize) -> (r: bool)
    ensures
        r == pos_set(v@).contains(x as int),
{
    let mut i: usize = 0;
    while i < v.len()
        invariant
            i <= v@.len(),
            forall|j: int| 0 <= j < i ==> v@[j] != x,
        decreases v@.len() - i,
    {
        if v[i] == x {
            return true;
        }
        i += 1;
    }
    false
}

proof fn lemma_pos_set_to_set(v: Seq<usize>)
    ensures
        pos_set(v) == as_ints(v).to_set(),
{
    assert forall|q: int| pos_set(v).contains(q) <==> as_ints(v).to_set().contains(q) by {
        if pos_set(v).contains(q) {
            let i = choose|i: int| 0 <= i < v.len() && v[i] as int == q;
            assert(as_ints(v)[i] == q);
        }
        if as_ints(v).to_set().contains(q) {
            let i = choose|i: int| 0 <= i < as_ints(v).len() && as_ints(v)[i] == q;
            assert(v[i] as int == q);
        }
    }
    assert(pos_set(v) =~= as_ints(v).to_set());
}

proof fn lemma_distinct_ints(v: Seq<usize>)
    requires
        as_ints(v).no_duplicates(),
    ensures
        distinct(v),
{
    assert forall|i: int, j: int| 0 <= i < v.len() && 0 <= j < v.len() && i != j implies v[i] != v[j] by {
        assert(as_ints(v)[i] == v[i] as int);
        assert(as_ints(v)[j] == v[j] as int);
    }
}

/// The text of the record that notes a recovery from backup.
pub open spec fn recovery_note() -> Seq<char> {
    "System recovered from memory corruption. Continuity preserved."@
}

pub open spec fn backup_due(last: Option<i64>, now: i64) -> bool {
    match last {
        None => true,
        Some(t) => now as int - t as int > 7 * DAY_MS as int,
    }
}

/// The positions among the first `n` whose record has provenance `source`.
pub open spec fn source_positions(s: Seq<Memory>, source: MemorySource, n: int) -> Seq<int>
    decreases n,
{
    if n <= 0 {
        Seq::empty()
    } else {
        let r = source_positions(s, source, n - 1);
        if s[n - 1].source == source {
            r.push(n - 1)
        } else {
            r
        }
    }
}

/// More than seven tenths of the union of two records' entities is shared.
pub open spec fn overlaps(a: Memory, b: Memory) -> bool {
    let sh = shared_count(views(a.entities@), views(b.entities@)) as int;
    let un = a.entities@.len() + b.entities@.len() - sh;
    un > 0 && 10 * sh > 7 * un
}

/// The overlapping pairs `(i, j)` for a fixed `i`, over all `j` with
/// `i < j < end`, in order.
pub open spec fn pairs_row(s: Seq<Memory>, i: int, end: int) -> Seq<(int, int)>
    decreases end - i,
{
    if end <= i + 1 {
        Seq::empty()
    } else {
        let r = pairs_row(s, i, end - 1);
        if overlaps(s[i], s[end - 1]) {
            r.push((i, end - 1))
        } else {
            r
        }
    }
}

/// Every overlapping pair `(i, j)` with `i < j` and `i` below `rows`, in
/// order of `i` then `j`.
pub open spec fn merge_pairs(s: Seq<Memory>, rows: int) -> Seq<(int, int)>
    decreases rows,
{
    if rows <= 0 {
        Seq::empty()
    } else {
        merge_pairs(s, rows - 1) + pairs_row(s, rows - 1, s.len() as int)
    }
}

pub open spec fn pair_ints(v: Seq<(usize, usize)>) -> Seq<(int, int)> {
    v.map_values(|p: (usize, usize)| (p.0 as int, p.1 as int))
}

/// `c` is `a` after consolidation: each record relinked against all of `a`,
/// nothing else changed.
pub open spec fn consolidated(a: MemoryManager, c: MemoryManager) -> bool {
    &&& c.wf()
    &&& c.records().len() == a.records().len()
    &&& forall|i: int| 0 <= i < a.records().len() ==> relinked(a.records(), #[trigger] c.records()[i], i)
    &&& c.stream.entity_index == a.stream.entity_index
    &&& c.stream.backup_created_at == a.stream.backup_created_at
    &&& c.file_path == a.file_path
}

/// `x` is the record at position `i` of `s` with its connections rebuilt
/// against all of `s`.
pub open spec fn relinked(s: Seq<Memory>, x: Memory, i: int) -> bool {
    let o = s[i];
    &&& x.id@ == o.id@
    &&& x.content@ == o.content@
    &&& x.entities@ == o.entities@
    &&& x.memory_type == o.memory_type
    &&& x.timestamp == o.timestamp
    &&& x.emotional_valence == o.emotional_valence
    &&& x.source == o.source
    &&& x.confidence == o.confidence
    &&& views(x.connections@) == link_all(views(o.connections@), o.id@, views(o.entities@), o.emotional_valence as int, s)
}

proof fn lemma_link_all_same(
    c: Seq<Seq<char>>,
    id: Seq<char>,
    ents: Seq<Seq<char>>,
    val: int,
    e1: Seq<Memory>,
    e2: Seq<Memory>,
)
    requires
        e1.len() == e2.len(),
        forall|k: int| 0 <= k < e1.len() ==> (#[trigger] e1[k]).same_as(&e2[k]),
    ensures
        link_all(c, id, ents, val, e1) == link_all(c, id, ents, val, e2),
    decreases e1.len(),
{
    if e1.len() > 0 {
        lemma_link_all_same(c, id, ents, val, e1.drop_last(), e2.drop_last());
        let x = e1.last();
        let y = e2.last();
        assert(x.same_as(&y));
        assert(views(x.entities@) == views(y.entities@));
    }
}

} // verus!
