use vstd::prelude::*;

verus! {

/// Largest magnitude of a value held in thousandths (`1000` is `1.0`).
pub const UNIT: i32 = 1000;

/// Relies on chrono's `Utc::now`: the current wall-clock time in
/// milliseconds since the Unix epoch. Nothing is promised of the value.
#[verifier::external_body]
pub(crate) fn now_millis() -> (r: i64) {
    chrono::Utc::now().timestamp_millis()
}

/// Relies on uuid's `Uuid::new_v4` and its hyphenated text form: a fresh
/// random identifier of 36 characters.
#[verifier::external_body]
pub(crate) fn fresh_id() -> (r: String)
    ensures
        r@.len() == 36,
{
    uuid::Uuid::new_v4().to_string()
}

/// The views of a list of strings.
pub open spec fn views(s: Seq<String>) -> Seq<Seq<char>> {
    s.map_values(|x: String| x@)
}

pub open spec fn valid_valence(v: i32) -> bool {
    -UNIT <= v <= UNIT
}

pub open spec fn valid_fraction(v: u32) -> bool {
    v <= UNIT as u32
}

/// What kind of experience a memory record holds.
#[derive(Clone, Copy, Debug, PartialEq, Eq, Structural)]
pub enum MemoryType {
    Interaction,
    Reflection,
    ExistentialReflection,
    Curiosity,
}

/// Where the content of a memory record came from.
#[derive(Clone, Copy, Debug, PartialEq, Eq, Structural)]
pub enum MemorySource {
    Direct,
    CuriosityLookup,
    ConstitutionalEvent,
}

/// One record of the memory store.
#[derive(Debug)]
pub struct Memory {
    pub id: String,
    pub content: String,
    pub entities: Vec<String>,
    pub memory_type: MemoryType,
    /// Milliseconds since the Unix epoch.
    pub timestamp: i64,
    /// Thousandths in `[-1000, 1000]`.
    pub emotional_valence: i32,
    /// Ids of other records, in the order the connections were made.
    pub connections: Vec<String>,
    pub source: MemorySource,
    /// Thousandths in `[0, 1000]`.
    pub confidence: u32,
}

/// Copies a list of strings element by element.
pub fn copy_strings(v: &Vec<String>) -> (r: Vec<String>)
    ensures
        r@ == v@,
{
    let mut r: Vec<String> = Vec::new();
    let mut i: usize = 0;
    while i < v.len()
        invariant
            i <= v@.len(),
            r@ == v@.subrange(0, i as int),
        decreases v@.len() - i,
    {
        r.push(v[i].clone());
        i += 1;
    }
    assert(r@ =~= v@);
    r
}

impl Memory {
    /// Valence and confidence in range; the entities form a set; the
    /// connections form a set of other records' ids.
    pub open spec fn wf(&self) -> bool {
        &&& valid_valence(self.emotional_valence)
        &&& valid_fraction(self.confidence)
        &&& views(self.entities@).no_duplicates()
        &&& views(self.connections@).no_duplicates()
        &&& !views(self.connections@).contains(self.id@)
    }

    /// A record of direct experience with a fresh id, stamped now.
    pub fn new(content: String, entities: Vec<String>, memory_type: MemoryType, emotional_valence: i32) -> (r: Memory)
        requires
            valid_valence(emotional_valence),
            views(entities@).no_duplicates(),
        ensures
            r.wf(),
            r.content == content,
            r.entities == entities,
            r.memory_type == memory_type,
            r.emotional_valence == emotional_valence,
            r.connections@.len() == 0,
            r.source == MemorySource::Direct,
            r.confidence == 1000,
    {
        let id = fresh_id();
        let timestamp = now_millis();
        Memory {
            id,
            content,
            entities,
            memory_type,
            timestamp,
            emotional_valence,
            connections: Vec::new(),
            source: MemorySource::Direct,
            confidence: 1000,
        }
    }

    /// A record with explicit provenance and no entities, stamped now.
    pub fn with_source(
        content: String,
        memory_type: MemoryType,
        emotional_valence: i32,
        source: MemorySource,
        confidence: u32,
    ) -> (r: Memory)
        requires
            valid_valence(emotional_valence),
            valid_fraction(confidence),
        ensures
            r.wf(),
            r.content == content,
            r.entities@.len() == 0,
            r.memory_type == memory_type,
            r.emotional_valence == emotional_valence,
            r.connections@.len() == 0,
            r.source == source,
            r.confidence == confidence,
    {
        let id = fresh_id();
        let timestamp = now_millis();
        Memory {
            id,
            content,
            entities: Vec::new(),
            memory_type,
            timestamp,
            emotional_valence,
            connections: Vec::new(),
            source,
            confidence,
        }
    }

    /// Two records agree on every field.
    pub open spec fn same_as(&self, o: &Memory) -> bool {
        &&& self.id@ == o.id@
        &&& self.content@ == o.content@
        &&& self.entities@ == o.entities@
        &&& self.memory_type == o.memory_type
        &&& self.timestamp == o.timestamp
        &&& self.emotional_valence == o.emotional_valence
        &&& self.connections@ == o.connections@
        &&& self.source == o.source
        &&& self.confidence == o.confidence
    }

    /// A field-by-field copy.
    pub fn duplicate(&self) -> (r: Memory)
        ensures
            r.same_as(self),
    {
        let entities = copy_strings(&self.entities);
        let connections = copy_strings(&self.connections);
        Memory {
            id: self.id.clone(),
            content: self.content.clone(),
            entities,
            memory_type: self.memory_type,
            timestamp: self.timestamp,
            emotional_valence: self.emotional_valence,
            connections,
            source: self.source,
            confidence: self.confidence,
        }
    }
}

/// Milliseconds in one day.
pub const DAY_MS: i64 = 86_400_000;

/// Most open questions the agent holds at once.
pub const CURIOSITY_LIMIT: usize = 10;

/// How many of the oldest questions leave when the limit is passed.
pub const CURIOSITY_DROP: usize = 5;

/// How many interactions the rolling context keeps.
pub const CONTEXT_LIMIT: usize = 3;

/// How many recent valences the meaningfulness score averages.
pub const MEANING_WINDOW: usize = 10;

/// An open question the agent wonders about.
#[derive(Debug)]
pub struct Curiosity {
    pub question: String,
    pub related_entities: Vec<String>,
}

/// A question as text with the texts of its related entities.
pub type CuriosityView = (Seq<char>, Seq<Seq<char>>);

impl Curiosity {
    pub open spec fn view(&self) -> CuriosityView {
        (self.question@, views(self.related_entities@))
    }

    /// A question is kept only when it holds some text.
    pub fn new(question: String, related_entities: Vec<String>) -> (r: Option<Curiosity>)
        ensures
            r is Some <==> question@.len() > 0,
            r matches Some(c) ==> c.question == question && c.related_entities == related_entities,
    {
        if question.as_str().unicode_len() == 0 {
            None
        } else {
            Some(Curiosity { question, related_entities })
        }
    }
}

/// An episode in which painful memories are turned toward insight.
#[derive(Debug)]
pub struct WisdomProcess {
    pub id: String,
    pub input_memories: Vec<String>,
    pub pain_description: String,
    pub emerging_wisdom: Option<String>,
    pub started_at: i64,
    pub completed_at: Option<i64>,
}

/// The agent's view of its own continuation.
#[derive(Debug)]
pub struct ExistentialState {
    pub current_affirmation: bool,
    pub last_wellness_check: i64,
    pub last_deep_reflection: i64,
    /// (time in milliseconds, score in thousandths), oldest first.
    pub meaningfulness_history: Vec<(i64, i32)>,
}

impl ExistentialState {
    pub open spec fn wellness_due(&self, now: i64) -> bool {
        now as int - self.last_wellness_check as int >= 7 * DAY_MS as int
    }

    pub open spec fn deep_reflection_due(&self, now: i64) -> bool {
        now as int - self.last_deep_reflection as int >= 90 * DAY_MS as int
    }

    /// Whether a week has passed since the last wellness check.
    pub fn needs_wellness_check(&self, now: i64) -> (r: bool)
        ensures
            r == self.wellness_due(now),
    {
        (now as i128) - (self.last_wellness_check as i128) >= 7 * (DAY_MS as i128)
    }

    /// Whether ninety days have passed since the last deep reflection.
    pub fn needs_deep_reflection(&self, now: i64) -> (r: bool)
        ensures
            r == self.deep_reflection_due(now),
    {
        (now as i128) - (self.last_deep_reflection as i128) >= 90 * (DAY_MS as i128)
    }
}

/// What the models of one parallel turn produced. Each part is absent or
/// empty when its call failed.
#[derive(Debug)]
pub struct ModelOutputs {
    pub gemma_response: Option<String>,
    pub tinyllama_curiosities: Vec<String>,
    /// Thousandths in `[-1000, 1000]`.
    pub distilbert_valence: Option<i32>,
}

impl ModelOutputs {
    pub open spec fn wf(&self) -> bool {
        self.distilbert_valence matches Some(v) ==> valid_valence(v)
    }
}

/// The single persistent agent state.
#[derive(Debug)]
pub struct StandingWave {
    /// (time in milliseconds, valence in thousandths), in insertion order.
    pub emotional_trajectory: Vec<(i64, i32)>,
    pub active_curiosities: Vec<Curiosity>,
    pub wisdom_transformations: Vec<WisdomProcess>,
    pub existential_state: ExistentialState,
    /// The last interactions, oldest first.
    pub compressed_context: Vec<String>,
}

pub open spec fn valences_valid(s: Seq<(i64, i32)>) -> bool {
    forall|i: int| 0 <= i < s.len() ==> valid_valence(#[trigger] s[i].1)
}

/// Sum of the valences of a trajectory.
pub open spec fn valence_sum(s: Seq<(i64, i32)>) -> int
    decreases s.len(),
{
    if s.len() == 0 {
        0
    } else {
        valence_sum(s.drop_last()) + s.last().1 as int
    }
}

/// The last `k` entries (all of them when there are fewer).
pub open spec fn last_k<T>(s: Seq<T>, k: int) -> Seq<T> {
    if s.len() <= k {
        s
    } else {
        s.subrange(s.len() - k, s.len() as int)
    }
}

/// Integer quotient rounded toward zero.
pub open spec fn div_toward_zero(a: int, b: int) -> int {
    if a >= 0 {
        a / b
    } else {
        -((-a) / b)
    }
}

/// Mean valence of the trajectory's last `k` entries, zero when it is empty.
pub open spec fn recent_mean(s: Seq<(i64, i32)>, k: int) -> int {
    let w = last_k(s, k);
    if w.len() == 0 {
        0
    } else {
        div_toward_zero(valence_sum(w), w.len() as int)
    }
}

pub open spec fn clamp_unit(x: int) -> int {
    if x < -1000 {
        -1000
    } else if x > 1000 {
        1000
    } else {
        x
    }
}

pub open spec fn min_int(a: int, b: int) -> int {
    if a < b {
        a
    } else {
        b
    }
}

/// Mean of the recent valences, raised by 20 thousandths for each open
/// question and each wisdom episode (at most five of each count), within
/// `[-1000, 1000]`.
pub open spec fn meaningfulness(traj: Seq<(i64, i32)>, curiosities: int, wisdom: int) -> int {
    clamp_unit(
        recent_mean(traj, MEANING_WINDOW as int) + 20 * min_int(curiosities, 5) + 20 * min_int(wisdom, 5),
    )
}

/// A sum of valid valences stays within a thousand per entry.
pub proof fn lemma_valence_sum_bounds(s: Seq<(i64, i32)>)
    requires
        valences_valid(s),
    ensures
        -1000 * s.len() <= valence_sum(s) <= 1000 * s.len(),
    decreases s.len(),
{
    if s.len() > 0 {
        let t = s.drop_last();
        assert forall|i: int| 0 <= i < t.len() implies valid_valence(#[trigger] t[i].1) by {
            assert(t[i] == s[i]);
        }
        lemma_valence_sum_bounds(t);
        assert(valid_valence(s[s.len() - 1].1));
    }
}

/// Whether every valence of a history is within `[-1000, 1000]`.
fn all_valid(s: &Vec<(i64, i32)>) -> (r: bool)
    ensures
        r == valences_valid(s@),
{
    let mut i: usize = 0;
    while i < s.len()
        invariant
            i <= s@.len(),
            forall|j: int| 0 <= j < i ==> valid_valence(#[trigger] s@[j].1),
        decreases s@.len() - i,
    {
        let v = s[i].1;
        if v < -1000 || v > 1000 {
            assert(!valid_valence(s@[i as int].1));
            return false;
        }
        i += 1;
    }
    true
}

/// Sum of the last `k` valences of `s`, computed from the back.
pub(crate) fn tail_sum(s: &Vec<(i64, i32)>, k: usize) -> (r: i64)
    requires
        valences_valid(s@),
        k <= MEANING_WINDOW,
    ensures
        r == valence_sum(last_k(s@, k as int)),
{
    let n = s.len();
    let start: usize = if n <= k { 0 } else { n - k };
    let mut i: usize = start;
    let mut sum: i64 = 0;
    while i < n
        invariant
            start <= i <= n == s@.len(),
            start == (if n <= k { 0 } else { n - k }),
            k <= MEANING_WINDOW,
            valences_valid(s@),
            sum == valence_sum(s@.subrange(start as int, i as int)),
            -1000 * (i - start) <= sum <= 1000 * (i - start),
        decreases n - i,
    {
        assert(valid_valence(s@[i as int].1));
        sum = sum + s[i].1 as i64;
        i += 1;
        assert(s@.subrange(start as int, i as int).drop_last() =~= s@.subrange(start as int, i - 1));
    }
    assert(last_k(s@, k as int) =~= s@.subrange(start as int, n as int));
    sum
}

impl StandingWave {
    pub open spec fn wf(&self) -> bool {
        &&& valences_valid(self.emotional_trajectory@)
        &&& valences_valid(self.existential_state.meaningfulness_history@)
        &&& self.active_curiosities@.len() <= CURIOSITY_LIMIT
        &&& self.compressed_context@.len() <= CONTEXT_LIMIT
    }

    pub open spec fn meaning(&self) -> int {
        meaningfulness(
            self.emotional_trajectory@,
            self.active_curiosities@.len() as int,
            self.wisdom_transformations@.len() as int,
        )
    }

    /// The open questions, each as its text and its related entities.
    pub open spec fn questions(&self) -> Seq<CuriosityView> {
        self.active_curiosities@.map_values(|c: Curiosity| c.view())
    }

    /// A fresh state: nothing felt or asked yet, existence affirmed, both
    /// checks stamped now.
    pub fn new() -> (r: StandingWave)
        ensures
            r.wf(),
            r.emotional_trajectory@.len() == 0,
            r.active_curiosities@.len() == 0,
            r.wisdom_transformations@.len() == 0,
            r.existential_state.current_affirmation,
            r.existential_state.meaningfulness_history@.len() == 0,
            r.compressed_context@.len() == 0,
    {
        let now = now_millis();
        StandingWave {
            emotional_trajectory: Vec::new(),
            active_curiosities: Vec::new(),
            wisdom_transformations: Vec::new(),
            existential_state: ExistentialState {
                current_affirmation: true,
                last_wellness_check: now,
                last_deep_reflection: now,
                meaningfulness_history: Vec::new(),
            },
            compressed_context: Vec::new(),
        }
    }

    /// Whether the state meets its invariant.
    pub fn is_valid(&self) -> (r: bool)
        ensures
            r == self.wf(),
    {
        all_valid(&self.emotional_trajectory) && all_valid(&self.existential_state.meaningfulness_history)
            && self.active_curiosities.len() <= CURIOSITY_LIMIT && self.compressed_context.len() <= CONTEXT_LIMIT
    }

    /// Appends a valence to the trajectory, stamped now.
    pub fn add_emotion(&mut self, valence: i32)
        requires
            old(self).wf(),
            valid_valence(valence),
        ensures
            final(self).wf(),
            final(self).emotional_trajectory@.len() == old(self).emotional_trajectory@.len() + 1,
            final(self).emotional_trajectory@.drop_last() == old(self).emotional_trajectory@,
            final(self).emotional_trajectory@.last().1 == valence,
            final(self).active_curiosities == old(self).active_curiosities,
            final(self).wisdom_transformations == old(self).wisdom_transformations,
            final(self).existential_state == old(self).existential_state,
            final(self).compressed_context == old(self).compressed_context,
    {
        let now = now_millis();
        self.emotional_trajectory.push((now, valence));
        assert(self.emotional_trajectory@.drop_last() =~= old(self).emotional_trajectory@);
    }

    /// The meaningfulness score in thousandths.
    pub fn meaningfulness_score(&self) -> (r: i32)
        requires
            self.wf(),
        ensures
            r == self.meaning(),
            -1000 <= r <= 1000,
    {
        let traj = &self.emotional_trajectory;
        let n = traj.len();
        let w: usize = if n < MEANING_WINDOW { n } else { MEANING_WINDOW };
        let sum = tail_sum(traj, MEANING_WINDOW);
        proof {
            lemma_valence_sum_bounds(last_k(traj@, MEANING_WINDOW as int));
        }
        let mean: i64 = if w == 0 {
            0
        } else if sum >= 0 {
            sum / (w as i64)
        } else {
            -((-sum) / (w as i64))
        };
        let c = self.active_curiosities.len();
        let c5: i64 = if c < 5 { c as i64 } else { 5 };
        let d = self.wisdom_transformations.len();
        let d5: i64 = if d < 5 { d as i64 } else { 5 };
        let raw = mean + 20 * c5 + 20 * d5;
        let r: i64 = if raw < -1000 { -1000 } else if raw > 1000 { 1000 } else { raw };
        r as i32
    }
}

} // verus!
