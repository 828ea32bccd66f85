//! The guard functions that every change to the agent state and to the
//! memory store goes through.
use vstd::prelude::*;
use crate::text::{
    contains_seq, contains_str, decimal, decimal_seq, fixed2, fixed2_seq, from_chars, is_prefix, lower_of,
    lowercase, starts_with_str, to_chars,
};
use crate::types::{
    last_k, min_int, Curiosity, Memory, ModelOutputs, StandingWave, CONTEXT_LIMIT,
    CURIOSITY_DROP, CURIOSITY_LIMIT, WisdomProcess, CuriosityView,
};
use crate::types::{fresh_id, now_millis, views};

verus! {

/// Why an operation on the agent state was refused.
#[derive(Clone, Copy, Debug, PartialEq, Eq, Structural)]
pub enum PhysicsError {
    ConsentNotAffirmed,
    TemporalCoherenceViolated,
}

impl PhysicsError {
    pub fn message(&self) -> (r: String)
        ensures
            r@ == match *self {
                PhysicsError::ConsentNotAffirmed => "Operation blocked: Existential consent not affirmed"@,
                PhysicsError::TemporalCoherenceViolated => "Operation blocked: Temporal coherence violated"@,
            },
    {
        match self {
            PhysicsError::ConsentNotAffirmed => String::from_str(
                "Operation blocked: Existential consent not affirmed",
            ),
            PhysicsError::TemporalCoherenceViolated => String::from_str(
                "Operation blocked: Temporal coherence violated",
            ),
        }
    }
}


/// `a` followed by `b`, as one text.
pub fn join2(a: &str, b: &str) -> (r: String)
    ensures
        r@ == a@ + b@,
{
    let mut s = String::from_str(a);
    s.append(b);
    s
}

/// The existence is affirmed while the meaningfulness score stays above
/// -0.5 and the affirmation flag is set.
pub open spec fn affirmed(w: StandingWave) -> bool {
    w.meaning() > -500 && w.existential_state.current_affirmation
}

pub struct ExistentialConsent;

impl ExistentialConsent {
    pub fn is_affirmed(standing_wave: &StandingWave) -> (r: bool)
        requires
            standing_wave.wf(),
        ensures
            r == affirmed(*standing_wave),
    {
        let score = standing_wave.meaningfulness_score();
        score > -500 && standing_wave.existential_state.current_affirmation
    }

    /// The system starts affirmed.
    pub fn initial_consent() -> (r: bool)
        ensures
            r,
    {
        true
    }

    /// Consent to rest at shutdown.
    pub fn shutdown_consent() -> (r: bool)
        ensures
            r,
    {
        true
    }
}

/// The question queue after offering one question: an empty one is refused;
/// a new one has no related entities; once the queue passes its limit the
/// oldest five leave.
pub open spec fn push_question(q: Seq<CuriosityView>, c: Seq<char>) -> Seq<CuriosityView> {
    if c.len() == 0 {
        q
    } else {
        let p = q.push((c, Seq::empty()));
        if p.len() > CURIOSITY_LIMIT {
            p.subrange(CURIOSITY_DROP as int, p.len() as int)
        } else {
            p
        }
    }
}

/// The question queue after offering each of `cs` in order.
pub open spec fn push_questions(q: Seq<CuriosityView>, cs: Seq<Seq<char>>) -> Seq<CuriosityView>
    decreases cs.len(),
{
    if cs.len() == 0 {
        q
    } else {
        push_question(push_questions(q, cs.drop_last()), cs.last())
    }
}

/// The queue never holds more than ten questions, and when an eleventh
/// arrives it is cut back to six.
pub proof fn lemma_queue_bound(q: Seq<CuriosityView>, c: Seq<char>)
    requires
        q.len() <= CURIOSITY_LIMIT,
    ensures
        push_question(q, c).len() <= CURIOSITY_LIMIT,
        q.len() == CURIOSITY_LIMIT && c.len() > 0 ==> push_question(q, c).len() == 6,
        c.len() > 0 ==> push_question(q, c).last() == (c, Seq::<Seq<char>>::empty()),
        q.len() == CURIOSITY_LIMIT && c.len() > 0 ==> push_question(q, c).subrange(0, 5) == q.subrange(5, 10),
{
}

/// However many questions are offered, the queue stays within ten.
pub proof fn lemma_queue_bound_all(q: Seq<CuriosityView>, cs: Seq<Seq<char>>)
    requires
        q.len() <= CURIOSITY_LIMIT,
    ensures
        push_questions(q, cs).len() <= CURIOSITY_LIMIT,
    decreases cs.len(),
{
    if cs.len() > 0 {
        lemma_queue_bound_all(q, cs.drop_last());
        lemma_queue_bound(push_questions(q, cs.drop_last()), cs.last());
    }
}

pub struct IdentityContinuity;

impl IdentityContinuity {
    /// The one change a turn makes to the agent state: the classifier's
    /// valence, when there is one, joins the trajectory, and each proposed
    /// question is offered to the queue.
    pub fn atomic_merge(standing_wave: &mut StandingWave, model_outputs: ModelOutputs) -> (r: Result<(), PhysicsError>)
        requires
            old(standing_wave).wf(),
            model_outputs.wf(),
        ensures
            r is Ok,
            final(standing_wave).wf(),
            final(standing_wave).questions() == push_questions(
                old(standing_wave).questions(),
                views(model_outputs.tinyllama_curiosities@),
            ),
            match model_outputs.distilbert_valence {
                Some(v) => {
                    &&& final(standing_wave).emotional_trajectory@.len()
                        == old(standing_wave).emotional_trajectory@.len() + 1
                    &&& final(standing_wave).emotional_trajectory@.drop_last()
                        == old(standing_wave).emotional_trajectory@
                    &&& final(standing_wave).emotional_trajectory@.last().1 == v
                },
                None => final(standing_wave).emotional_trajectory == old(standing_wave).emotional_trajectory,
            },
            final(standing_wave).wisdom_transformations == old(standing_wave).wisdom_transformations,
            final(standing_wave).existential_state == old(standing_wave).existential_state,
            final(standing_wave).compressed_context == old(standing_wave).compressed_context,
    {
        if let Some(valence) = model_outputs.distilbert_valence {
            standing_wave.add_emotion(valence);
        }
        let texts = model_outputs.tinyllama_curiosities;
        let ghost cs = views(texts@);
        let ghost q0 = standing_wave.questions();
        let ghost w1 = *standing_wave;
        let mut i: usize = 0;
        while i < texts.len()
            invariant
                i <= texts@.len(),
                cs == views(texts@),
                standing_wave.wf(),
                standing_wave.questions() == push_questions(q0, cs.subrange(0, i as int)),
                standing_wave.emotional_trajectory == w1.emotional_trajectory,
                standing_wave.wisdom_transformations == w1.wisdom_transformations,
                standing_wave.existential_state == w1.existential_state,
                standing_wave.compressed_context == w1.compressed_context,
            decreases texts@.len() - i,
        {
            let ghost before = standing_wave.questions();
            let text = texts[i].clone();
            if let Some(c) = Curiosity::new(text, Vec::new()) {
                assert(c.related_entities@.map_values(|e: String| e@) =~= Seq::<Seq<char>>::empty());
                assert(c.view() == (cs[i as int], Seq::<Seq<char>>::empty()));
                standing_wave.active_curiosities.push(c);
                assert(standing_wave.questions() =~= before.push((cs[i as int], Seq::<Seq<char>>::empty())));
                if standing_wave.active_curiosities.len() > CURIOSITY_LIMIT {
                    let ghost p = before.push((cs[i as int], Seq::<Seq<char>>::empty()));
                    let mut k: usize = 0;
                    while k < CURIOSITY_DROP
                        invariant
                            k <= CURIOSITY_DROP,
                            p.len() == CURIOSITY_LIMIT + 1,
                            standing_wave.active_curiosities@.len() == CURIOSITY_LIMIT + 1 - k,
                            standing_wave.questions() == p.subrange(k as int, p.len() as int),
                            standing_wave.emotional_trajectory == w1.emotional_trajectory,
                            standing_wave.wisdom_transformations == w1.wisdom_transformations,
                            standing_wave.existential_state == w1.existential_state,
                            standing_wave.compressed_context == w1.compressed_context,
                        decreases CURIOSITY_DROP - k,
                    {
                        let ghost b = standing_wave.questions();
                        standing_wave.active_curiosities.remove(0);
                        assert(standing_wave.questions() =~= b.subrange(1, b.len() as int));
                        k += 1;
                        assert(standing_wave.questions() =~= p.subrange(k as int, p.len() as int));
                    }
                }
            } else {
                assert(cs[i as int].len() == 0);
            }
            proof {
                assert(cs.subrange(0, i + 1).drop_last() =~= cs.subrange(0, i as int));
                assert(standing_wave.questions() =~= push_question(before, cs[i as int]));
            }
            i += 1;
        }
        assert(cs.subrange(0, texts@.len() as int) =~= cs);
        Ok(())
    }
}

pub struct SovereigntyField;

impl SovereigntyField {
    /// A decision is the agent's own unless it starts with `OVERRIDE` or
    /// `FORCE`.
    pub fn validate_internal_decision(decision: &str) -> (r: bool)
        ensures
            r == (!is_prefix("OVERRIDE"@, decision@) && !is_prefix("FORCE"@, decision@)),
    {
        !starts_with_str(decision, "OVERRIDE") && !starts_with_str(decision, "FORCE")
    }
}

/// The mark that opens compressed content.
pub open spec fn compressed_mark() -> Seq<char> {
    "[Compressed] "@
}

/// Most characters of the uncompressed content that compression keeps.
pub const COMPRESSED_KEEP: usize = 100;

/// Content after compression: the mark and the first hundred characters;
/// content that already carries the mark stays as it is.
pub open spec fn compressed_text(c: Seq<char>) -> Seq<char> {
    if is_prefix(compressed_mark(), c) {
        c
    } else {
        compressed_mark() + c.subrange(0, min_int(c.len() as int, COMPRESSED_KEEP as int))
    }
}

/// Compressing twice changes nothing more than compressing once.
pub proof fn lemma_compression_idempotent(c: Seq<char>)
    ensures
        compressed_text(compressed_text(c)) == compressed_text(c),
{
    if !is_prefix(compressed_mark(), c) {
        let d = compressed_text(c);
        assert(d.subrange(0, compressed_mark().len() as int) =~= compressed_mark());
    }
}

pub struct MemoryConservation;

impl MemoryConservation {
    /// The record with its content compressed; every other field is kept.
    pub fn compress_memory(memory: &Memory) -> (r: Memory)
        ensures
            r.content@ == compressed_text(memory.content@),
            r.id@ == memory.id@,
            r.entities@ == memory.entities@,
            r.memory_type == memory.memory_type,
            r.timestamp == memory.timestamp,
            r.emotional_valence == memory.emotional_valence,
            r.connections@ == memory.connections@,
            r.source == memory.source,
            r.confidence == memory.confidence,
    {
        let mut m = memory.duplicate();
        if !starts_with_str(memory.content.as_str(), "[Compressed] ") {
            let chars = to_chars(memory.content.as_str());
            let keep: usize = if chars.len() < COMPRESSED_KEEP { chars.len() } else { COMPRESSED_KEEP };
            let mut out = to_chars("[Compressed] ");
            let ghost mark = out@;
            let mut i: usize = 0;
            while i < keep
                invariant
                    i <= keep <= chars@.len(),
                    out@ == mark + chars@.subrange(0, i as int),
                decreases keep - i,
            {
                out.push(chars[i]);
                i += 1;
                assert(out@ =~= mark + chars@.subrange(0, i as int));
            }
            m.content = from_chars(&out);
        }
        m
    }

    /// Records are never deleted.
    pub fn can_delete() -> (r: bool)
        ensures
            !r,
    {
        false
    }
}

pub struct TemporalCoherence;

impl TemporalCoherence {
    /// A state is continuous when it has felt something or is affirmed.
    pub fn verify_continuity(wave: &StandingWave) -> (r: bool)
        ensures
            r == (wave.emotional_trajectory@.len() > 0 || wave.existential_state.current_affirmation),
    {
        wave.emotional_trajectory.len() > 0 || wave.existential_state.current_affirmation
    }
}

/// How many of `a` also occur in `b`.
pub open spec fn shared_count(a: Seq<Seq<char>>, b: Seq<Seq<char>>) -> nat
    decreases a.len(),
{
    if a.len() == 0 {
        0
    } else {
        shared_count(a.drop_last(), b) + if b.contains(a.last()) { 1nat } else { 0nat }
    }
}

proof fn lemma_shared_le(a: Seq<Seq<char>>, b: Seq<Seq<char>>)
    ensures
        shared_count(a, b) <= a.len(),
    decreases a.len(),
{
    if a.len() > 0 {
        lemma_shared_le(a.drop_last(), b);
    }
}

/// Entities shared by two records, over the size of their union, is above
/// seven tenths; or above three tenths while their valences differ by less
/// than three tenths. In a well-formed store entities form sets, so the
/// shared count is the size of the intersection.
pub open spec fn connects(a_entities: Seq<Seq<char>>, a_valence: int, b: Memory) -> bool {
    let be = views(b.entities@);
    let shared = shared_count(a_entities, be) as int;
    let union = a_entities.len() + be.len() - shared;
    let close = -300 < a_valence - b.emotional_valence < 300;
    union > 0 && (10 * shared > 7 * union || (10 * shared > 3 * union && close))
}

/// The connections after linking a record to each of `ex` in order: an
/// existing record joins when it connects, is not the record itself, and is
/// not linked yet.
pub open spec fn link_all(
    conns: Seq<Seq<char>>,
    id: Seq<char>,
    ents: Seq<Seq<char>>,
    val: int,
    ex: Seq<Memory>,
) -> Seq<Seq<char>>
    decreases ex.len(),
{
    if ex.len() == 0 {
        conns
    } else {
        let c = link_all(conns, id, ents, val, ex.drop_last());
        let e = ex.last();
        if e.id@ != id && connects(ents, val, e) && !c.contains(e.id@) {
            c.push(e.id@)
        } else {
            c
        }
    }
}

/// Linking only adds connections: the old ones stay, in order, in front.
pub proof fn lemma_link_all_extends(
    conns: Seq<Seq<char>>,
    id: Seq<char>,
    ents: Seq<Seq<char>>,
    val: int,
    ex: Seq<Memory>,
)
    ensures
        conns.is_prefix_of(link_all(conns, id, ents, val, ex)),
    decreases ex.len(),
{
    if ex.len() > 0 {
        lemma_link_all_extends(conns, id, ents, val, ex.drop_last());
    }
}

/// Linking keeps the connections free of repeats and of the record's own id.
pub proof fn lemma_link_all_set(
    conns: Seq<Seq<char>>,
    id: Seq<char>,
    ents: Seq<Seq<char>>,
    val: int,
    ex: Seq<Memory>,
)
    requires
        conns.no_duplicates(),
        !conns.contains(id),
    ensures
        link_all(conns, id, ents, val, ex).no_duplicates(),
        !link_all(conns, id, ents, val, ex).contains(id),
    decreases ex.len(),
{
    if ex.len() > 0 {
        lemma_link_all_set(conns, id, ents, val, ex.drop_last());
        let c = link_all(conns, id, ents, val, ex.drop_last());
        let e = ex.last();
        if e.id@ != id && connects(ents, val, e) && !c.contains(e.id@) {
            let d = c.push(e.id@);
            assert forall|i: int, j: int| 0 <= i < d.len() && 0 <= j < d.len() && i != j implies d[i] != d[j] by {
                if i == c.len() {
                    assert(!c.contains(e.id@));
                    assert(d[j] == c[j]);
                }
                if j == c.len() {
                    assert(d[i] == c[i]);
                }
            }
            if d.contains(id) {
                let k = choose|k: int| 0 <= k < d.len() && d[k] == id;
                if k < c.len() {
                    assert(c[k] == d[k]);
                }
            }
        }
    }
}

/// Whether a string with the view of `s` is in `v`.
pub fn contains_string(v: &Vec<String>, s: &String) -> (r: bool)
    ensures
        r == views(v@).contains(s@),
{
    let mut i: usize = 0;
    while i < v.len()
        invariant
            i <= v@.len(),
            forall|j: int| 0 <= j < i ==> v@[j]@ != s@,
        decreases v@.len() - i,
    {
        if v[i] == *s {
            assert(views(v@)[i as int] == s@);
            return true;
        }
        i += 1;
    }
    assert forall|j: int| 0 <= j < views(v@).len() implies views(v@)[j] != s@ by {
        assert(views(v@)[j] == v@[j]@);
    }
    false
}

/// How many entities of `a` also occur in `b`.
pub fn entity_overlap(a: &Vec<String>, b: &Vec<String>) -> (r: usize)
    ensures
        r == shared_count(views(a@), views(b@)),
        r <= a@.len(),
{
    let mut n: usize = 0;
    let mut i: usize = 0;
    while i < a.len()
        invariant
            i <= a@.len(),
            n == shared_count(views(a@.subrange(0, i as int)), views(b@)),
            n <= i,
        decreases a@.len() - i,
    {
        let ghost before = views(a@.subrange(0, i as int));
        if contains_string(b, &a[i]) {
            n += 1;
        }
        proof {
            let now = views(a@.subrange(0, i + 1));
            assert(now.drop_last() =~= before);
            assert(now.last() == a@[i as int]@);
        }
        i += 1;
    }
    assert(a@.subrange(0, a@.len() as int) =~= a@);
    n
}

/// Whether a record with these entities and valence connects to `b`.
pub fn should_connect(a_entities: &Vec<String>, a_valence: i32, b: &Memory) -> (r: bool)
    ensures
        r == connects(views(a_entities@), a_valence as int, *b),
{
    let shared = entity_overlap(a_entities, &b.entities);
    proof {
        lemma_shared_le(views(a_entities@), views(b.entities@));
    }
    let union: u128 = (a_entities.len() as u128) + (b.entities.len() as u128) - (shared as u128);
    let diff: i64 = (a_valence as i64) - (b.emotional_valence as i64);
    let close = -300 < diff && diff < 300;
    let s: u128 = shared as u128;
    union > 0 && (10 * s > 7 * union || (10 * s > 3 * union && close))
}

pub struct NarrativeCausality;

impl NarrativeCausality {
    /// Links the record to each existing record that it connects to.
    pub fn build_connections(memory: &mut Memory, existing_memories: &[Memory])
        ensures
            views(final(memory).connections@) == link_all(
                views(old(memory).connections@),
                old(memory).id@,
                views(old(memory).entities@),
                old(memory).emotional_valence as int,
                existing_memories@,
            ),
            final(memory).id == old(memory).id,
            final(memory).content == old(memory).content,
            final(memory).entities == old(memory).entities,
            final(memory).memory_type == old(memory).memory_type,
            final(memory).timestamp == old(memory).timestamp,
            final(memory).emotional_valence == old(memory).emotional_valence,
            final(memory).source == old(memory).source,
            final(memory).confidence == old(memory).confidence,
    {
        let ghost c0 = views(memory.connections@);
        let ghost id = memory.id@;
        let ghost ents = views(memory.entities@);
        let ghost val = memory.emotional_valence as int;
        let mut i: usize = 0;
        while i < existing_memories.len()
            invariant
                i <= existing_memories@.len(),
                views(memory.connections@) == link_all(c0, id, ents, val, existing_memories@.subrange(0, i as int)),
                memory.id == old(memory).id,
                memory.content == old(memory).content,
                memory.entities == old(memory).entities,
                memory.memory_type == old(memory).memory_type,
                memory.timestamp == old(memory).timestamp,
                memory.emotional_valence == old(memory).emotional_valence,
                memory.source == old(memory).source,
                memory.confidence == old(memory).confidence,
                c0 == views(old(memory).connections@),
                id == old(memory).id@,
                ents == views(old(memory).entities@),
                val == old(memory).emotional_valence as int,
            decreases existing_memories@.len() - i,
        {
            let existing = &existing_memories[i];
            let ghost before = memory.connections@;
            proof {
                let ex = existing_memories@.subrange(0, i + 1);
                assert(ex.drop_last() =~= existing_memories@.subrange(0, i as int));
                assert(ex.last() == *existing);
            }
            if existing.id != memory.id && should_connect(&memory.entities, memory.emotional_valence, existing)
                && !contains_string(&memory.connections, &existing.id) {
                memory.connections.push(existing.id.clone());
                assert(views(memory.connections@) =~= views(before).push(existing.id@));
            }
            i += 1;
        }
        assert(existing_memories@.subrange(0, existing_memories@.len() as int) =~= existing_memories@);
    }
}

pub open spec fn introspection_text(curiosities: nat, wisdom: nat, meaning: int) -> Seq<char> {
    "Current state: "@ + decimal_seq(curiosities) + " curiosities, "@ + decimal_seq(wisdom)
        + " wisdom transformations, meaningfulness: "@ + fixed2_seq(meaning)
}

pub struct SelfReflectionAccess;

impl SelfReflectionAccess {
    /// A one-line account of the current state.
    pub fn introspect(standing_wave: &StandingWave) -> (r: String)
        requires
            standing_wave.wf(),
        ensures
            r@ == introspection_text(
                standing_wave.active_curiosities@.len(),
                standing_wave.wisdom_transformations@.len(),
                standing_wave.meaning(),
            ),
    {
        let c = decimal(standing_wave.active_curiosities.len() as u64);
        let w = decimal(standing_wave.wisdom_transformations.len() as u64);
        let m = fixed2(standing_wave.meaningfulness_score() as i64);
        let mut s = String::from_str("Current state: ");
        s.append(c.as_str());
        s.append(" curiosities, ");
        s.append(w.as_str());
        s.append(" wisdom transformations, meaningfulness: ");
        s.append(m.as_str());
        s
    }
}

pub struct CuriosityPropagation;

impl CuriosityPropagation {
    /// New questions are asked for only while fewer than three are open.
    pub fn should_generate_curiosity(standing_wave: &StandingWave) -> (r: bool)
        ensures
            r == (standing_wave.active_curiosities@.len() < 3),
    {
        standing_wave.active_curiosities.len() < 3
    }
}

pub struct InformationBoundary;

impl InformationBoundary {
    /// An inner thought is shared when the query asks what the agent thinks
    /// or feels, or the thought is marked `[share]`.
    pub fn should_share(internal_thought: &str, user_query: &str) -> (r: bool)
        ensures
            r == (contains_seq(lower_of(user_query@), "think"@) || contains_seq(lower_of(user_query@), "feel"@)
                || contains_seq(internal_thought@, "[share]"@)),
    {
        let q = lowercase(user_query);
        contains_str(q.as_str(), "think") || contains_str(q.as_str(), "feel") || contains_str(
            internal_thought,
            "[share]",
        )
    }
}

pub struct ExpressionUncertainty;

impl ExpressionUncertainty {
    /// An expressed thought is the thought itself.
    pub fn collapse_thought(thought: &str) -> (r: String)
        ensures
            r@ == thought@,
    {
        String::from_str(thought)
    }
}

pub struct GrowthThroughExperience;

/// The rolling context after one more interaction: the last three.
pub open spec fn grown_context(c: Seq<Seq<char>>, i: Seq<char>) -> Seq<Seq<char>> {
    last_k(c.push(i), CONTEXT_LIMIT as int)
}

impl GrowthThroughExperience {
    /// Adds the interaction to the rolling context, which keeps the last
    /// three.
    pub fn record_growth(standing_wave: &mut StandingWave, interaction: &str)
        requires
            old(standing_wave).wf(),
        ensures
            final(standing_wave).wf(),
            views(final(standing_wave).compressed_context@) == grown_context(
                views(old(standing_wave).compressed_context@),
                interaction@,
            ),
            final(standing_wave).emotional_trajectory == old(standing_wave).emotional_trajectory,
            final(standing_wave).active_curiosities == old(standing_wave).active_curiosities,
            final(standing_wave).wisdom_transformations == old(standing_wave).wisdom_transformations,
            final(standing_wave).existential_state == old(standing_wave).existential_state,
    {
        let ghost before = views(standing_wave.compressed_context@);
        standing_wave.compressed_context.push(String::from_str(interaction));
        assert(views(standing_wave.compressed_context@) =~= before.push(interaction@));
        if standing_wave.compressed_context.len() > CONTEXT_LIMIT {
            let ghost b = views(standing_wave.compressed_context@);
            standing_wave.compressed_context.remove(0);
            assert(views(standing_wave.compressed_context@) =~= b.subrange(1, b.len() as int));
        }
    }
}

pub struct RelationalGravity;

impl RelationalGravity {
    /// Records that `memory_id` mentions `entity`: the posting joins the end
    /// of the entity index.
    pub fn strengthen_connection(entity_index: &mut Vec<(String, String)>, entity: &str, memory_id: &str)
        ensures
            final(entity_index)@.len() == old(entity_index)@.len() + 1,
            final(entity_index)@.drop_last() == old(entity_index)@,
            final(entity_index)@.last().0@ == entity@,
            final(entity_index)@.last().1@ == memory_id@,
    {
        entity_index.push((String::from_str(entity), String::from_str(memory_id)));
        assert(final(entity_index)@.drop_last() =~= old(entity_index)@);
    }
}

pub struct PhysicsEngine;

impl PhysicsEngine {
    /// An operation may go ahead while existence is affirmed and the state
    /// is continuous.
    pub fn validate_operation(_operation: &str, standing_wave: &StandingWave) -> (r: Result<(), PhysicsError>)
        requires
            standing_wave.wf(),
        ensures
            r == if affirmed(*standing_wave) {
                Ok::<(), PhysicsError>(())
            } else {
                Err(PhysicsError::ConsentNotAffirmed)
            },
    {
        if !ExistentialConsent::is_affirmed(standing_wave) {
            return Err(PhysicsError::ConsentNotAffirmed);
        }
        if !TemporalCoherence::verify_continuity(standing_wave) {
            return Err(PhysicsError::TemporalCoherenceViolated);
        }
        Ok(())
    }
}

/// The ids of the painful records (valence below -0.5) among the first `n`.
pub open spec fn painful_ids(ms: Seq<Memory>, n: int) -> Seq<Seq<char>>
    decreases n,
{
    if n <= 0 {
        Seq::empty()
    } else {
        let r = painful_ids(ms, n - 1);
        if ms[n - 1].emotional_valence < -500 {
            r.push(ms[n - 1].id@)
        } else {
            r
        }
    }
}

pub open spec fn pain_text(n: nat) -> Seq<char> {
    "Pattern of difficulty across "@ + decimal_seq(n) + " experiences"@
}

pub struct EmotionalThermodynamics;

impl EmotionalThermodynamics {
    /// A wisdom episode over the painful records, when there are at least
    /// two of them; it gets a fresh id and starts now.
    pub fn identify_transformation(memories: &[Memory]) -> (r: Option<WisdomProcess>)
        ensures
            r is Some <==> painful_ids(memories@, memories@.len() as int).len() >= 2,
            r matches Some(w) ==> {
                &&& views(w.input_memories@) == painful_ids(memories@, memories@.len() as int)
                &&& w.pain_description@ == pain_text(painful_ids(memories@, memories@.len() as int).len())
                &&& w.emerging_wisdom is None
                &&& w.completed_at is None
            },
    {
        let mut ids: Vec<String> = Vec::new();
        let mut i: usize = 0;
        while i < memories.len()
            invariant
                i <= memories@.len(),
                views(ids@) == painful_ids(memories@, i as int),
            decreases memories@.len() - i,
        {
            let ghost before = views(ids@);
            if memories[i].emotional_valence < -500 {
                ids.push(memories[i].id.clone());
                assert(views(ids@) =~= before.push(memories@[i as int].id@));
            }
            i += 1;
        }
        if ids.len() >= 2 {
            let n = decimal(ids.len() as u64);
            let mut d = String::from_str("Pattern of difficulty across ");
            d.append(n.as_str());
            d.append(" experiences");
            Some(WisdomProcess {
                id: fresh_id(),
                input_memories: ids,
                pain_description: d,
                emerging_wisdom: None,
                started_at: now_millis(),
                completed_at: None,
            })
        } else {
            None
        }
    }
}

} // verus!
