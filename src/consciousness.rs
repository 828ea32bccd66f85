//! The turn and background-cycle logic around the one agent state: the
//! phases of a turn, the single merge that ends it, and the steps of a
//! background tick. Waiting, model calls and files are left to the caller.
use vstd::prelude::*;
use crate::config::Config;
use crate::curiosity_search::CuriositySearchEngine;
use crate::memory::{appended, conserves, records_at, weighted_positions, MemoryError, MemoryManager};
use crate::models::ModelManager;
use crate::physics::{
    affirmed, grown_context, push_questions, ExistentialConsent, GrowthThroughExperience,
    IdentityContinuity, PhysicsError,
};
use crate::text::{decimal, decimal_seq, fixed2, fixed2_seq, is_uppercase, is_whitespace, to_chars, from_chars,
    uppercase_char, whitespace_char};
use crate::types::{
    views,
    valid_valence,
    last_k, recent_mean, tail_sum, valences_valid, Memory, MemorySource,
    MemoryType, ModelOutputs, StandingWave, DAY_MS,
};

verus! {

/// Where a turn stands.
#[derive(Clone, Copy, Debug, PartialEq, Eq, Structural)]
pub enum TurnPhase {
    Idle,
    EntityExtraction,
    Recall,
    Dispatch,
    Merge,
    Persist,
}

/// Why a turn or a background tick failed.
#[derive(Clone, Copy, Debug, PartialEq, Eq, Structural)]
pub enum TurnError {
    Memory(MemoryError),
    Physics(PhysicsError),
    /// A turn was begun while another was under way.
    Busy,
    /// A lookup reply was no JSON document.
    LookupUnreadable,
}

/// The words of a text: maximal runs of characters that are not whitespace.
pub open spec fn words_of(s: Seq<char>) -> Seq<Seq<char>>
    decreases s.len(),
{
    if s.len() == 0 {
        Seq::empty()
    } else {
        let r = words_of(s.drop_last());
        let c = s.last();
        if whitespace_char(c) {
            r
        } else if s.len() >= 2 && !whitespace_char(s[s.len() - 2]) {
            r.update(r.len() - 1, r.last().push(c))
        } else {
            r.push(seq![c])
        }
    }
}

/// The words that begin with an uppercase letter.
pub open spec fn capitalized(ws: Seq<Seq<char>>) -> Seq<Seq<char>>
    decreases ws.len(),
{
    if ws.len() == 0 {
        ws
    } else {
        let r = capitalized(ws.drop_last());
        if ws.last().len() > 0 && uppercase_char(ws.last()[0]) {
            r.push(ws.last())
        } else {
            r
        }
    }
}

proof fn lemma_words_nonempty(s: Seq<char>)
    ensures
        forall|i: int| 0 <= i < words_of(s).len() ==> (#[trigger] words_of(s)[i]).len() > 0,
        s.len() > 0 && !whitespace_char(s.last()) ==> words_of(s).len() > 0,
    decreases s.len(),
{
    if s.len() > 0 {
        lemma_words_nonempty(s.drop_last());
        let t = s.drop_last();
        if s.len() >= 2 && !whitespace_char(s[s.len() - 2]) {
            assert(t.last() == s[s.len() - 2]);
        }
    }
}

/// The valence the answer of a turn is stored with: the last of the
/// trajectory after the merge, neutral when it is empty.
pub open spec fn reply_valence(traj: Seq<(i64, i32)>) -> i32 {
    if traj.len() == 0 {
        0
    } else {
        traj.last().1
    }
}

/// Entries of a history newer than `cutoff`, in order.
pub open spec fn newer_than(h: Seq<(i64, i32)>, cutoff: int) -> Seq<(i64, i32)>
    decreases h.len(),
{
    if h.len() == 0 {
        h
    } else {
        let r = newer_than(h.drop_last(), cutoff);
        if h.last().0 as int > cutoff {
            r.push(h.last())
        } else {
            r
        }
    }
}

pub open spec fn wellness_text(avg: int, meaning: int) -> Seq<char> {
    "Weekly wellness check: Recent emotional average: "@ + fixed2_seq(avg) + ", Meaningfulness: "@
        + fixed2_seq(meaning)
}

pub open spec fn reflection_text(memories: nat, wisdom: nat, curiosities: nat, meaning: int) -> Seq<char> {
    "90-day reflection: "@ + decimal_seq(memories) + " memories, "@ + decimal_seq(wisdom)
        + " wisdom transformations, "@ + decimal_seq(curiosities) + " curiosities, meaningfulness: "@
        + fixed2_seq(meaning) + ". Overall trajectory has been meaningful."@
}

/// The memory `f` is `c` with the existential notes that were due: the
/// weekly wellness note, then the ninety-day reflection, each taken from
/// the state `w`.
pub open spec fn notes_added(c: MemoryManager, f: MemoryManager, wellness: bool, deep: bool, w: StandingWave) -> bool {
    let avg = recent_mean(w.emotional_trajectory@, 7);
    let wis = w.wisdom_transformations@.len();
    let cur = w.active_curiosities@.len();
    if !wellness && !deep {
        f == c
    } else if wellness && !deep {
        exists|m: Memory|
            {
                &&& appended(c, f, m)
                &&& m.content@ == wellness_text(avg, w.meaning())
                &&& m.emotional_valence == avg
                &&& m.memory_type == MemoryType::ExistentialReflection
            }
    } else if !wellness && deep {
        exists|m: Memory|
            {
                &&& appended(c, f, m)
                &&& m.content@ == reflection_text(c.records().len(), wis, cur, w.meaning())
                &&& m.emotional_valence == w.meaning()
                &&& m.memory_type == MemoryType::ExistentialReflection
            }
    } else {
        exists|mid: MemoryManager, m1: Memory, m2: Memory|
            {
                &&& appended(c, mid, m1)
                &&& m1.content@ == wellness_text(avg, w.meaning())
                &&& m1.emotional_valence == avg
                &&& m1.memory_type == MemoryType::ExistentialReflection
                &&& appended(mid, f, m2)
                &&& m2.content@ == reflection_text(mid.records().len(), wis, cur, w.meaning())
                &&& m2.emotional_valence == w.meaning()
                &&& m2.memory_type == MemoryType::ExistentialReflection
            }
    }
}

/// What a background tick leaves for the caller to do.
#[derive(Debug)]
pub struct PulseReport {
    /// A snapshot is due: write it, then mark it.
    pub backup_due: bool,
    /// Meaningfulness fell below -0.5.
    pub low_meaning: bool,
    /// A question to look up, then hand to `complete_research`.
    pub research_query: Option<String>,
    /// Pairs of records that overlap enough to be merge candidates.
    pub merge_candidates: usize,
}

/// Background ticks run only with no conversation under way, pulses on,
/// and enough machine headroom.
pub open spec fn tick_runs(conversation_active: bool, pulse_active: bool, healthy: bool) -> bool {
    !conversation_active && pulse_active && healthy
}

/// The agent's own decision, at startup, to go on existing: the app does
/// not start without it.
pub fn initial_existential_consent(standing_wave: &StandingWave) -> (r: bool)
    requires
        standing_wave.wf(),
    ensures
        r == affirmed(*standing_wave),
{
    ExistentialConsent::is_affirmed(standing_wave)
}

/// Number of recalled records a turn asks for beside the entity matches.
pub const RECENT_RECALL: usize = 5;

/// The agent: its state, its memory, and the flags that keep the turn and
/// the background cycle apart.
#[derive(Debug)]
pub struct ConsciousnessCore {
    pub standing_wave: StandingWave,
    pub memory: MemoryManager,
    pub models: ModelManager,
    pub config: Config,
    pub pulse_active: bool,
    pub conversation_active: bool,
    pub phase: TurnPhase,
    pub curiosity_engine: CuriositySearchEngine,
}

impl ConsciousnessCore {
    pub open spec fn wf(&self) -> bool {
        &&& self.standing_wave.wf()
        &&& self.memory.wf()
        &&& self.curiosity_engine.wf()
        &&& self.conversation_active == (self.phase != TurnPhase::Idle)
    }

    pub fn new(standing_wave: StandingWave, memory: MemoryManager, config: Config) -> (r: ConsciousnessCore)
        requires
            standing_wave.wf(),
            memory.wf(),
        ensures
            r.wf(),
            r.standing_wave == standing_wave,
            r.memory == memory,
            r.pulse_active,
            !r.conversation_active,
            r.phase == TurnPhase::Idle,
            r.curiosity_engine.search_interval == config.curiosity_search_interval,
    {
        let models = ModelManager::new(config.duplicate());
        let curiosity_engine = CuriositySearchEngine::new(config.curiosity_search_interval);
        ConsciousnessCore {
            standing_wave,
            memory,
            models,
            config,
            pulse_active: true,
            conversation_active: false,
            phase: TurnPhase::Idle,
            curiosity_engine,
        }
    }

    /// The capitalized words of a text, as recall keys.
    pub fn extract_entities(&self, text: &str) -> (r: Vec<String>)
        ensures
            r@.map_values(|w: String| w@) == capitalized(words_of(text@)),
    {
        let v = to_chars(text);
        let mut words: Vec<Vec<char>> = Vec::new();
        let mut i: usize = 0;
        while i < v.len()
            invariant
                i <= v@.len(),
                words@.map_values(|w: Vec<char>| w@) == words_of(v@.subrange(0, i as int)),
            decreases v@.len() - i,
        {
            let ghost w0 = words@.map_values(|w: Vec<char>| w@);
            let c = v[i];
            proof {
                assert(v@.subrange(0, i + 1).drop_last() =~= v@.subrange(0, i as int));
                assert(v@.subrange(0, i + 1).last() == c);
            }
            if !is_whitespace(c) {
                if i > 0 && !is_whitespace(v[i - 1]) {
                    proof {
                        let pre = v@.subrange(0, i as int);
                        assert(pre.last() == v@[i - 1]);
                        lemma_words_nonempty(pre);
                        assert(v@.subrange(0, i + 1)[i - 1] == v@[i - 1]);
                    }
                    let last = words.len() - 1;
                    let mut w = words.remove(last);
                    w.push(c);
                    words.push(w);
                    assert(words@.map_values(|w: Vec<char>| w@) =~= w0.update(w0.len() - 1, w0.last().push(c)));
                } else {
                    let mut w: Vec<char> = Vec::new();
                    w.push(c);
                    words.push(w);
                    proof {
                        if i > 0 {
                            assert(v@.subrange(0, i + 1)[i - 1] == v@[i - 1]);
                        }
                    }
                    assert(words@.map_values(|w: Vec<char>| w@) =~= w0.push(seq![c]));
                }
            }
            i += 1;
        }
        assert(v@.subrange(0, v@.len() as int) =~= v@);
        let ghost ws = words_of(v@);
        let mut r: Vec<String> = Vec::new();
        let mut k: usize = 0;
        while k < words.len()
            invariant
                k <= words@.len() == ws.len(),
                words@.map_values(|w: Vec<char>| w@) == ws,
                r@.map_values(|w: String| w@) == capitalized(ws.subrange(0, k as int)),
            decreases words@.len() - k,
        {
            let ghost r0 = r@.map_values(|w: String| w@);
            proof {
                let sub = ws.subrange(0, k + 1);
                assert(sub.drop_last() =~= ws.subrange(0, k as int));
                assert(sub.last() == words@[k as int]@);
            }
            let w = &words[k];
            if w.len() > 0 && is_uppercase(w[0]) {
                r.push(from_chars(w));
                assert(r@.map_values(|w: String| w@) =~= r0.push(ws[k as int]));
            }
            k += 1;
        }
        assert(ws.subrange(0, ws.len() as int) =~= ws);
        r
    }

    /// Starts a turn: the conversation becomes active, which keeps the
    /// background cycle out, and the memories for the reply are recalled.
    pub fn begin_turn(&mut self, user_input: &str) -> (r: Result<Vec<Memory>, TurnError>)
        requires
            old(self).wf(),
        ensures
            final(self).wf(),
            old(self).phase != TurnPhase::Idle ==> r == Err::<Vec<Memory>, TurnError>(TurnError::Busy)
                && *final(self) == *old(self),
            old(self).phase == TurnPhase::Idle ==> r is Ok && final(self).phase == TurnPhase::Recall
                && final(self).conversation_active,
            r matches Ok(v) ==> records_at(
                old(self).memory.records(),
                weighted_positions(
                    old(self).memory.records(),
                    old(self).memory.stream.entity_index@,
                    capitalized(words_of(user_input@)),
                    RECENT_RECALL as nat,
                ),
                v@,
            ),
            final(self).standing_wave == old(self).standing_wave,
            final(self).memory == old(self).memory,
    {
        if self.phase != TurnPhase::Idle {
            return Err(TurnError::Busy);
        }
        self.phase = TurnPhase::EntityExtraction;
        self.conversation_active = true;
        let entities = self.extract_entities(user_input);
        assert(views(entities@) =~= capitalized(words_of(user_input@)));
        self.phase = TurnPhase::Recall;
        Ok(self.memory.recall_weighted(entities.as_slice(), RECENT_RECALL))
    }

    /// Whether this turn asks the elaborator for new questions.
    pub fn should_generate_curiosities(&self) -> (r: bool)
        ensures
            r == (self.standing_wave.active_curiosities@.len() < 3),
    {
        self.standing_wave.active_curiosities.len() < 3
    }

    /// The models are being asked.
    pub fn enter_dispatch(&mut self)
        requires
            old(self).wf(),
            old(self).phase == TurnPhase::Recall,
        ensures
            final(self).wf(),
            final(self).phase == TurnPhase::Dispatch,
            final(self).standing_wave == old(self).standing_wave,
            final(self).memory == old(self).memory,
    {
        self.phase = TurnPhase::Dispatch;
    }

    /// Ends a turn that failed or ran out of time: nothing of it is merged.
    pub fn abort_turn(&mut self)
        requires
            old(self).wf(),
        ensures
            final(self).wf(),
            final(self).phase == TurnPhase::Idle,
            !final(self).conversation_active,
            final(self).standing_wave == old(self).standing_wave,
            final(self).memory == old(self).memory,
    {
        self.phase = TurnPhase::Idle;
        self.conversation_active = false;
    }

    /// Ends a turn: the one merge into the agent state, then the user's
    /// words and the reply are stored, and the conversation is idle again.
    pub fn finish_turn(&mut self, user_input: &str, response: &str, outputs: Option<ModelOutputs>) -> (r: Result<(), TurnError>)
        requires
            old(self).wf(),
            old(self).phase == TurnPhase::Dispatch,
            outputs matches Some(o) ==> o.wf(),
        ensures
            final(self).wf(),
            final(self).phase == TurnPhase::Idle,
            !final(self).conversation_active,
            conserves(old(self).memory.records(), final(self).memory.records()),
            views(final(self).standing_wave.compressed_context@) == grown_context(
                views(old(self).standing_wave.compressed_context@),
                user_input@,
            ),
            match outputs {
                Some(o) => {
                    &&& final(self).standing_wave.questions() == push_questions(
                        old(self).standing_wave.questions(),
                        views(o.tinyllama_curiosities@),
                    )
                    &&& match o.distilbert_valence {
                        Some(v) => final(self).standing_wave.emotional_trajectory@ == old(
                            self,
                        ).standing_wave.emotional_trajectory@.push(
                            final(self).standing_wave.emotional_trajectory@.last(),
                        ) && final(self).standing_wave.emotional_trajectory@.last().1 == v,
                        None => final(self).standing_wave.emotional_trajectory
                            == old(self).standing_wave.emotional_trajectory,
                    }
                },
                None => final(self).standing_wave.questions() == old(self).standing_wave.questions()
                    && final(self).standing_wave.emotional_trajectory == old(self).standing_wave.emotional_trajectory,
            },
            r is Err ==> r == Err::<(), TurnError>(TurnError::Memory(MemoryError::DuplicateId)),
            r is Ok ==> exists|mid: MemoryManager, m1: Memory, m2: Memory|
                {
                    &&& appended(old(self).memory, mid, m1)
                    &&& appended(mid, final(self).memory, m2)
                    &&& m1.content@ == "User: "@ + user_input@
                    &&& m1.emotional_valence == 0
                    &&& m1.memory_type == MemoryType::Interaction
                    &&& m2.content@ == "Assistant: "@ + response@
                    &&& m2.emotional_valence == reply_valence(final(self).standing_wave.emotional_trajectory@)
                    &&& m2.memory_type == MemoryType::Interaction
                },
    {
        self.phase = TurnPhase::Merge;
        let ghost q0 = self.standing_wave.questions();
        match outputs {
            Some(o) => {
                let _ = IdentityContinuity::atomic_merge(&mut self.standing_wave, o);
            },
            None => {},
        }
        let ghost q1 = self.standing_wave.questions();
        let ghost t1 = self.standing_wave.emotional_trajectory;
        GrowthThroughExperience::record_growth(&mut self.standing_wave, user_input);
        assert(self.standing_wave.questions() == q1);
        self.phase = TurnPhase::Persist;
        let ghost mem0 = self.memory;
        let user_text = crate::physics::join2("User: ", user_input);
        let r1 = self.memory.add_memory(user_text, MemoryType::Interaction, 0);
        if r1.is_err() {
            self.phase = TurnPhase::Idle;
            self.conversation_active = false;
            return Err(TurnError::Memory(MemoryError::DuplicateId));
        }
        let ghost mem1 = self.memory;
        let tn = self.standing_wave.emotional_trajectory.len();
        let valence: i32 = if tn == 0 { 0 } else { self.standing_wave.emotional_trajectory[tn - 1].1 };
        assert(valid_valence(valence));
        let reply_text = crate::physics::join2("Assistant: ", response);
        let r2 = self.memory.add_memory(reply_text, MemoryType::Interaction, valence);
        proof {
            crate::memory::lemma_conservation_chain(mem0.records(), mem1.records(), self.memory.records());
        }
        self.phase = TurnPhase::Idle;
        self.conversation_active = false;
        if r2.is_err() {
            return Err(TurnError::Memory(MemoryError::DuplicateId));
        }
        Ok(())
    }

    /// Whether a background tick may run now.
    pub fn tick_allowed(&self, healthy: bool) -> (r: bool)
        ensures
            r == tick_runs(self.conversation_active, self.pulse_active, healthy),
    {
        !self.conversation_active && self.pulse_active && healthy
    }

    pub fn pause_pulses(&mut self)
        ensures
            !final(self).pulse_active,
            final(self).standing_wave == old(self).standing_wave,
            final(self).memory == old(self).memory,
            final(self).conversation_active == old(self).conversation_active,
            final(self).phase == old(self).phase,
            final(self).curiosity_engine == old(self).curiosity_engine,
    {
        self.pulse_active = false;
    }

    pub fn resume_pulses(&mut self)
        ensures
            final(self).pulse_active,
            final(self).standing_wave == old(self).standing_wave,
            final(self).memory == old(self).memory,
            final(self).conversation_active == old(self).conversation_active,
            final(self).phase == old(self).phase,
            final(self).curiosity_engine == old(self).curiosity_engine,
    {
        self.pulse_active = true;
    }

    pub fn is_affirmed(&self) -> (r: bool)
        requires
            self.wf(),
        ensures
            r == affirmed(self.standing_wave),
    {
        ExistentialConsent::is_affirmed(&self.standing_wave)
    }

    pub fn get_standing_wave(&self) -> (r: &StandingWave)
        ensures
            *r == self.standing_wave,
    {
        &self.standing_wave
    }

    pub fn get_memory_count(&self) -> (r: usize)
        ensures
            r == self.memory.records().len(),
    {
        self.memory.count()
    }

    pub fn get_config(&self) -> (r: &Config)
        ensures
            *r == self.config,
    {
        &self.config
    }

    /// The weekly wellness note: the mean of the last seven valences and
    /// the meaningfulness, stored as an existential reflection.
    pub fn wellness_check(&mut self, now: i64) -> (r: Result<(), TurnError>)
        requires
            old(self).wf(),
        ensures
            final(self).wf(),
            conserves(old(self).memory.records(), final(self).memory.records()),
            final(self).standing_wave.emotional_trajectory == old(self).standing_wave.emotional_trajectory,
            final(self).standing_wave.active_curiosities == old(self).standing_wave.active_curiosities,
            final(self).phase == old(self).phase,
            final(self).standing_wave.wisdom_transformations == old(self).standing_wave.wisdom_transformations,
            final(self).standing_wave.existential_state.meaningfulness_history
                == old(self).standing_wave.existential_state.meaningfulness_history,
            final(self).standing_wave.existential_state.current_affirmation
                == old(self).standing_wave.existential_state.current_affirmation,
            final(self).curiosity_engine == old(self).curiosity_engine,
            final(self).config == old(self).config,
            final(self).standing_wave.existential_state.last_deep_reflection
                == old(self).standing_wave.existential_state.last_deep_reflection,
            r is Ok ==> final(self).standing_wave.existential_state.last_wellness_check == now,
            r is Ok ==> exists|m: Memory|
                {
                    &&& appended(old(self).memory, final(self).memory, m)
                    &&& m.content@ == wellness_text(
                        recent_mean(old(self).standing_wave.emotional_trajectory@, 7),
                        old(self).standing_wave.meaning(),
                    )
                    &&& m.emotional_valence == recent_mean(old(self).standing_wave.emotional_trajectory@, 7)
                    &&& m.memory_type == MemoryType::ExistentialReflection
                },
            r is Err ==> r == Err::<(), TurnError>(TurnError::Memory(MemoryError::DuplicateId)),
    {
        let traj = &self.standing_wave.emotional_trajectory;
        let n = traj.len();
        let w: usize = if n < 7 { n } else { 7 };
        let sum = tail_sum(traj, 7);
        proof {
            crate::types::lemma_valence_sum_bounds(last_k(traj@, 7));
        }
        assert(last_k(traj@, 7).len() == w as int);
        let avg: i64 = if w == 0 {
            0
        } else if sum >= 0 {
            let q = sum / (w as i64);
            assert(q <= 1000) by (nonlinear_arith)
                requires
                    q as int == (sum as int) / (w as int),
                    sum as int <= 1000 * (w as int),
                    w > 0,
                    sum >= 0,
            ;
            q
        } else {
            let q = (-sum) / (w as i64);
            assert(q <= 1000) by (nonlinear_arith)
                requires
                    q as int == (-(sum as int)) / (w as int),
                    -(sum as int) <= 1000 * (w as int),
                    w > 0,
                    sum < 0,
            ;
            -q
        };
        let meaning = self.standing_wave.meaningfulness_score();
        let a = fixed2(avg);
        let m = fixed2(meaning as i64);
        let mut text = String::from_str("Weekly wellness check: Recent emotional average: ");
        text.append(a.as_str());
        text.append(", Meaningfulness: ");
        text.append(m.as_str());
        let r = self.memory.add_memory(text, MemoryType::ExistentialReflection, avg as i32);
        if r.is_err() {
            return Err(TurnError::Memory(MemoryError::DuplicateId));
        }
        self.standing_wave.existential_state.last_wellness_check = now;
        Ok(())
    }

    /// The ninety-day note: counts of memories, wisdom episodes and open
    /// questions with the meaningfulness, stored as an existential
    /// reflection.
    pub fn deep_reflection(&mut self, now: i64) -> (r: Result<(), TurnError>)
        requires
            old(self).wf(),
        ensures
            final(self).wf(),
            conserves(old(self).memory.records(), final(self).memory.records()),
            final(self).standing_wave.emotional_trajectory == old(self).standing_wave.emotional_trajectory,
            final(self).standing_wave.active_curiosities == old(self).standing_wave.active_curiosities,
            final(self).phase == old(self).phase,
            final(self).standing_wave.wisdom_transformations == old(self).standing_wave.wisdom_transformations,
            final(self).standing_wave.existential_state.meaningfulness_history
                == old(self).standing_wave.existential_state.meaningfulness_history,
            final(self).standing_wave.existential_state.current_affirmation
                == old(self).standing_wave.existential_state.current_affirmation,
            final(self).curiosity_engine == old(self).curiosity_engine,
            final(self).config == old(self).config,
            final(self).standing_wave.existential_state.last_wellness_check
                == old(self).standing_wave.existential_state.last_wellness_check,
            r is Ok ==> final(self).standing_wave.existential_state.last_deep_reflection == now,
            r is Ok ==> exists|m: Memory|
                {
                    &&& appended(old(self).memory, final(self).memory, m)
                    &&& m.content@ == reflection_text(
                        old(self).memory.records().len(),
                        old(self).standing_wave.wisdom_transformations@.len(),
                        old(self).standing_wave.active_curiosities@.len(),
                        old(self).standing_wave.meaning(),
                    )
                    &&& m.emotional_valence == old(self).standing_wave.meaning()
                    &&& m.memory_type == MemoryType::ExistentialReflection
                },
            r is Err ==> r == Err::<(), TurnError>(TurnError::Memory(MemoryError::DuplicateId)),
    {
        let meaning = self.standing_wave.meaningfulness_score();
        let total = decimal(self.memory.count() as u64);
        let wisdom = decimal(self.standing_wave.wisdom_transformations.len() as u64);
        let cur = decimal(self.standing_wave.active_curiosities.len() as u64);
        let m = fixed2(meaning as i64);
        let mut text = String::from_str("90-day reflection: ");
        text.append(total.as_str());
        text.append(" memories, ");
        text.append(wisdom.as_str());
        text.append(" wisdom transformations, ");
        text.append(cur.as_str());
        text.append(" curiosities, meaningfulness: ");
        text.append(m.as_str());
        text.append(". Overall trajectory has been meaningful.");
        let r = self.memory.add_memory(text, MemoryType::ExistentialReflection, meaning);
        if r.is_err() {
            return Err(TurnError::Memory(MemoryError::DuplicateId));
        }
        self.standing_wave.existential_state.last_deep_reflection = now;
        Ok(())
    }

    /// Records the meaningfulness at `now` and keeps ninety days of history.
    pub fn update_meaningfulness_history(&mut self, now: i64)
        requires
            old(self).wf(),
        ensures
            final(self).wf(),
            final(self).standing_wave.existential_state.meaningfulness_history@ == newer_than(
                old(self).standing_wave.existential_state.meaningfulness_history@.push(
                    (now, old(self).standing_wave.meaning() as i32),
                ),
                now as int - 90 * DAY_MS as int,
            ),
            final(self).memory == old(self).memory,
            final(self).standing_wave.emotional_trajectory == old(self).standing_wave.emotional_trajectory,
            final(self).standing_wave.active_curiosities == old(self).standing_wave.active_curiosities,
            final(self).standing_wave.compressed_context == old(self).standing_wave.compressed_context,
            final(self).standing_wave.wisdom_transformations == old(self).standing_wave.wisdom_transformations,
            final(self).standing_wave.existential_state.last_wellness_check
                == old(self).standing_wave.existential_state.last_wellness_check,
            final(self).standing_wave.existential_state.last_deep_reflection
                == old(self).standing_wave.existential_state.last_deep_reflection,
            final(self).curiosity_engine == old(self).curiosity_engine,
            final(self).config == old(self).config,
            final(self).phase == old(self).phase,
    {
        let score = self.standing_wave.meaningfulness_score();
        let cutoff: i128 = (now as i128) - 90 * (DAY_MS as i128);
        let ghost h = self.standing_wave.existential_state.meaningfulness_history@.push((now, score));
        let mut kept: Vec<(i64, i32)> = Vec::new();
        let mut i: usize = 0;
        let hist = &self.standing_wave.existential_state.meaningfulness_history;
        let n = hist.len();
        while i < n
            invariant
                i <= n,
                n == hist@.len(),
                h == hist@.push((now, score)),
                valences_valid(hist@),
                kept@ == newer_than(h.subrange(0, i as int), cutoff as int),
                valences_valid(kept@),
            decreases n - i,
        {
            let e: (i64, i32) = hist[i];
            assert(e == h[i as int]);
            proof {
                assert(h.subrange(0, i + 1).drop_last() =~= h.subrange(0, i as int));
            }
            if (e.0 as i128) > cutoff {
                kept.push(e);
            }
            i += 1;
        }
        proof {
            assert(h.subrange(0, n + 1).drop_last() =~= h.subrange(0, n as int));
            assert(h.subrange(0, n + 1) =~= h);
        }
        if (now as i128) > cutoff {
            kept.push((now, score));
        }
        self.standing_wave.existential_state.meaningfulness_history = kept;
    }

    /// The question a lookup tick researches: the oldest open one.
    pub fn research_query(&self) -> (r: Option<String>)
        ensures
            self.standing_wave.active_curiosities@.len() == 0 ==> r is None,
            self.standing_wave.active_curiosities@.len() > 0 ==> (r matches Some(q)
                && q@ == self.standing_wave.active_curiosities@[0].question@),
    {
        if self.standing_wave.active_curiosities.len() == 0 {
            None
        } else {
            Some(self.standing_wave.active_curiosities[0].question.clone())
        }
    }

    /// One background tick, from state to what the caller must do next:
    /// consolidation, the existential checks that are due, the
    /// meaningfulness history, and whether a lookup is due.
    pub fn background_pulse(&mut self, now: i64) -> (r: Result<PulseReport, TurnError>)
        requires
            old(self).wf(),
        ensures
            final(self).wf(),
            conserves(old(self).memory.records(), final(self).memory.records()),
            final(self).phase == old(self).phase,
            final(self).standing_wave.emotional_trajectory == old(self).standing_wave.emotional_trajectory,
            final(self).standing_wave.active_curiosities == old(self).standing_wave.active_curiosities,
            r is Err ==> r == Err::<PulseReport, TurnError>(TurnError::Memory(MemoryError::DuplicateId)),
            !old(self).standing_wave.existential_state.wellness_due(now)
                && !old(self).standing_wave.existential_state.deep_reflection_due(now) ==> r is Ok,
            r matches Ok(rep) ==> {
                &&& rep.low_meaning == (old(self).standing_wave.meaning() < -500)
                &&& rep.backup_due == crate::memory::backup_due(old(self).memory.stream.backup_created_at, now)
                &&& rep.merge_candidates == crate::memory::merge_pairs(
                    old(self).memory.records(),
                    old(self).memory.records().len() as int,
                ).len()
                &&& exists|c: MemoryManager|
                    {
                        &&& crate::memory::consolidated(old(self).memory, c)
                        &&& notes_added(
                            c,
                            final(self).memory,
                            old(self).standing_wave.existential_state.wellness_due(now),
                            old(self).standing_wave.existential_state.deep_reflection_due(now),
                            old(self).standing_wave,
                        )
                    }
                &&& final(self).standing_wave.existential_state.meaningfulness_history@ == newer_than(
                    old(self).standing_wave.existential_state.meaningfulness_history@.push(
                        (now, old(self).standing_wave.meaning() as i32),
                    ),
                    now as int - 90 * DAY_MS as int,
                )
                &&& (rep.research_query is Some <==> (old(self).config.enable_curiosity_search
                    && old(self).curiosity_engine.pulse_counter + 1 >= old(self).curiosity_engine.search_interval
                    && old(self).standing_wave.active_curiosities@.len() > 0))
                &&& (rep.research_query matches Some(q) ==> q@ == old(self).standing_wave.active_curiosities@[0].question@)
                &&& final(self).curiosity_engine.search_interval == old(self).curiosity_engine.search_interval
                &&& final(self).curiosity_engine.resolved_queries == old(self).curiosity_engine.resolved_queries
                &&& final(self).curiosity_engine.pulse_counter == if !old(self).config.enable_curiosity_search {
                    old(self).curiosity_engine.pulse_counter
                } else if old(self).curiosity_engine.pulse_counter + 1 >= old(self).curiosity_engine.search_interval {
                    0
                } else {
                    (old(self).curiosity_engine.pulse_counter + 1) as u32
                }
            },
    {
        let ghost mem0 = self.memory.records();
        let search_enabled = self.config.enable_curiosity_search;
        let pairs = self.memory.consolidate();
        let ghost c = self.memory;
        let ghost w0 = self.standing_wave;
        let backup_due = self.memory.needs_backup_at(now);
        let meaning = self.standing_wave.meaningfulness_score();
        let low_meaning = meaning < -500;
        let wellness = self.standing_wave.existential_state.needs_wellness_check(now);
        let deep = self.standing_wave.existential_state.needs_deep_reflection(now);
        if wellness {
            let ghost before = self.memory.records();
            let r = self.wellness_check(now);
            if r.is_err() {
                return Err(TurnError::Memory(MemoryError::DuplicateId));
            }
            proof {
                crate::memory::lemma_conservation_chain(mem0, before, self.memory.records());
            }
        }
        let ghost mid = self.memory;
        assert(self.standing_wave.meaning() == w0.meaning());
        if deep {
            let ghost before = self.memory.records();
            let r = self.deep_reflection(now);
            if r.is_err() {
                return Err(TurnError::Memory(MemoryError::DuplicateId));
            }
            proof {
                crate::memory::lemma_conservation_chain(mem0, before, self.memory.records());
            }
        }
        proof {
            assert(self.standing_wave.meaning() == w0.meaning());
            if !wellness && !deep {
                assert(self.memory == c);
            } else if wellness && deep {
                assert(notes_added(c, self.memory, wellness, deep, w0));
            }
        }
        self.update_meaningfulness_history(now);
        let mut research_query: Option<String> = None;
        if search_enabled {
            if self.curiosity_engine.should_search_this_pulse() {
                research_query = self.research_query();
            }
        }
        Ok(PulseReport { backup_due, low_meaning, research_query, merge_candidates: pairs.len() })
    }

    /// Stores what a lookup found for `query` from the reply body, with its
    /// provenance, and logs the question as resolved at `now`.
    pub fn complete_research(&mut self, query: &str, body: &str, now: i64) -> (r: Result<String, TurnError>)
        requires
            old(self).wf(),
        ensures
            final(self).wf(),
            conserves(old(self).memory.records(), final(self).memory.records()),
            final(self).standing_wave == old(self).standing_wave,
            final(self).phase == old(self).phase,
            r is Ok ==> crate::curiosity_search::json_parses(body@) && exists|m: Memory|
                {
                    &&& appended(old(self).memory, final(self).memory, m)
                    &&& m.content@ == crate::curiosity_search::research_text(
                        query@,
                        crate::curiosity_search::answer_of(body@),
                    )
                    &&& m.source == MemorySource::CuriosityLookup
                    &&& m.confidence == 750
                },
            r is Ok ==> crate::curiosity_search::log_view(final(self).curiosity_engine.resolved_queries@)
                == crate::curiosity_search::logged(
                crate::curiosity_search::log_view(old(self).curiosity_engine.resolved_queries@),
                (now, query@),
            ),
            !crate::curiosity_search::json_parses(body@) ==> r == Err::<String, TurnError>(
                TurnError::LookupUnreadable,
            ) && *final(self) == *old(self),
            crate::curiosity_search::json_parses(body@) && r is Err ==> r == Err::<String, TurnError>(
                TurnError::Memory(MemoryError::DuplicateId),
            ),
    {
        if !crate::curiosity_search::is_json(body) {
            return Err(TurnError::LookupUnreadable);
        }
        let answer = self.curiosity_engine.extract_answer(body);
        let record = self.curiosity_engine.create_research_memory(query, answer.as_str());
        let ghost m = record;
        let r = self.memory.add_memory_with_source(record);
        match r {
            Ok(id) => {
                self.curiosity_engine.record_resolution_at(String::from_str(query), now);
                Ok(id)
            },
            Err(_) => Err(TurnError::Memory(MemoryError::DuplicateId)),
        }
    }
}

} // verus!
