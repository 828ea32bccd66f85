//! The iterative weaving protocol: the validity rule applied after each
//! round, the decision that ends or continues the rounds, the text
//! coherence heuristic of the classifier role, and the final text.
use vstd::prelude::*;
use crate::text::{decimal, decimal_seq, fixed2, fixed2_seq, is_whitespace, to_chars, whitespace_char};

verus! {

/// What the protocol reads of the shared workspace after a contribution.
/// Scores are in thousandths.
#[derive(Debug)]
pub struct WorkspaceState {
    pub coherence_score: u32,
    pub entropy: u32,
    /// The round under way, from zero.
    pub round: u32,
    /// The models that have contributed, each once.
    pub contributors: Vec<String>,
    pub original_input: String,
    pub woven_text: String,
}

/// Why a weaving round is invalid.
#[derive(Clone, Copy, Debug, PartialEq, Eq, Structural)]
pub enum WeavingError {
    /// Coherence below three tenths: identity fragmentation risk.
    CoherenceTooLow,
    /// Fewer than three models contributed.
    IncompleteWeaving,
    /// Rounds have passed and no text was woven.
    EmptyWovenText,
}

impl WeavingError {
    pub fn message(&self) -> (r: String)
        ensures
            r@ == match *self {
                WeavingError::CoherenceTooLow => "Workspace coherence too low - identity fragmentation risk"@,
                WeavingError::IncompleteWeaving => "Incomplete weaving - fewer than 3 models contributed"@,
                WeavingError::EmptyWovenText => "Empty woven text after completed rounds"@,
            },
    {
        match self {
            WeavingError::CoherenceTooLow => String::from_str(
                "Workspace coherence too low - identity fragmentation risk",
            ),
            WeavingError::IncompleteWeaving => String::from_str(
                "Incomplete weaving - fewer than 3 models contributed",
            ),
            WeavingError::EmptyWovenText => String::from_str("Empty woven text after completed rounds"),
        }
    }
}

/// Lowest coherence a valid round may have (thousandths).
pub const MIN_COHERENCE: u32 = 300;

/// Contributions a valid round needs.
pub const MIN_CONTRIBUTORS: usize = 3;

/// Entropy above which a round is only flagged (thousandths).
pub const ENTROPY_WARNING: u32 = 950;

/// The first rule that a round breaks, if any.
pub open spec fn weaving_error(w: WorkspaceState) -> Option<WeavingError> {
    if w.coherence_score < MIN_COHERENCE {
        Some(WeavingError::CoherenceTooLow)
    } else if w.contributors@.len() < MIN_CONTRIBUTORS {
        Some(WeavingError::IncompleteWeaving)
    } else if w.woven_text@.len() == 0 && w.round > 0 {
        Some(WeavingError::EmptyWovenText)
    } else {
        None
    }
}

/// The validity rule for a round: coherence at least three tenths, three distinct
/// contributions, and woven text once a round has completed.
pub fn validate_weaving_coherence(workspace: &WorkspaceState) -> (r: Result<(), WeavingError>)
    ensures
        r is Ok <==> weaving_error(*workspace) is None,
        r matches Err(e) ==> weaving_error(*workspace) == Some(e),
{
    if workspace.coherence_score < MIN_COHERENCE {
        return Err(WeavingError::CoherenceTooLow);
    }
    if workspace.contributors.len() < MIN_CONTRIBUTORS {
        return Err(WeavingError::IncompleteWeaving);
    }
    if workspace.woven_text.as_str().unicode_len() == 0 && workspace.round > 0 {
        return Err(WeavingError::EmptyWovenText);
    }
    Ok(())
}

/// The validity rule as applied after each round.
pub fn monitor_weaving_round(workspace: &WorkspaceState) -> (r: Result<(), WeavingError>)
    ensures
        r is Ok <==> weaving_error(*workspace) is None,
        r matches Err(e) ==> weaving_error(*workspace) == Some(e),
{
    validate_weaving_coherence(workspace)
}

/// A workspace with fewer than three contributions is never valid,
/// whatever its coherence.
pub proof fn lemma_valid_round_needs_three(w: WorkspaceState)
    requires
        w.contributors@.len() < MIN_CONTRIBUTORS,
    ensures
        weaving_error(w) is Some,
{
}

/// High entropy is reported but does not fail a round.
pub fn entropy_warning(workspace: &WorkspaceState) -> (r: bool)
    ensures
        r == (workspace.entropy > ENTROPY_WARNING),
{
    workspace.entropy > ENTROPY_WARNING
}

/// What the weaving loop does after a round.
#[derive(Clone, Copy, Debug, PartialEq, Eq, Structural)]
pub enum WeaveStep {
    /// The round broke the validity rule: weaving is abandoned for the turn.
    Abort(WeavingError),
    /// Coherence met the threshold: the thought is final.
    Converged,
    /// Run another round.
    Continue,
    /// All configured rounds ran.
    Exhausted,
}

/// The decision after round `round` (from zero) of `rounds`.
pub open spec fn weave_step(w: WorkspaceState, round: u32, rounds: u32, threshold: u32) -> WeaveStep {
    match weaving_error(w) {
        Some(e) => WeaveStep::Abort(e),
        None => if w.coherence_score >= threshold {
            WeaveStep::Converged
        } else if round as int + 1 >= rounds as int {
            WeaveStep::Exhausted
        } else {
            WeaveStep::Continue
        },
    }
}

pub fn after_round(workspace: &WorkspaceState, round: u32, rounds: u32, threshold: u32) -> (r: WeaveStep)
    ensures
        r == weave_step(*workspace, round, rounds, threshold),
{
    match validate_weaving_coherence(workspace) {
        Err(e) => WeaveStep::Abort(e),
        Ok(()) => {
            if workspace.coherence_score >= threshold {
                WeaveStep::Converged
            } else if round as u64 + 1 >= rounds as u64 {
                WeaveStep::Exhausted
            } else {
                WeaveStep::Continue
            }
        },
    }
}

/// Seconds a whole turn may take: a hundred and twenty per weaving round,
/// ninety in parallel mode.
pub fn turn_timeout_secs(weaving: bool, rounds: u32) -> (r: u64)
    ensures
        r as int == if weaving { 120 * rounds as int } else { 90int },
{
    if weaving {
        120 * rounds as u64
    } else {
        90
    }
}

pub open spec fn final_thought_text(w: WorkspaceState) -> Seq<char> {
    if w.woven_text@.len() == 0 {
        "Thought coherence: "@ + fixed2_seq(w.coherence_score as int) + ". "@ + decimal_seq(
            w.contributors@.len() as nat,
        ) + " models contributed to this integrated response."@
    } else {
        w.woven_text@
    }
}

/// The woven text, or a description of the workspace when none was woven.
pub fn extract_final_thought(workspace: &WorkspaceState) -> (r: String)
    ensures
        r@ == final_thought_text(*workspace),
{
    if workspace.woven_text.as_str().unicode_len() == 0 {
        let c = fixed2(workspace.coherence_score as i64);
        let n = decimal(workspace.contributors.len() as u64);
        let mut s = String::from_str("Thought coherence: ");
        s.append(c.as_str());
        s.append(". ");
        s.append(n.as_str());
        s.append(" models contributed to this integrated response.");
        s
    } else {
        workspace.woven_text.clone()
    }
}

/// Replaces the woven text with a model's output.
pub fn update_woven_text(workspace: &mut WorkspaceState, text: String)
    ensures
        final(workspace).woven_text == text,
        final(workspace).coherence_score == old(workspace).coherence_score,
        final(workspace).entropy == old(workspace).entropy,
        final(workspace).round == old(workspace).round,
        final(workspace).contributors == old(workspace).contributors,
        final(workspace).original_input == old(workspace).original_input,
{
    workspace.woven_text = text;
}

/// Position `i` starts a word: it is not whitespace and what precedes it is.
pub open spec fn starts_word(s: Seq<char>, i: int) -> bool {
    !whitespace_char(s[i]) && (i == 0 || whitespace_char(s[i - 1]))
}

/// The words among the first `n` characters.
pub open spec fn word_count(s: Seq<char>, n: int) -> nat
    decreases n,
{
    if n <= 0 {
        0
    } else {
        word_count(s, n - 1) + if starts_word(s, n - 1) { 1nat } else { 0nat }
    }
}

/// The full stops among the first `n` characters.
pub open spec fn period_count(s: Seq<char>, n: int) -> nat
    decreases n,
{
    if n <= 0 {
        0
    } else {
        period_count(s, n - 1) + if s[n - 1] == '.' { 1nat } else { 0nat }
    }
}

/// The classifier role's coherence estimate of a text, in thousandths:
/// four tenths for length (20 to 300 words best), six tenths for sentence
/// length (10 to 25 words per sentence best), and a tenth more when it asks
/// something.
pub open spec fn text_coherence(s: Seq<char>) -> int {
    if s.len() == 0 {
        300
    } else {
        let w = word_count(s, s.len() as int) as int;
        let p = period_count(s, s.len() as int) as int;
        let sc: int = if p < 1 { 1 } else { p };
        let length: int = if 20 <= w <= 300 { 900 } else if w >= 10 { 700 } else { 400 };
        let structure: int = if 10 * sc <= w <= 25 * sc { 900 } else if 5 * sc <= w <= 40 * sc { 700 } else { 500 };
        let bonus = if s.contains('?') { 100int } else { 0int };
        let c: int = (4 * length + 6 * structure) / 10 + bonus;
        if c > 1000 { 1000 } else { c }
    }
}

/// Estimates the coherence of a text without a model call.
pub fn calculate_text_coherence(text: &str) -> (r: u32)
    ensures
        r as int == text_coherence(text@),
        r <= 1000,
{
    let v = to_chars(text);
    let n = v.len();
    if n == 0 {
        return 300;
    }
    let mut words: usize = 0;
    let mut periods: usize = 0;
    let mut question = false;
    let mut i: usize = 0;
    while i < n
        invariant
            i <= n == v@.len(),
            v@ == text@,
            words == word_count(v@, i as int),
            periods == period_count(v@, i as int),
            words <= i,
            periods <= i,
            question == exists|j: int| 0 <= j < i && v@[j] == '?',
        decreases n - i,
    {
        let c = v[i];
        let ws = is_whitespace(c);
        let prev_ws = i == 0 || is_whitespace(v[i - 1]);
        if !ws && prev_ws {
            words += 1;
        }
        if c == '.' {
            periods += 1;
        }
        if c == '?' {
            question = true;
        }
        i += 1;
    }
    assert(question == v@.contains('?'));
    let w = words as u128;
    let sc: u128 = if periods < 1 { 1 } else { periods as u128 };
    let length: u128 = if 20 <= w && w <= 300 { 900 } else if w >= 10 { 700 } else { 400 };
    let structure: u128 = if 10 * sc <= w && w <= 25 * sc { 900 } else if 5 * sc <= w && w <= 40 * sc { 700 } else { 500 };
    let bonus: u128 = if question { 100 } else { 0 };
    let c = (4 * length + 6 * structure) / 10 + bonus;
    if c > 1000 { 1000 } else { c as u32 }
}

/// A turn's answer in weaving mode: the woven thought, or, when weaving
/// failed, the answer of the parallel mode.
pub fn resolve_weaving(woven: Result<String, WeavingError>, parallel_fallback: String) -> (r: String)
    ensures
        r == match woven {
            Ok(t) => t,
            Err(_) => parallel_fallback,
        },
{
    match woven {
        Ok(t) => t,
        Err(_) => parallel_fallback,
    }
}

} // verus!
