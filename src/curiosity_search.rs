//! Self-directed lookup of open questions: when to look, what to ask the
//! lookup backend, how to read its answer, and how the result is kept.
use vstd::prelude::*;
use crate::types::{now_millis, Memory, MemorySource, MemoryType};

verus! {

/// What urlencoding's `encode` makes of a text.
pub uninterp spec fn url_encoded(s: Seq<char>) -> Seq<char>;

/// The text held by the string field `key` of the JSON object `body`, or
/// nothing when `body` is no JSON, the field is missing, or it is no string.
pub uninterp spec fn json_field(body: Seq<char>, key: Seq<char>) -> Option<Seq<char>>;

/// Whether a text is a JSON document.
pub uninterp spec fn json_parses(body: Seq<char>) -> bool;

/// Relies on serde_json's `from_str` into a `Value`: whether it succeeds.
#[verifier::external_body]
pub(crate) fn is_json(body: &str) -> (r: bool)
    ensures
        r == json_parses(body@),
{
    serde_json::from_str::<serde_json::Value>(body).is_ok()
}

/// Relies on urlencoding's `encode`: the percent-encoded form of a text.
#[verifier::external_body]
fn url_encode(s: &str) -> (r: String)
    ensures
        r@ == url_encoded(s@),
{
    urlencoding::encode(s).into_owned()
}

/// Relies on serde_json's `from_str` into a `Value`, indexing by key and
/// `Value::as_str`.
#[verifier::external_body]
fn string_field(body: &str, key: &str) -> (r: Option<String>)
    ensures
        r is None <==> json_field(body@, key@) is None,
        r matches Some(s) ==> json_field(body@, key@) == Some(s@),
{
    match serde_json::from_str::<serde_json::Value>(body) {
        Ok(v) => v[key].as_str().map(|s| s.to_string()),
        Err(_) => None,
    }
}

/// The reply when no candidate field holds an answer.
pub open spec fn no_answer() -> Seq<char> {
    "No clear answer found via search."@
}

pub open spec fn usable(c: Option<Seq<char>>) -> bool {
    c matches Some(s) && s.len() > 0
}

/// The first candidate that holds a non-empty text, else the no-answer
/// reply.
pub open spec fn first_answer(a: Option<Seq<char>>, b: Option<Seq<char>>, c: Option<Seq<char>>, d: Option<Seq<char>>) -> Seq<char> {
    if usable(a) {
        a->Some_0
    } else if usable(b) {
        b->Some_0
    } else if usable(c) {
        c->Some_0
    } else if usable(d) {
        d->Some_0
    } else {
        no_answer()
    }
}

pub open spec fn opt_view(o: Option<String>) -> Option<Seq<char>> {
    match o {
        Some(s) => Some(s@),
        None => None,
    }
}

fn is_usable(o: &Option<String>) -> (r: bool)
    ensures
        r == usable(opt_view(*o)),
{
    match o {
        Some(s) => s.as_str().unicode_len() > 0,
        None => false,
    }
}

/// Picks the answer among the candidate fields, in order of preference.
pub fn pick_answer(a: Option<String>, b: Option<String>, c: Option<String>, d: Option<String>) -> (r: String)
    ensures
        r@ == first_answer(opt_view(a), opt_view(b), opt_view(c), opt_view(d)),
{
    if is_usable(&a) {
        a.unwrap()
    } else if is_usable(&b) {
        b.unwrap()
    } else if is_usable(&c) {
        c.unwrap()
    } else if is_usable(&d) {
        d.unwrap()
    } else {
        String::from_str("No clear answer found via search.")
    }
}

/// The answer that a lookup reply body carries.
pub open spec fn answer_of(body: Seq<char>) -> Seq<char> {
    first_answer(
        json_field(body, "AbstractText"@),
        json_field(body, "Abstract"@),
        json_field(body, "Answer"@),
        json_field(body, "Definition"@),
    )
}

pub open spec fn search_url_of(query: Seq<char>) -> Seq<char> {
    "https://api.duckduckgo.com/?q="@ + url_encoded(query) + "&format=json&no_html=1&skip_disambig=1"@
}

pub open spec fn research_text(query: Seq<char>, answer: Seq<char>) -> Seq<char> {
    "Autonomous Research:\nQuery: "@ + query + "\nAnswer: "@ + answer
        + "\n\n[Source: External lookup via curiosity engine]"@
}

/// Most resolved questions remembered.
pub const RESOLUTION_LIMIT: usize = 100;

/// How many of the oldest resolutions leave when the limit is passed.
pub const RESOLUTION_TRIM: usize = 10;

/// The resolution log after one more entry: past a hundred, the ten oldest
/// leave.
pub open spec fn logged(q: Seq<(i64, Seq<char>)>, e: (i64, Seq<char>)) -> Seq<(i64, Seq<char>)> {
    let p = q.push(e);
    if p.len() > RESOLUTION_LIMIT {
        p.subrange(RESOLUTION_TRIM as int, p.len() as int)
    } else {
        p
    }
}

pub open spec fn log_view(q: Seq<(i64, String)>) -> Seq<(i64, Seq<char>)> {
    q.map_values(|e: (i64, String)| (e.0, e.1@))
}

/// Schedules lookups and keeps the log of resolved questions.
#[derive(Debug)]
pub struct CuriositySearchEngine {
    /// (time in milliseconds, question), oldest first.
    pub resolved_queries: Vec<(i64, String)>,
    pub pulse_counter: u32,
    /// A lookup every this many background ticks.
    pub search_interval: u32,
}

impl CuriositySearchEngine {
    pub open spec fn wf(&self) -> bool {
        &&& self.pulse_counter == 0 || self.pulse_counter < self.search_interval
        &&& self.resolved_queries@.len() <= RESOLUTION_LIMIT
    }

    pub fn new(search_interval: u32) -> (r: CuriositySearchEngine)
        ensures
            r.wf(),
            r.resolved_queries@.len() == 0,
            r.pulse_counter == 0,
            r.search_interval == search_interval,
    {
        CuriositySearchEngine { resolved_queries: Vec::new(), pulse_counter: 0, search_interval }
    }

    /// Counts a tick; every `search_interval`-th tick is a lookup tick, and
    /// the count starts over after it.
    pub fn should_search_this_pulse(&mut self) -> (r: bool)
        requires
            old(self).wf(),
        ensures
            final(self).wf(),
            r == (old(self).pulse_counter + 1 >= old(self).search_interval),
            r ==> final(self).pulse_counter == 0,
            !r ==> final(self).pulse_counter == old(self).pulse_counter + 1,
            final(self).search_interval == old(self).search_interval,
            final(self).resolved_queries == old(self).resolved_queries,
    {
        self.pulse_counter = self.pulse_counter + 1;
        if self.pulse_counter >= self.search_interval {
            self.pulse_counter = 0;
            true
        } else {
            false
        }
    }

    /// The lookup request for a question.
    pub fn search_url(&self, query: &str) -> (r: String)
        ensures
            r@ == search_url_of(query@),
    {
        let enc = url_encode(query);
        let mut s = String::from_str("https://api.duckduckgo.com/?q=");
        s.append(enc.as_str());
        s.append("&format=json&no_html=1&skip_disambig=1");
        s
    }

    /// The answer in a lookup reply: the first non-empty of the fields
    /// `AbstractText`, `Abstract`, `Answer` and `Definition`.
    pub fn extract_answer(&self, body: &str) -> (r: String)
        ensures
            r@ == answer_of(body@),
    {
        let a = string_field(body, "AbstractText");
        let b = string_field(body, "Abstract");
        let c = string_field(body, "Answer");
        let d = string_field(body, "Definition");
        pick_answer(a, b, c, d)
    }

    /// A memory of a lookup, marked as coming from outside with confidence
    /// 0.75 and neutral valence.
    pub fn create_research_memory(&self, query: &str, answer: &str) -> (r: Memory)
        ensures
            r.wf(),
            r.content@ == research_text(query@, answer@),
            r.entities@.len() == 0,
            r.memory_type == MemoryType::Curiosity,
            r.emotional_valence == 0,
            r.source == MemorySource::CuriosityLookup,
            r.confidence == 750,
            r.connections@.len() == 0,
    {
        let mut s = String::from_str("Autonomous Research:\nQuery: ");
        s.append(query);
        s.append("\nAnswer: ");
        s.append(answer);
        s.append("\n\n[Source: External lookup via curiosity engine]");
        Memory::with_source(s, MemoryType::Curiosity, 0, MemorySource::CuriosityLookup, 750)
    }

    /// Logs a resolved question at time `now`.
    pub fn record_resolution_at(&mut self, query: String, now: i64)
        requires
            old(self).wf(),
        ensures
            final(self).wf(),
            log_view(final(self).resolved_queries@) == logged(log_view(old(self).resolved_queries@), (now, query@)),
            final(self).pulse_counter == old(self).pulse_counter,
            final(self).search_interval == old(self).search_interval,
    {
        let ghost q0 = log_view(self.resolved_queries@);
        let ghost e = (now, query@);
        self.resolved_queries.push((now, query));
        assert(log_view(self.resolved_queries@) =~= q0.push(e));
        if self.resolved_queries.len() > RESOLUTION_LIMIT {
            let ghost p = q0.push(e);
            let mut k: usize = 0;
            while k < RESOLUTION_TRIM
                invariant
                    k <= RESOLUTION_TRIM,
                    p.len() == RESOLUTION_LIMIT + 1,
                    self.resolved_queries@.len() == RESOLUTION_LIMIT + 1 - k,
                    log_view(self.resolved_queries@) == p.subrange(k as int, p.len() as int),
                    self.pulse_counter == old(self).pulse_counter,
                    self.search_interval == old(self).search_interval,
                decreases RESOLUTION_TRIM - k,
            {
                let ghost b = log_view(self.resolved_queries@);
                self.resolved_queries.remove(0);
                assert(log_view(self.resolved_queries@) =~= b.subrange(1, b.len() as int));
                k += 1;
                assert(log_view(self.resolved_queries@) =~= p.subrange(k as int, p.len() as int));
            }
        }
    }

    /// Logs a resolved question now.
    pub fn record_resolution(&mut self, query: String)
        requires
            old(self).wf(),
        ensures
            final(self).wf(),
            exists|t: i64| log_view(final(self).resolved_queries@) == logged(log_view(old(self).resolved_queries@), (t, query@)),
            final(self).pulse_counter == old(self).pulse_counter,
            final(self).search_interval == old(self).search_interval,
    {
        let now = now_millis();
        self.record_resolution_at(query, now);
    }
}

} // verus!
