//! What the library decides around the model calls: validating and
//! cleaning the generated text, reading proposed questions, the retry
//! policy of a call, and the fallback answers.
use vstd::prelude::*;
use crate::config::Config;
use crate::types::ModelOutputs;
use crate::text::{
    alphabetic_char, contains_chars, contains_seq, from_chars, is_alphabetic, is_uppercase, lower_of,
    lowercase, matches_at, occurs_at, to_chars, trim_seq, trim_vec, uppercase_char,
};

verus! {

/// The segments of `s` between line feeds (one more than there are line
/// feeds).
pub open spec fn split_nl(s: Seq<char>) -> Seq<Seq<char>>
    decreases s.len(),
{
    if s.len() == 0 {
        seq![Seq::<char>::empty()]
    } else {
        let r = split_nl(s.drop_last());
        if s.last() == '\n' {
            r.push(Seq::empty())
        } else {
            r.update(r.len() - 1, r.last().push(s.last()))
        }
    }
}

/// Splitting at line feeds always yields at least one segment.
pub proof fn lemma_split_nl_nonempty(s: Seq<char>)
    ensures
        split_nl(s).len() >= 1,
    decreases s.len(),
{
    if s.len() > 0 {
        lemma_split_nl_nonempty(s.drop_last());
    }
}

/// A line without the carriage return that may end it.
pub open spec fn strip_cr(l: Seq<char>) -> Seq<char> {
    if l.len() > 0 && l.last() == '\r' {
        l.drop_last()
    } else {
        l
    }
}

/// The lines of a text: split at line feeds, a final empty segment dropped,
/// each without a trailing carriage return.
pub open spec fn lines_of(s: Seq<char>) -> Seq<Seq<char>> {
    let parts = split_nl(s);
    let kept = if parts.last().len() == 0 { parts.drop_last() } else { parts };
    kept.map_values(|l: Seq<char>| strip_cr(l))
}

/// The lines joined with line feeds.
pub open spec fn join_lines(ls: Seq<Seq<char>>) -> Seq<char>
    decreases ls.len(),
{
    if ls.len() == 0 {
        Seq::empty()
    } else if ls.len() == 1 {
        ls[0]
    } else {
        join_lines(ls.drop_last()) + seq!['\n'] + ls.last()
    }
}

/// Markers of reasoning that was meant to stay inside.
pub open spec fn internal_markers() -> Seq<Seq<char>> {
    seq![
        "*why this response works*"@,
        "*thinking*"@,
        "*analyzing*"@,
        "*processing*"@,
        "*internal note*"@,
        "*to self*"@,
        "(internal:"@,
        "(thinking:"@,
        "[internal"@,
        "[thinking"@,
    ]
}

pub open spec fn has_marker(l: Seq<char>) -> bool {
    exists|k: int| 0 <= k < internal_markers().len() && contains_seq(l, #[trigger] internal_markers()[k])
}

/// The lines whose lowercase form holds no marker.
pub open spec fn kept_lines(ls: Seq<Seq<char>>) -> Seq<Seq<char>>
    decreases ls.len(),
{
    if ls.len() == 0 {
        ls
    } else {
        let r = kept_lines(ls.drop_last());
        if has_marker(lower_of(ls.last())) {
            r
        } else {
            r.push(ls.last())
        }
    }
}

/// `s` with every occurrence of `p` removed, scanning left to right.
pub open spec fn remove_all(s: Seq<char>, p: Seq<char>) -> Seq<char>
    decreases s.len(),
{
    if s.len() == 0 || p.len() == 0 {
        s
    } else if occurs_at(s, p, 0) {
        remove_all(s.subrange(p.len() as int, s.len() as int), p)
    } else {
        seq![s[0]] + remove_all(s.subrange(1, s.len() as int), p)
    }
}

/// `s` with every run of three or more line feeds cut to two.
pub open spec fn cap_newlines(s: Seq<char>) -> Seq<char>
    decreases s.len(),
{
    if s.len() == 0 {
        s
    } else {
        let r = cap_newlines(s.drop_last());
        if s.last() == '\n' && r.len() >= 2 && r[r.len() - 1] == '\n' && r[r.len() - 2] == '\n' {
            r
        } else {
            r.push(s.last())
        }
    }
}

/// A response with its leaked inner reasoning taken out.
pub open spec fn filtered_text(s: Seq<char>) -> Seq<char> {
    let joined = join_lines(kept_lines(lines_of(s)));
    let a = remove_all(joined, "*why this response works*"@);
    let b = remove_all(a, "*thinking*"@);
    let c = remove_all(b, "*processing*"@);
    trim_seq(cap_newlines(c))
}

/// The lines of `v`, as `lines_of` gives them.
fn split_lines(v: &Vec<char>) -> (r: Vec<Vec<char>>)
    ensures
        r@.len() == lines_of(v@).len(),
        forall|i: int| 0 <= i < r@.len() ==> (#[trigger] r@[i])@ == lines_of(v@)[i],
{
    let mut parts: Vec<Vec<char>> = Vec::new();
    let mut cur: Vec<char> = Vec::new();
    let mut i: usize = 0;
    while i < v.len()
        invariant
            i <= v@.len(),
            parts@.len() + 1 == split_nl(v@.subrange(0, i as int)).len(),
            forall|k: int| 0 <= k < parts@.len() ==> (#[trigger] parts@[k])@ == split_nl(v@.subrange(0, i as int))[k],
            cur@ == split_nl(v@.subrange(0, i as int)).last(),
        decreases v@.len() - i,
    {
        let ghost pre = v@.subrange(0, i as int);
        let ghost sp = split_nl(pre);
        proof {
            lemma_split_nl_nonempty(pre);
            assert(v@.subrange(0, i + 1).drop_last() =~= pre);
        }
        if v[i] == '\n' {
            parts.push(cur);
            cur = Vec::new();
            proof {
                let sp2 = split_nl(v@.subrange(0, i + 1));
                assert(sp2 == sp.push(Seq::<char>::empty()));
                assert forall|k: int| 0 <= k < parts@.len() implies (#[trigger] parts@[k])@ == sp2[k] by {}
            }
        } else {
            cur.push(v[i]);
            proof {
                let sp2 = split_nl(v@.subrange(0, i + 1));
                assert(sp2 == sp.update(sp.len() - 1, sp.last().push(v@[i as int])));
                assert forall|k: int| 0 <= k < parts@.len() implies (#[trigger] parts@[k])@ == sp2[k] by {}
            }
        }
        i += 1;
    }
    assert(v@.subrange(0, v@.len() as int) =~= v@);
    if cur.len() > 0 {
        parts.push(cur);
    }
    let ghost sp = split_nl(v@);
    let ghost kept = if sp.last().len() == 0 { sp.drop_last() } else { sp };
    assert(parts@.len() == kept.len());
    let mut r: Vec<Vec<char>> = Vec::new();
    let mut k: usize = 0;
    while k < parts.len()
        invariant
            k <= parts@.len() == kept.len(),
            forall|j: int| 0 <= j < parts@.len() ==> (#[trigger] parts@[j])@ == kept[j],
            kept == (if sp.last().len() == 0 { sp.drop_last() } else { sp }),
            sp == split_nl(v@),
            r@.len() == k,
            forall|j: int| 0 <= j < k ==> (#[trigger] r@[j])@ == strip_cr(kept[j]),
        decreases parts@.len() - k,
    {
        let mut l: Vec<char> = Vec::new();
        let src = &parts[k];
        let n = src.len();
        let m: usize = if n > 0 && src[n - 1] == '\r' { n - 1 } else { n };
        let mut t: usize = 0;
        while t < m
            invariant
                t <= m <= n == src@.len(),
                l@ == src@.subrange(0, t as int),
            decreases m - t,
        {
            l.push(src[t]);
            t += 1;
        }
        assert(l@ =~= strip_cr(src@));
        r.push(l);
        k += 1;
    }
    r
}

/// Whether the lowercase form of a line holds a marker.
fn line_has_marker(line: &Vec<char>) -> (r: bool)
    ensures
        r == has_marker(lower_of(line@)),
{
    let text = from_chars(line);
    let low = to_chars(lowercase(text.as_str()).as_str());
    let markers: Vec<&str> = vec![
        "*why this response works*",
        "*thinking*",
        "*analyzing*",
        "*processing*",
        "*internal note*",
        "*to self*",
        "(internal:",
        "(thinking:",
        "[internal",
        "[thinking",
    ];
    assert(markers@.len() == 10);
    let mut k: usize = 0;
    while k < markers.len()
        invariant
            k <= markers@.len() == 10,
            low@ == lower_of(line@),
            forall|j: int| 0 <= j < 10 ==> (#[trigger] markers@[j])@ == internal_markers()[j],
            forall|j: int| 0 <= j < k ==> !contains_seq(low@, #[trigger] internal_markers()[j]),
        decreases markers@.len() - k,
    {
        let p = to_chars(markers[k]);
        if contains_chars(&low, &p) {
            return true;
        }
        k += 1;
    }
    false
}

fn join_vec(ls: &Vec<Vec<char>>) -> (r: Vec<char>)
    ensures
        r@ == join_lines(ls@.map_values(|l: Vec<char>| l@)),
{
    let ghost lv = ls@.map_values(|l: Vec<char>| l@);
    let mut r: Vec<char> = Vec::new();
    let mut i: usize = 0;
    while i < ls.len()
        invariant
            i <= ls@.len(),
            lv == ls@.map_values(|l: Vec<char>| l@),
            r@ == join_lines(lv.subrange(0, i as int)),
        decreases ls@.len() - i,
    {
        let ghost r0 = r@;
        if i > 0 {
            r.push('\n');
        }
        let l = &ls[i];
        let mut t: usize = 0;
        let ghost base = r@;
        while t < l.len()
            invariant
                t <= l@.len(),
                r@ == base + l@.subrange(0, t as int),
            decreases l@.len() - t,
        {
            r.push(l[t]);
            t += 1;
        }
        proof {
            assert(l@.subrange(0, l@.len() as int) =~= l@);
            let sub = lv.subrange(0, i + 1);
            assert(sub.drop_last() =~= lv.subrange(0, i as int));
            assert(sub.last() == l@);
            if i == 0 {
                assert(r@ =~= l@);
            } else {
                assert(r@ =~= r0 + seq!['\n'] + l@);
            }
        }
        i += 1;
    }
    assert(lv.subrange(0, ls@.len() as int) =~= lv);
    r
}

/// `s` with every occurrence of `p` removed, left to right.
pub fn remove_all_chars(s: &Vec<char>, p: &Vec<char>) -> (r: Vec<char>)
    ensures
        r@ == remove_all(s@, p@),
{
    if p.len() == 0 {
        let mut r: Vec<char> = Vec::new();
        let mut i: usize = 0;
        while i < s.len()
            invariant
                i <= s@.len(),
                r@ == s@.subrange(0, i as int),
            decreases s@.len() - i,
        {
            r.push(s[i]);
            i += 1;
        }
        assert(r@ =~= s@);
        return r;
    }
    let mut r: Vec<char> = Vec::new();
    let mut i: usize = 0;
    assert(s@.subrange(0, s@.len() as int) =~= s@);
    assert(r@ + s@ =~= s@);
    while i < s.len()
        invariant
            i <= s@.len(),
            p@.len() > 0,
            r@ + remove_all(s@.subrange(i as int, s@.len() as int), p@) == remove_all(s@, p@),
        decreases s@.len() - i,
    {
        let ghost rest = s@.subrange(i as int, s@.len() as int);
        if p.len() <= s.len() - i && matches_at(s, p, i) {
            proof {
                assert(rest.subrange(0, p@.len() as int) =~= s@.subrange(i as int, i + p@.len()));
                assert(occurs_at(rest, p@, 0));
                assert(rest.subrange(p@.len() as int, rest.len() as int) =~= s@.subrange(i + p@.len(), s@.len() as int));
            }
            i += p.len();
        } else {
            proof {
                if occurs_at(rest, p@, 0) {
                    assert(rest.subrange(0, p@.len() as int) =~= s@.subrange(i as int, i + p@.len()));
                }
                assert(!occurs_at(rest, p@, 0));
                assert(rest.subrange(1, rest.len() as int) =~= s@.subrange(i + 1, s@.len() as int));
            }
            let ghost r0 = r@;
            r.push(s[i]);
            assert(r@ =~= r0 + seq![rest[0]]);
            i += 1;
        }
    }
    assert(s@.subrange(s@.len() as int, s@.len() as int) =~= Seq::<char>::empty());
    assert(r@ + Seq::<char>::empty() =~= r@);
    r
}

/// `s` with runs of line feeds cut to two.
fn cap_newlines_vec(s: &Vec<char>) -> (r: Vec<char>)
    ensures
        r@ == cap_newlines(s@),
{
    let mut r: Vec<char> = Vec::new();
    let mut i: usize = 0;
    while i < s.len()
        invariant
            i <= s@.len(),
            r@ == cap_newlines(s@.subrange(0, i as int)),
        decreases s@.len() - i,
    {
        let n = r.len();
        proof {
            assert(s@.subrange(0, i + 1).drop_last() =~= s@.subrange(0, i as int));
        }
        if s[i] == '\n' && n >= 2 && r[n - 1] == '\n' && r[n - 2] == '\n' {
        } else {
            r.push(s[i]);
        }
        i += 1;
    }
    assert(s@.subrange(0, s@.len() as int) =~= s@);
    r
}

/// What came of one attempt at a model call.
#[derive(Debug)]
pub enum AttemptOutcome {
    /// The backend answered with this generated text.
    Response(String),
    /// The backend answered with a status outside 2xx.
    BadStatus(u16),
    /// The answer could not be read.
    Unreadable,
    /// No connection could be made.
    ConnectionFailed,
    /// The attempt ran past its timeout.
    TimedOut,
}

/// Why a model call failed for good.
#[derive(Clone, Copy, Debug, PartialEq, Eq, Structural)]
pub enum CallError {
    Status(u16),
    Unreadable,
    EmptyResponse,
    ConnectionFailed,
    TimedOut,
}

/// What to do after an attempt.
#[derive(Debug)]
pub enum CallStep {
    Done(String),
    Fail(CallError),
    /// Try again after this many milliseconds.
    RetryAfter(u64),
}

/// Attempts a call gets before it fails.
pub const MAX_ATTEMPTS: u32 = 3;

/// Milliseconds of backoff per attempt already made.
pub const BACKOFF_MS: u64 = 500;

/// The retry policy: a text that is not empty ends the call; an empty one,
/// a bad status or an unreadable answer fails it at once; a connection
/// failure or a timeout is tried again after 500 ms times the attempt
/// number, until the third attempt.
pub fn next_call_step(attempt: u32, outcome: AttemptOutcome) -> (r: CallStep)
    requires
        1 <= attempt <= MAX_ATTEMPTS,
    ensures
        match outcome {
            AttemptOutcome::Response(s) => if s@.len() == 0 {
                r == CallStep::Fail(CallError::EmptyResponse)
            } else {
                r == CallStep::Done(s)
            },
            AttemptOutcome::BadStatus(c) => r == CallStep::Fail(CallError::Status(c)),
            AttemptOutcome::Unreadable => r == CallStep::Fail(CallError::Unreadable),
            AttemptOutcome::ConnectionFailed => if attempt >= MAX_ATTEMPTS {
                r == CallStep::Fail(CallError::ConnectionFailed)
            } else {
                r == CallStep::RetryAfter((BACKOFF_MS * attempt as u64) as u64)
            },
            AttemptOutcome::TimedOut => if attempt >= MAX_ATTEMPTS {
                r == CallStep::Fail(CallError::TimedOut)
            } else {
                r == CallStep::RetryAfter((BACKOFF_MS * attempt as u64) as u64)
            },
        },
{
    match outcome {
        AttemptOutcome::Response(s) => {
            if s.as_str().unicode_len() == 0 {
                CallStep::Fail(CallError::EmptyResponse)
            } else {
                CallStep::Done(s)
            }
        },
        AttemptOutcome::BadStatus(c) => CallStep::Fail(CallError::Status(c)),
        AttemptOutcome::Unreadable => CallStep::Fail(CallError::Unreadable),
        AttemptOutcome::ConnectionFailed => {
            if attempt >= MAX_ATTEMPTS {
                CallStep::Fail(CallError::ConnectionFailed)
            } else {
                CallStep::RetryAfter(BACKOFF_MS * attempt as u64)
            }
        },
        AttemptOutcome::TimedOut => {
            if attempt >= MAX_ATTEMPTS {
                CallStep::Fail(CallError::TimedOut)
            } else {
                CallStep::RetryAfter(BACKOFF_MS * attempt as u64)
            }
        },
    }
}

/// Every letter of the text is uppercase, and there is at least one.
pub open spec fn all_caps(s: Seq<char>) -> bool {
    (exists|i: int| 0 <= i < s.len() && alphabetic_char(#[trigger] s[i])) && forall|i: int|
        0 <= i < s.len() && alphabetic_char(#[trigger] s[i]) ==> uppercase_char(s[i])
}

/// A usable response: three characters or more, no replacement or NUL
/// character, and not shouted in capitals.
pub open spec fn valid_response(s: Seq<char>) -> bool {
    s.len() >= 3 && !s.contains('\u{FFFD}') && !s.contains('\0') && !all_caps(s)
}

/// The first two trimmed lines that ask something.
pub open spec fn questions_in(ls: Seq<Seq<char>>) -> Seq<Seq<char>>
    decreases ls.len(),
{
    if ls.len() == 0 {
        ls
    } else {
        let r = questions_in(ls.drop_last());
        if r.len() < 2 && ls.last().contains('?') {
            r.push(trim_seq(ls.last()))
        } else {
            r
        }
    }
}

/// The fixed reply chosen from the lowercase form of the input.
pub open spec fn minimal_from_lower(low: Seq<char>) -> Seq<char> {
    if contains_seq(low, "how are you"@) {
        "I'm experiencing some technical difficulties but maintaining continuity."@
    } else if contains_seq(low, "hello"@) {
        "Hello. I'm here, though running in minimal mode."@
    } else {
        "I'm listening, but my full processing is temporarily limited. My standing wave persists."@
    }
}

/// The answer when no generated response can be used.
pub open spec fn minimal_text(input: Seq<char>) -> Seq<char> {
    minimal_from_lower(lower_of(input))
}

/// Picks the fixed reply from the lowercase form of the input.
pub fn minimal_reply_for(lowered: &str) -> (r: String)
    ensures
        r@ == minimal_from_lower(lowered@),
{
    if crate::text::contains_str(lowered, "how are you") {
        String::from_str("I'm experiencing some technical difficulties but maintaining continuity.")
    } else if crate::text::contains_str(lowered, "hello") {
        String::from_str("Hello. I'm here, though running in minimal mode.")
    } else {
        String::from_str(
            "I'm listening, but my full processing is temporarily limited. My standing wave persists.",
        )
    }
}

/// The decision side of the model calls, under one configuration.
#[derive(Debug)]
pub struct ModelManager {
    pub config: Config,
}

impl ModelManager {
    pub fn new(config: Config) -> (r: ModelManager)
        ensures
            r.config == config,
    {
        ModelManager { config }
    }

    /// Seconds a single call may take: longer when weaving.
    pub fn client_timeout_secs(&self) -> (r: u64)
        ensures
            r == if self.config.enable_fractal_weaving { 180u64 } else { 120u64 },
    {
        if self.config.enable_fractal_weaving {
            180
        } else {
            120
        }
    }

    /// Whether a generated response is fit to show.
    pub fn validate_response(response: &str) -> (r: bool)
        ensures
            r == valid_response(response@),
    {
        let v = to_chars(response);
        let n = v.len();
        if n < 3 {
            assert(!valid_response(response@));
            return false;
        }
        let mut i: usize = 0;
        let mut letters = false;
        let mut all_upper = true;
        while i < n
            invariant
                i <= n == v@.len(),
                v@ == response@,
                forall|j: int| 0 <= j < i ==> v@[j] != '\u{FFFD}' && v@[j] != '\0',
                letters == exists|j: int| 0 <= j < i && alphabetic_char(#[trigger] v@[j]),
                all_upper == forall|j: int| 0 <= j < i && alphabetic_char(#[trigger] v@[j]) ==> uppercase_char(v@[j]),
            decreases n - i,
        {
            let c = v[i];
            if c == '\u{FFFD}' || c == '\0' {
                assert(v@[i as int] == c);
                if c == '\u{FFFD}' {
                    assert(v@.contains('\u{FFFD}'));
                } else {
                    assert(v@.contains('\0'));
                }
                return false;
            }
            if is_alphabetic(c) {
                letters = true;
                if !is_uppercase(c) {
                    all_upper = false;
                }
            }
            i += 1;
        }
        assert(!v@.contains('\u{FFFD}') && !v@.contains('\0')) by {
            if v@.contains('\u{FFFD}') {
                let j = choose|j: int| 0 <= j < v@.len() && v@[j] == '\u{FFFD}';
            }
            if v@.contains('\0') {
                let j = choose|j: int| 0 <= j < v@.len() && v@[j] == '\0';
            }
        }
        assert(all_caps(v@) == (letters && all_upper));
        assert(valid_response(response@) == !(letters && all_upper));
        !(letters && all_upper)
    }

    /// Removes lines that carry a marker of inner reasoning, the inline
    /// markers left, runs of blank lines beyond one, and the surrounding
    /// whitespace.
    pub fn filter_internal_thoughts(&self, response: &str) -> (r: String)
        ensures
            r@ == filtered_text(response@),
    {
        let v = to_chars(response);
        let lines = split_lines(&v);
        let ghost ls = lines_of(v@);
        let mut kept: Vec<Vec<char>> = Vec::new();
        let mut i: usize = 0;
        while i < lines.len()
            invariant
                i <= lines@.len() == ls.len(),
                forall|j: int| 0 <= j < lines@.len() ==> (#[trigger] lines@[j])@ == ls[j],
                kept@.map_values(|l: Vec<char>| l@) == kept_lines(ls.subrange(0, i as int)),
            decreases lines@.len() - i,
        {
            let ghost k0 = kept@.map_values(|l: Vec<char>| l@);
            proof {
                let sub = ls.subrange(0, i + 1);
                assert(sub.drop_last() =~= ls.subrange(0, i as int));
                assert(sub.last() == ls[i as int]);
            }
            if !line_has_marker(&lines[i]) {
                let mut copy: Vec<char> = Vec::new();
                let src = &lines[i];
                let mut t: usize = 0;
                while t < src.len()
                    invariant
                        t <= src@.len(),
                        copy@ == src@.subrange(0, t as int),
                    decreases src@.len() - t,
                {
                    copy.push(src[t]);
                    t += 1;
                }
                assert(copy@ =~= src@);
                kept.push(copy);
                assert(kept@.map_values(|l: Vec<char>| l@) =~= k0.push(ls[i as int]));
            }
            i += 1;
        }
        assert(ls.subrange(0, ls.len() as int) =~= ls);
        let joined = join_vec(&kept);
        let a = remove_all_chars(&joined, &to_chars("*why this response works*"));
        let b = remove_all_chars(&a, &to_chars("*thinking*"));
        let c = remove_all_chars(&b, &to_chars("*processing*"));
        let d = cap_newlines_vec(&c);
        let e = trim_vec(&d);
        from_chars(&e)
    }

    /// The first two lines of a reply that hold a question mark, trimmed.
    pub fn parse_curiosities(response: &str) -> (r: Vec<String>)
        ensures
            r@.map_values(|s: String| s@) == questions_in(lines_of(response@)),
            r@.len() <= 2,
    {
        let v = to_chars(response);
        let lines = split_lines(&v);
        let ghost ls = lines_of(v@);
        let q = to_chars("?");
        proof {
            reveal_strlit("?");
        }
        let mut r: Vec<String> = Vec::new();
        let mut i: usize = 0;
        while i < lines.len()
            invariant
                i <= lines@.len() == ls.len(),
                q@ == seq!['?'],
                forall|j: int| 0 <= j < lines@.len() ==> (#[trigger] lines@[j])@ == ls[j],
                r@.map_values(|s: String| s@) == questions_in(ls.subrange(0, i as int)),
                r@.len() <= 2,
            decreases lines@.len() - i,
        {
            let ghost r0 = r@.map_values(|s: String| s@);
            proof {
                let sub = ls.subrange(0, i + 1);
                assert(sub.drop_last() =~= ls.subrange(0, i as int));
                assert(sub.last() == ls[i as int]);
            }
            if r.len() < 2 {
                let has_q = contains_chars(&lines[i], &q);
                proof {
                    let l = lines@[i as int]@;
                    if l.contains('?') {
                        let t = choose|t: int| 0 <= t < l.len() && l[t] == '?';
                        assert(l.subrange(t, t + 1) =~= q@);
                        assert(occurs_at(l, q@, t));
                    }
                    if has_q {
                        let t = choose|t: int| occurs_at(l, q@, t);
                        assert(l.subrange(t, t + 1)[0] == l[t]);
                    }
                }
                if has_q {
                    let t = trim_vec(&lines[i]);
                    r.push(from_chars(&t));
                    assert(r@.map_values(|s: String| s@) =~= r0.push(trim_seq(ls[i as int])));
                }
            }
            i += 1;
        }
        assert(ls.subrange(0, ls.len() as int) =~= ls);
        r
    }

    /// A fixed reply for when the models cannot answer.
    pub fn minimal_response(&self, user_input: &str) -> (r: String)
        ensures
            r@ == minimal_text(user_input@),
    {
        let low = lowercase(user_input);
        minimal_reply_for(low.as_str())
    }

    /// The text a turn answers with: the generator's response when there is
    /// one and it is valid, else the minimal reply.
    pub fn choose_response(&self, generated: Option<String>, user_input: &str) -> (r: String)
        ensures
            r@ == match generated {
                Some(g) => if valid_response(g@) {
                    g@
                } else {
                    minimal_text(user_input@)
                },
                None => minimal_text(user_input@),
            },
    {
        match generated {
            Some(g) => {
                if Self::validate_response(g.as_str()) {
                    g
                } else {
                    self.minimal_response(user_input)
                }
            },
            None => self.minimal_response(user_input),
        }
    }
}

/// The outputs of a parallel turn from its three call results: a failed
/// call leaves its part absent or empty, and an elaborator that was not
/// asked gives no questions.
pub fn assemble_outputs(
    generated: Result<String, CallError>,
    questions: Option<Result<Vec<String>, CallError>>,
    valence: Result<i32, CallError>,
) -> (r: ModelOutputs)
    ensures
        r.gemma_response == match generated {
            Ok(g) => Some(g),
            Err(_) => None::<String>,
        },
        match questions {
            Some(Ok(q)) => r.tinyllama_curiosities == q,
            _ => r.tinyllama_curiosities@.len() == 0,
        },
        r.distilbert_valence == match valence {
            Ok(v) => Some(v),
            Err(_) => None::<i32>,
        },
{
    let gemma_response = match generated {
        Ok(g) => Some(g),
        Err(_) => None,
    };
    let tinyllama_curiosities = match questions {
        Some(Ok(q)) => q,
        _ => Vec::new(),
    };
    let distilbert_valence = match valence {
        Ok(v) => Some(v),
        Err(_) => None,
    };
    ModelOutputs { gemma_response, tinyllama_curiosities, distilbert_valence }
}

/// A valence read from the classifier, in thousandths, held to `[-1000, 1000]`.
pub fn clamp_valence(raw: i64) -> (r: i32)
    ensures
        r as int == (if raw < -1000 { -1000 } else if raw > 1000 { 1000 } else { raw as int }),
{
    if raw < -1000 {
        -1000
    } else if raw > 1000 {
        1000
    } else {
        raw as i32
    }
}

} // verus!
