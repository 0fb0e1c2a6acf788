//! A coarse complexity score for free text, and the choice between a local
//! model and a hosted one that it drives. Scores are kept in half-points so
//! that every step is exact.
use vstd::prelude::*;
use crate::router::phrases;
use crate::text::{contains_any, contains_str, has_any, has_substring, lower_of, lowercase};

verus! {

/// Whether `c` has the Unicode White_Space property (what Rust's
/// `char::is_whitespace` tests).
pub open spec fn white_space(c: char) -> bool {
    ('\u{9}' <= c && c <= '\u{d}') || c == ' ' || c == '\u{85}' || c == '\u{a0}' || c == '\u{1680}'
        || ('\u{2000}' <= c && c <= '\u{200a}') || c == '\u{2028}' || c == '\u{2029}' || c == '\u{202f}'
        || c == '\u{205f}' || c == '\u{3000}'
}

/// Whether `c` is white space.
pub fn is_white_space(c: char) -> (r: bool)
    ensures
        r == white_space(c),
{
    ('\u{9}' <= c && c <= '\u{d}') || c == ' ' || c == '\u{85}' || c == '\u{a0}' || c == '\u{1680}'
        || ('\u{2000}' <= c && c <= '\u{200a}') || c == '\u{2028}' || c == '\u{2029}' || c == '\u{202f}'
        || c == '\u{205f}' || c == '\u{3000}'
}

/// Number of words of `s`: maximal runs of characters that are not white space.
pub open spec fn word_count(s: Seq<char>) -> nat
    decreases s.len(),
{
    if s.len() == 0 {
        0
    } else {
        let starts = !white_space(s.last()) && (s.len() == 1 || white_space(s[s.len() - 2]));
        word_count(s.drop_last()) + if starts { 1nat } else { 0nat }
    }
}

/// A word count never exceeds the length.
proof fn lemma_word_count_bounded(s: Seq<char>)
    ensures
        word_count(s) <= s.len(),
    decreases s.len(),
{
    if s.len() > 0 {
        lemma_word_count_bounded(s.drop_last());
    }
}

/// Number of words of `s`.
pub fn count_words(s: &str) -> (r: usize)
    ensures
        r as nat == word_count(s@),
{
    let n = s.unicode_len();
    let mut count: usize = 0;
    let mut prev_ws = true;
    let mut k: usize = 0;
    while k < n
        invariant
            n == s@.len(),
            k <= n,
            count as nat == word_count(s@.subrange(0, k as int)),
            k > 0 ==> prev_ws == white_space(s@[k - 1]),
            k == 0 ==> prev_ws,
        decreases n - k,
    {
        proof {
            lemma_word_count_bounded(s@.subrange(0, k as int));
        }
        let c = s.get_char(k);
        let ws = is_white_space(c);
        let ghost pre = s@.subrange(0, k + 1);
        assert(pre.drop_last() =~= s@.subrange(0, k as int));
        assert(pre.last() == c);
        if k > 0 {
            assert(pre[pre.len() - 2] == s@[k - 1]);
        }
        if !ws && prev_ws {
            count = count + 1;
        }
        prev_ws = ws;
        k = k + 1;
    }
    assert(s@.subrange(0, n as int) =~= s@);
    count
}

/// Words that make a request complex outright.
pub open spec fn high_words() -> Seq<Seq<char>> {
    seq![
        "architecture"@, "microservices"@, "comprehensive"@, "design"@, "deployment"@, "strategy"@,
        "production"@, "scalable"@, "distributed"@,
    ]
}

/// Words that each add half a point.
pub open spec fn medium_words() -> Seq<Seq<char>> {
    seq![
        "multiple"@, "detailed"@, "system"@, "integration"@, "security"@, "authentication"@,
        "database"@, "api"@,
    ]
}

/// How many of `ws` occur in `lower`.
pub open spec fn hits(lower: Seq<char>, ws: Seq<Seq<char>>) -> nat
    decreases ws.len(),
{
    if ws.len() == 0 {
        0
    } else {
        hits(lower, ws.drop_last()) + if has_substring(lower, ws.last()) { 1nat } else { 0nat }
    }
}

/// The score in half-points before the cap: one point, half a point for each
/// of more than 20, 40 and 60 words, at least four points with a high word,
/// and half a point per medium word present.
pub open spec fn half_points(words: nat, lower: Seq<char>) -> nat {
    let base: nat = 2nat + (if words > 20 { 1nat } else { 0nat }) + (if words > 40 { 1nat } else { 0nat })
        + (if words > 60 { 1nat } else { 0nat });
    let raised: nat = if has_any(lower, high_words()) && base < 8 { 8nat } else { base };
    raised + hits(lower, medium_words())
}

/// The score from 1 to 5: half-points capped at five points, rounded half up.
pub open spec fn score(words: nat, lower: Seq<char>) -> nat {
    let h = half_points(words, lower);
    let capped: nat = if h > 10 { 10nat } else { h };
    (capped + 1) / 2
}

/// The score of text with `words` words whose lower-cased form is `lower`.
pub fn complexity_score(words: usize, lower: &str) -> (r: u8)
    ensures
        r as nat == score(words as nat, lower@),
        1 <= r <= 5,
{
    let mut h: u64 = 2;
    if words > 20 {
        h = h + 1;
    }
    if words > 40 {
        h = h + 1;
    }
    if words > 60 {
        h = h + 1;
    }
    let high: Vec<&str> = vec![
        "architecture", "microservices", "comprehensive", "design", "deployment", "strategy",
        "production", "scalable", "distributed",
    ];
    assert(phrases(high@) =~= high_words());
    if contains_any(lower, high.as_slice()) && h < 8 {
        h = 8;
    }
    let medium: Vec<&str> = vec![
        "multiple", "detailed", "system", "integration", "security", "authentication", "database", "api",
    ];
    assert(phrases(medium@) =~= medium_words());
    let ghost base = h;
    let mut k: usize = 0;
    while k < medium.len()
        invariant
            k <= medium@.len(),
            phrases(medium@) == medium_words(),
            medium@.len() == 8,
            h as nat == base as nat + hits(lower@, medium_words().subrange(0, k as int)),
            base <= 8,
            h <= base + k,
        decreases medium.len() - k,
    {
        let ghost pre = medium_words().subrange(0, k + 1);
        assert(pre.drop_last() =~= medium_words().subrange(0, k as int));
        assert(pre.last() == medium@[k as int]@);
        if contains_str(lower, medium[k]) {
            h = h + 1;
        }
        k = k + 1;
    }
    assert(medium_words().subrange(0, 8) =~= medium_words());
    let capped = if h > 10 { 10 } else { h };
    ((capped + 1) / 2) as u8
}

/// The score of `prompt`, from its word count and lower-cased text.
pub fn analyze_complexity(prompt: &str) -> (r: u8)
    ensures
        r as nat == score(word_count(prompt@), lower_of(prompt@)),
        1 <= r <= 5,
{
    let lower = lowercase(prompt);
    let words = count_words(prompt);
    complexity_score(words, lower.as_str())
}

/// Provider and model for a request: short simple text goes to a small local
/// model, code to a local coder unless it is complex, complex text to the
/// hosted provider, the rest to a medium local model; the hosted provider
/// whenever the local one is unavailable.
pub open spec fn route_choice(complexity: nat, words: nat, mentions_code: bool, local: bool) -> (Seq<char>, Seq<char>) {
    if complexity <= 1 && words < 15 && local {
        ("ollama"@, "llama3.2:1b"@)
    } else if mentions_code {
        if complexity <= 3 && local { ("ollama"@, "qwen2.5-coder:1.5b"@) } else { ("gemini"@, ""@) }
    } else if complexity >= 4 {
        ("gemini"@, ""@)
    } else if local {
        ("ollama"@, "llama3.2:3b"@)
    } else {
        ("gemini"@, ""@)
    }
}

/// Provider and model from a score, a word count, whether the text mentions
/// code, and whether the local provider is available.
pub fn route_by_complexity(complexity: u8, words: usize, mentions_code: bool, ollama_available: bool) -> (r: (&'static str, &'static str))
    ensures
        (r.0@, r.1@) == route_choice(complexity as nat, words as nat, mentions_code, ollama_available),
{
    if complexity <= 1 && words < 15 && ollama_available {
        return ("ollama", "llama3.2:1b");
    }
    if mentions_code {
        if complexity <= 3 && ollama_available {
            return ("ollama", "qwen2.5-coder:1.5b");
        }
        return ("gemini", "");
    }
    if complexity >= 4 {
        return ("gemini", "");
    }
    if ollama_available {
        ("ollama", "llama3.2:3b")
    } else {
        ("gemini", "")
    }
}

/// Provider and model for `prompt`.
pub fn route_prompt(prompt: &str, ollama_available: bool) -> (r: (&'static str, &'static str))
    ensures
        ({
            let lower = lower_of(prompt@);
            (r.0@, r.1@) == route_choice(score(word_count(prompt@), lower), word_count(prompt@),
                has_substring(lower, "code"@) || has_substring(lower, "function"@), ollama_available)
        }),
{
    let lower = lowercase(prompt);
    let words = count_words(prompt);
    let complexity = complexity_score(words, lower.as_str());
    proof {
        reveal_strlit("code");
        reveal_strlit("function");
    }
    let code = contains_str(lower.as_str(), "code") || contains_str(lower.as_str(), "function");
    route_by_complexity(complexity, words, code, ollama_available)
}

} // verus!
