//! Text that the assistant hands to speech: one complete sentence at a time
//! from the streamed reply, and the reply with its Markdown markup removed.

use vstd::prelude::*;
use vstd::utf8::{
    encode_scalar, encode_utf8, encode_utf8_first_scalar, is_char_boundary, pop_first_scalar,
};
use fancy_regex::Regex;
use crate::text::{
    byte_len, capped_byte_len, capped_byte_len_of, chars_of, lemma_byte_len_single, lemma_encode_concat, string_of, trim, trim_bounds,
    unicode_whitespace, utf8_width,
};

verus! {

broadcast use vstd::utf8::encode_utf8_valid_utf8;

// ---------------------------------------------------------------------------
// Sentence ends
// ---------------------------------------------------------------------------

/// The pattern of a sentence end: terminal punctuation followed by
/// whitespace or by the end of the text.
pub open spec fn sentence_end_pattern() -> Seq<char> {
    "[.!?](?:\\s|$)"@
}

/// Whether `s[i]` is terminal punctuation that ends a sentence.
pub open spec fn ends_sentence_at(s: Seq<char>, i: int) -> bool {
    &&& 0 <= i < s.len()
    &&& (s[i] == '.' || s[i] == '!' || s[i] == '?')
    &&& (i + 1 == s.len() || unicode_whitespace(s[i + 1]))
}

/// The first sentence end at or after `i`.
pub open spec fn first_sentence_end_from(s: Seq<char>, i: int) -> Option<int>
    decreases s.len() - i,
{
    if i < 0 || i >= s.len() {
        None
    } else if ends_sentence_at(s, i) {
        Some(i)
    } else {
        first_sentence_end_from(s, i + 1)
    }
}

/// End (as a character index) of the leftmost match of the sentence-end
/// pattern: after the whitespace, or at the end of the text.
pub open spec fn sentence_match_end(s: Seq<char>) -> Option<int> {
    match first_sentence_end_from(s, 0) {
        Some(i) => Some(if i + 1 == s.len() {
            i + 1
        } else {
            i + 2
        }),
        None => None,
    }
}

/// Finds the leftmost match of the sentence-end pattern in `text` with
/// `fancy_regex::Regex::find`, as byte offsets. The contract claims the
/// regular-expression semantics of the pattern: `[.!?]` is one of the
/// three characters, `\s` one Unicode `White_Space` character, `$` the end
/// of the text, and the leftmost match is returned; the pattern has no
/// look-around, so the crate runs it on its non-backtracking engine, which
/// does not fail.
#[verifier::external_body]
fn find_sentence_end(pattern: &str, text: &str) -> (r: Option<(usize, usize)>)
    requires
        pattern@ == sentence_end_pattern(),
    ensures
        r matches Some(m) ==> (sentence_match_end(text@) matches Some(j) && m.1 == byte_len(text@.take(j))),
        r is None ==> sentence_match_end(text@) is None,
{
    match Regex::new(pattern).ok().and_then(|re| re.find(text).ok().flatten()) {
        Some(m) => Some((m.start(), m.end())),
        None => None,
    }
}

/// The byte offsets of character positions are character boundaries.
pub proof fn lemma_char_offset_is_boundary(s: Seq<char>, j: int)
    requires
        0 <= j <= s.len(),
    ensures
        is_char_boundary(encode_utf8(s), byte_len(s.take(j)) as int),
        byte_len(s.take(j)) <= byte_len(s),
    decreases j,
{
    lemma_encode_concat(s.take(j), s.skip(j));
    assert(s.take(j) + s.skip(j) =~= s);
    if j > 0 {
        let bytes = encode_utf8(s);
        let rest = s.drop_first();
        lemma_char_offset_is_boundary(rest, j - 1);
        encode_utf8_first_scalar(s);
        assert(pop_first_scalar(bytes) =~= encode_utf8(rest));
        assert(s.take(j) =~= seq![s[0]] + rest.take(j - 1));
        lemma_encode_concat(seq![s[0]], rest.take(j - 1));
        lemma_byte_len_single(s[0]);
    }
}

/// Byte lengths of prefixes grow with the prefix.
pub proof fn lemma_prefix_bytes_grow(s: Seq<char>, a: int, b: int)
    requires
        0 <= a < b <= s.len(),
    ensures
        byte_len(s.take(a)) < byte_len(s.take(b)),
{
    assert(s.take(b) =~= s.take(a) + s.subrange(a, b));
    lemma_encode_concat(s.take(a), s.subrange(a, b));
    let mid = s.subrange(a, b);
    assert(mid =~= seq![mid[0]] + mid.drop_first());
    lemma_encode_concat(seq![mid[0]], mid.drop_first());
    lemma_byte_len_single(mid[0]);
}

/// The largest character boundary of `s` at or before byte `byte` (bytes
/// past the end count as the end).
pub fn min_char_boundary(s: &str, byte: usize) -> (r: usize)
    ensures
        r <= byte,
        r <= byte_len(s@),
        is_char_boundary(encode_utf8(s@), r as int),
        forall|k: int|
            r < k <= byte && k <= capped_byte_len(s@) ==> !is_char_boundary(encode_utf8(s@), k),
{
    proof {
        vstd::utf8::is_char_boundary_start_end_of_seq(encode_utf8(s@));
    }
    let v = chars_of(s);
    let len = capped_byte_len_of(&v);
    let mut i = if byte < len {
        byte
    } else {
        len
    };
    while i > 0 && !s.is_char_boundary(i)
        invariant
            i <= byte,
            i <= capped_byte_len(s@),
            capped_byte_len(s@) <= byte_len(s@),
            is_char_boundary(encode_utf8(s@), 0),
            forall|k: int|
                i < k <= byte && k <= capped_byte_len(s@) ==> !is_char_boundary(encode_utf8(s@), k),
        decreases i,
    {
        i = i - 1;
    }
    i
}

/// Number of characters of `v` whose encoding takes `target` bytes.
fn chars_in_bytes(v: &Vec<char>, target: usize, Ghost(j): Ghost<int>) -> (r: usize)
    requires
        0 <= j <= v@.len(),
        byte_len(v@.take(j)) == target,
    ensures
        r == j,
{
    let n = v.len();
    let mut k: usize = 0;
    let mut total: usize = 0;
    proof {
        assert(v@.take(0) =~= Seq::<char>::empty());
    }
    while total < target
        invariant
            0 <= k <= j <= v@.len(),
            n == v@.len(),
            total == byte_len(v@.take(k as int)),
            total <= target,
            byte_len(v@.take(j)) == target,
        decreases target - total,
    {
        proof {
            if j <= k {
                if j < k {
                    lemma_prefix_bytes_grow(v@, j, k as int);
                }
            }
            assert(k < j);
            if k + 1 < j {
                lemma_prefix_bytes_grow(v@, k + 1, j);
            }
            assert(v@.take(k + 1) =~= v@.take(k as int) + seq![v@[k as int]]);
            lemma_encode_concat(v@.take(k as int), seq![v@[k as int]]);
        }
        total = total + utf8_width(v[k]);
        k = k + 1;
    }
    proof {
        if k < j {
            lemma_prefix_bytes_grow(v@, k as int, j);
        }
    }
    k
}

/// The first complete sentence of `buffer`, trimmed, with the byte offset
/// just past it (past the whitespace that follows it).
pub open spec fn spec_next_sentence(buffer: Seq<char>) -> Option<(Seq<char>, nat)> {
    match sentence_match_end(buffer) {
        Some(j) => Some((trim(buffer.take(j)), byte_len(buffer.take(j)))),
        None => None,
    }
}

/// Splits off one complete sentence: the trimmed text up to the first
/// terminal punctuation that whitespace or the end follows, and the byte
/// offset where the rest of the buffer starts (see `spec_next_sentence`).
pub fn next_sentence(buffer: &str) -> (r: Option<(String, usize)>)
    ensures
        match spec_next_sentence(buffer@) {
            Some(p) => r matches Some(q) && q.0@ == p.0 && q.1 == p.1,
            None => r is None,
        },
{
    match find_sentence_end("[.!?](?:\\s|$)", buffer) {
        None => None,
        Some((_, e)) => {
            let ghost j = sentence_match_end(buffer@)->0;
            proof {
                assert(0 <= j <= buffer@.len()) by {
                    let i = first_sentence_end_from(buffer@, 0)->0;
                    lemma_first_sentence_end(buffer@, 0);
                }
                lemma_char_offset_is_boundary(buffer@, j);
            }
            let end = min_char_boundary(buffer, e);
            let v = chars_of(buffer);
            let n = chars_in_bytes(&v, end, Ghost(j));
            let (a, b) = trim_bounds(&v, 0, n);
            assert(v@.subrange(0, n as int) =~= v@.take(n as int));
            Some((string_of(&v, a, b), end))
        },
    }
}

proof fn lemma_first_sentence_end(s: Seq<char>, i: int)
    requires
        0 <= i,
    ensures
        first_sentence_end_from(s, i) matches Some(k) ==> i <= k && ends_sentence_at(s, k),
    decreases s.len() - i,
{
    if i < s.len() && !ends_sentence_at(s, i) {
        lemma_first_sentence_end(s, i + 1);
    }
}

// ---------------------------------------------------------------------------
// Markdown removal
// ---------------------------------------------------------------------------

/// A rewrite of Markdown markup: matches of `pat` are replaced by `repl`
/// (which may refer to capture groups), with `^`/`$` matching at line ends
/// when `multiline`.
pub struct Rule {
    pub pat: &'static str,
    pub repl: &'static str,
    pub multiline: bool,
}

/// The Markdown rules in the order they are applied: links before images'
/// inner text, bold before italic for the same marker.
pub open spec fn markdown_rules() -> Seq<(Seq<char>, Seq<char>, bool)> {
    seq![
        (r"\[([^\]]*)\]\([^)]+\)"@, "$1"@, false),
        (r"!\[([^\]]*)\]\([^)]+\)"@, "$1"@, false),
        (r"```[\s\S]*?```"@, ""@, false),
        (r"`([^`]+)`"@, "$1"@, false),
        (r"\*\*([^*]+)\*\*"@, "$1"@, false),
        (r"\*([^*]+)\*"@, "$1"@, false),
        (r"__([^_]+)__"@, "$1"@, false),
        (r"(?<!\w)_([^_]+)_(?!\w)"@, "$1"@, false),
        (r"~~([^~]+)~~"@, "$1"@, false),
        (r"^#+\s*"@, ""@, true),
        (r"^>\s*"@, ""@, true),
        (r"^[-*+]\s+"@, ""@, true),
        (r"^\d+\.\s+"@, ""@, true),
        (r"^[-*_]{3,}\s*$"@, ""@, true),
        (r"<[^>]+>"@, ""@, false)
    ]
}

/// The rules as values.
pub fn rules() -> (r: Vec<Rule>)
    ensures
        r@.map_values(|x: Rule| (x.pat@, x.repl@, x.multiline)) == markdown_rules(),
{
    let r = vec![
        Rule { pat: r"\[([^\]]*)\]\([^)]+\)", repl: "$1", multiline: false }, // [text](url)
        Rule { pat: r"!\[([^\]]*)\]\([^)]+\)", repl: "$1", multiline: false }, // ![alt](url)
        Rule { pat: r"```[\s\S]*?```", repl: "", multiline: false }, // code blocks
        Rule { pat: r"`([^`]+)`", repl: "$1", multiline: false }, // inline code
        Rule { pat: r"\*\*([^*]+)\*\*", repl: "$1", multiline: false }, // **bold**
        Rule { pat: r"\*([^*]+)\*", repl: "$1", multiline: false }, // *italic*
        Rule { pat: r"__([^_]+)__", repl: "$1", multiline: false }, // __bold__
        Rule { pat: r"(?<!\w)_([^_]+)_(?!\w)", repl: "$1", multiline: false }, // _italic_
        Rule { pat: r"~~([^~]+)~~", repl: "$1", multiline: false }, // ~~strikethrough~~
        Rule { pat: r"^#+\s*", repl: "", multiline: true }, // # headings
        Rule { pat: r"^>\s*", repl: "", multiline: true }, // > blockquotes
        Rule { pat: r"^[-*+]\s+", repl: "", multiline: true }, // - list items
        Rule { pat: r"^\d+\.\s+", repl: "", multiline: true }, // 1. list items
        Rule { pat: r"^[-*_]{3,}\s*$", repl: "", multiline: true }, // horizontal rules
        Rule { pat: r"<[^>]+>", repl: "", multiline: false }, // <html> or <url>
    ];
    assert(r@.map_values(|x: Rule| (x.pat@, x.repl@, x.multiline)) =~= markdown_rules());
    r
}

/// The regular expression of a rule, with the multi-line flag prefixed when
/// the rule asks for it.
pub open spec fn spec_pattern(pat: Seq<char>, multiline: bool) -> Seq<char> {
    if multiline {
        "(?m)"@ + pat
    } else {
        pat
    }
}

/// The regular expression of `rule` (see `spec_pattern`).
pub fn pattern(rule: &Rule) -> (r: String)
    ensures
        r@ == spec_pattern(rule.pat@, rule.multiline),
{
    if rule.multiline {
        crate::toml_doc::concat2("(?m)", rule.pat)
    } else {
        rule.pat.to_string()
    }
}

/// What `fancy_regex` gives for compiling `pattern` and replacing every
/// match of it in `text` by `replacement`: the replaced text, or `None` when
/// the pattern does not compile or the matcher gives up on the text (its
/// backtracking limit). Both depend on the pattern and the text alone.
pub uninterp spec fn regex_replace_result(pattern: Seq<char>, text: Seq<char>, replacement: Seq<char>) -> Option<Seq<char>>;

/// The view of an optional string.
pub open spec fn opt_view(r: Option<String>) -> Option<Seq<char>> {
    match r {
        Some(s) => Some(s@),
        None => None,
    }
}

/// Compiles `pattern` with `fancy_regex::Regex::new` and replaces all its
/// matches in `text` with `try_replacen(text, 0, replacement)`. The
/// contract names the outcome (see `regex_replace_result`); it is `None`
/// when either call returns an error.
#[verifier::external_body]
fn replace_all_matches(pattern: &str, text: &str, replacement: &str) -> (r: Option<String>)
    ensures
        opt_view(r) == regex_replace_result(pattern@, text@, replacement@),
{
    match Regex::new(pattern) {
        Ok(re) => match re.try_replacen(text, 0, replacement) {
            Ok(out) => Some(out.into_owned()),
            Err(_) => None,
        },
        Err(_) => None,
    }
}

/// `text` after the first `k` Markdown rules, or `None` when the regular
/// expression engine fails on one of them.
pub open spec fn after_rules(text: Seq<char>, k: int) -> Option<Seq<char>>
    decreases k,
{
    if k <= 0 {
        Some(text)
    } else {
        match after_rules(text, k - 1) {
            Some(t) => {
                let rule = markdown_rules()[k - 1];
                regex_replace_result(spec_pattern(rule.0, rule.2), t, rule.1)
            },
            None => None,
        }
    }
}

/// Once a rule fails, the later ones leave the failure as it is.
proof fn lemma_after_rules_stays_failed(text: Seq<char>, k: int, n: int)
    requires
        1 <= k <= n,
        after_rules(text, k) is None,
    ensures
        after_rules(text, n) is None,
    decreases n - k,
{
    if k < n {
        lemma_after_rules_stays_failed(text, k + 1, n);
    }
}

/// `text` without Markdown markup, trimmed; `None` when the regular
/// expression engine fails on one of the rules.
pub open spec fn spec_strip_markdown(text: Seq<char>) -> Option<Seq<char>> {
    match after_rules(text, markdown_rules().len() as int) {
        Some(t) => Some(trim(t)),
        None => None,
    }
}

/// Removes Markdown markup from `text` and trims it; `None` when the regular
/// expression engine gives up on the text.
pub fn strip_markdown(text: &str) -> (r: Option<String>)
    ensures
        opt_view(r) == spec_strip_markdown(text@),
{
    let all = rules();
    let mut s = text.to_string();
    let mut k: usize = 0;
    while k < all.len()
        invariant
            0 <= k <= all@.len(),
            all@.map_values(|x: Rule| (x.pat@, x.repl@, x.multiline)) == markdown_rules(),
            after_rules(text@, k as int) == Some(s@),
        decreases all@.len() - k,
    {
        let rule = &all[k];
        assert(markdown_rules()[k as int] == (rule.pat@, rule.repl@, rule.multiline));
        let re = pattern(rule);
        match replace_all_matches(re.as_str(), s.as_str(), rule.repl) {
            Some(next) => {
                s = next;
            },
            None => {
                proof {
                    lemma_after_rules_stays_failed(text@, k as int + 1, markdown_rules().len() as int);
                }
                return None;
            },
        }
        k = k + 1;
    }
    let v = chars_of(s.as_str());
    let (a, b) = trim_bounds(&v, 0, v.len());
    assert(v@.subrange(0, v@.len() as int) =~= v@);
    Some(string_of(&v, a, b))
}

} // verus!
