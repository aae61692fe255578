//! Text front end of the Supertonic speech engine: language selection,
//! text normalization wrapped in language tags, indexing of characters
//! through the model's unicode table, and chunking of long text at
//! sentence boundaries that are not abbreviations.

use vstd::prelude::*;
use vstd::utf8::encode_scalar;
use unicode_normalization::UnicodeNormalization;
use crate::sentences::{views, Quality};
use crate::stt::concat_chunks;
use crate::text::{
    ascii_upper, ascii_alnum, byte_len, capped_byte_len, lemma_byte_len_single, capped_byte_len_of, chars_of, lemma_encode_concat, push_all, slice_of, is_alphanumeric, is_ascii_alphanumeric, is_ascii_uppercase,
    is_whitespace, keep, lemma_trim_edges, push_char, replace_all, replace_chars, slice_eq,
    string_of, trim, trim_bounds, unicode_alphanumeric, unicode_whitespace, ws,
};

verus! {

/// Flow-matching steps used for each quality.
pub open spec fn spec_steps_for_quality(quality: Quality) -> usize {
    match quality {
        Quality::Low => 4,
        Quality::High => 8,
    }
}

pub fn steps_for_quality(quality: Quality) -> (r: usize)
    ensures
        r == spec_steps_for_quality(quality),
{
    match quality {
        Quality::Low => 4,
        Quality::High => 8,
    }
}

// ---------------------------------------------------------------------------
// Language selection
// ---------------------------------------------------------------------------

/// ISO 639-3 codes the model supports, with the tag the model expects.
pub open spec fn language_table() -> Seq<(Seq<char>, Seq<char>)> {
    seq![
        ("eng"@, "en"@), ("kor"@, "ko"@), ("jpn"@, "ja"@), ("ara"@, "ar"@), ("bul"@, "bg"@),
        ("ces"@, "cs"@), ("dan"@, "da"@), ("deu"@, "de"@), ("ell"@, "el"@), ("spa"@, "es"@),
        ("est"@, "et"@), ("fin"@, "fi"@), ("fra"@, "fr"@), ("hin"@, "hi"@), ("hrv"@, "hr"@),
        ("hun"@, "hu"@), ("ind"@, "id"@), ("ita"@, "it"@), ("lit"@, "lt"@), ("lav"@, "lv"@),
        ("nld"@, "nl"@), ("pol"@, "pl"@), ("por"@, "pt"@), ("ron"@, "ro"@), ("rus"@, "ru"@),
        ("slk"@, "sk"@), ("slv"@, "sl"@), ("swe"@, "sv"@), ("tur"@, "tr"@), ("ukr"@, "uk"@),
        ("vie"@, "vi"@),
    ]
}

/// The tag for `code` from the first matching row of the table, `na` when
/// no row matches.
pub open spec fn lang_tag_from(code: Seq<char>, k: int) -> Seq<char>
    decreases language_table().len() - k,
{
    if k < 0 || k >= language_table().len() {
        "na"@
    } else if language_table()[k].0 == code {
        language_table()[k].1
    } else {
        lang_tag_from(code, k + 1)
    }
}

pub open spec fn spec_lang_from_code(code: Seq<char>) -> Seq<char> {
    lang_tag_from(code, 0)
}

fn language_rows() -> (r: Vec<(&'static str, &'static str)>)
    ensures
        r@.len() == language_table().len(),
        forall|k: int|
            0 <= k < r@.len() ==> (#[trigger] r@[k]).0@ == language_table()[k].0 && r@[k].1@
                == language_table()[k].1,
{
    let r = vec![
        ("eng", "en"), ("kor", "ko"), ("jpn", "ja"), ("ara", "ar"), ("bul", "bg"), ("ces", "cs"),
        ("dan", "da"), ("deu", "de"), ("ell", "el"), ("spa", "es"), ("est", "et"), ("fin", "fi"),
        ("fra", "fr"), ("hin", "hi"), ("hrv", "hr"), ("hun", "hu"), ("ind", "id"), ("ita", "it"),
        ("lit", "lt"), ("lav", "lv"), ("nld", "nl"), ("pol", "pl"), ("por", "pt"), ("ron", "ro"),
        ("rus", "ru"), ("slk", "sk"), ("slv", "sl"), ("swe", "sv"), ("tur", "tr"), ("ukr", "uk"),
        ("vie", "vi"),
    ];
    assert(r@.map_values(|p: (&str, &str)| (p.0@, p.1@)) =~= language_table());
    assert forall|k: int| 0 <= k < r@.len() implies (#[trigger] r@[k]).0@ == language_table()[k].0
        && r@[k].1@ == language_table()[k].1 by {
        assert(r@.map_values(|p: (&str, &str)| (p.0@, p.1@))[k] == (r@[k].0@, r@[k].1@));
    }
    r
}

/// Maps an ISO 639-3 code to the model's language tag (`na` when unsupported).
pub fn lang_from_code(code: &str) -> (r: &'static str)
    ensures
        r@ == spec_lang_from_code(code@),
{
    let c = chars_of(code);
    let rows = language_rows();
    let mut k: usize = 0;
    while k < rows.len()
        invariant
            0 <= k <= rows@.len(),
            rows@.len() == language_table().len(),
            forall|m: int|
                0 <= m < rows@.len() ==> (#[trigger] rows@[m]).0@ == language_table()[m].0
                    && rows@[m].1@ == language_table()[m].1,
            c@ == code@,
            lang_tag_from(code@, k as int) == lang_tag_from(code@, 0),
        decreases rows@.len() - k,
    {
        let key = chars_of(rows[k].0);
        if slice_eq(&key, 0, key.len(), &c) {
            assert(key@.subrange(0, key@.len() as int) =~= key@);
            return rows[k].1;
        }
        assert(key@.subrange(0, key@.len() as int) =~= key@);
        k = k + 1;
    }
    "na"
}

/// The language code whatlang detects for a text (empty when none).
pub uninterp spec fn detected_language_code(text: Seq<char>) -> Seq<char>;

/// Calls `whatlang::detect` and takes the detected language's ISO 639-3
/// code (`Lang::code`), or an empty string when nothing is detected. The
/// detection is deterministic in the text; this contract only names it.
#[verifier::external_body]
fn detect_language_code(text: &str) -> (r: String)
    ensures
        r@ == detected_language_code(text@),
{
    match whatlang::detect(text) {
        Some(info) => info.lang().code().to_string(),
        None => String::new(),
    }
}

/// The model's language tag for the language detected in `text`.
pub fn detect_lang(text: &str) -> (r: &'static str)
    ensures
        r@ == spec_lang_from_code(detected_language_code(text@)),
{
    let code = detect_language_code(text);
    lang_from_code(code.as_str())
}

// ---------------------------------------------------------------------------
// Character classes and normalization
// ---------------------------------------------------------------------------

/// Code point ranges treated as emoji.
pub open spec fn emoji_ranges() -> Seq<(u32, u32)> {
    seq![
        (0x1f600u32, 0x1f64fu32), (0x1f300u32, 0x1f5ffu32), (0x1f680u32, 0x1f6ffu32),
        (0x1f700u32, 0x1f77fu32), (0x1f780u32, 0x1f7ffu32), (0x1f800u32, 0x1f8ffu32),
        (0x1f900u32, 0x1f9ffu32), (0x1fa00u32, 0x1fa6fu32), (0x1fa70u32, 0x1faffu32),
        (0x2600u32, 0x26ffu32), (0x2700u32, 0x27bfu32), (0x1f1e6u32, 0x1f1ffu32),
    ]
}

pub open spec fn spec_is_emoji(c: char) -> bool {
    exists|k: int|
        0 <= k < emoji_ranges().len() && (#[trigger] emoji_ranges()[k]).0 <= (c as u32) && (
        c as u32) <= emoji_ranges()[k].1
}

pub fn is_emoji(c: char) -> (r: bool)
    ensures
        r == spec_is_emoji(c),
{
    let ranges: Vec<(u32, u32)> = vec![
        (0x1f600, 0x1f64f), (0x1f300, 0x1f5ff), (0x1f680, 0x1f6ff), (0x1f700, 0x1f77f),
        (0x1f780, 0x1f7ff), (0x1f800, 0x1f8ff), (0x1f900, 0x1f9ff), (0x1fa00, 0x1fa6f),
        (0x1fa70, 0x1faff), (0x2600, 0x26ff), (0x2700, 0x27bf), (0x1f1e6, 0x1f1ff),
    ];
    assert(ranges@ =~= emoji_ranges());
    let code: u32 = c as u32;
    let mut k: usize = 0;
    while k < ranges.len()
        invariant
            0 <= k <= ranges@.len(),
            ranges@ == emoji_ranges(),
            code == c as u32,
            forall|m: int|
                0 <= m < k ==> !((#[trigger] emoji_ranges()[m]).0 <= code && code
                    <= emoji_ranges()[m].1),
        decreases ranges@.len() - k,
    {
        let (low, high) = ranges[k];
        if code >= low && code <= high {
            assert(emoji_ranges()[k as int].0 <= code && code <= emoji_ranges()[k as int].1);
            return true;
        }
        k = k + 1;
    }
    false
}

pub open spec fn spec_is_special_symbol(c: char) -> bool {
    c == '\u{2665}' || c == '\u{2606}' || c == '\u{2661}' || c == '\u{00A9}' || c == '\\'
}

pub fn is_special_symbol(c: char) -> (r: bool)
    ensures
        r == spec_is_special_symbol(c),
{
    c == '\u{2665}' || c == '\u{2606}' || c == '\u{2661}' || c == '\u{00A9}' || c == '\\'
}

/// Dashes become `-`, some separators and arrows become spaces, curly
/// quotes become straight quotes; other characters are kept.
pub open spec fn spec_normalize_symbol(c: char) -> char {
    if c == '\u{2013}' || c == '\u{2011}' || c == '\u{2014}' {
        '-'
    } else if c == '\u{00AF}' || c == '_' || c == '[' || c == ']' || c == '|' || c == '/' || c
        == '#' || c == '\u{2192}' || c == '\u{2190}' {
        ' '
    } else if c == '\u{201C}' || c == '\u{201D}' {
        '"'
    } else if c == '\u{2018}' || c == '\u{2019}' || c == '\u{00B4}' || c == '`' {
        '\''
    } else {
        c
    }
}

pub fn normalize_symbols(c: char) -> (r: char)
    ensures
        r == spec_normalize_symbol(c),
{
    if c == '\u{2013}' || c == '\u{2011}' || c == '\u{2014}' {
        '-'
    } else if c == '\u{00AF}' || c == '_' || c == '[' || c == ']' || c == '|' || c == '/' || c
        == '#' || c == '\u{2192}' || c == '\u{2190}' {
        ' '
    } else if c == '\u{201C}' || c == '\u{201D}' {
        '"'
    } else if c == '\u{2018}' || c == '\u{2019}' || c == '\u{00B4}' || c == '`' {
        '\''
    } else {
        c
    }
}

/// The space-before-punctuation pairs that are closed up, in order.
pub open spec fn spacing_rules() -> Seq<(Seq<char>, Seq<char>)> {
    seq![
        (" ,"@, ","@), (" ."@, "."@), (" !"@, "!"@), (" ?"@, "?"@), (" ;"@, ";"@), (" :"@, ":"@),
        (" '"@, "'"@),
    ]
}

/// `s` after applying the replacement rules `rules[0..k]` in order.
pub open spec fn replace_each(s: Seq<char>, rules: Seq<(Seq<char>, Seq<char>)>, k: int) -> Seq<char>
    decreases k,
{
    if k <= 0 || k > rules.len() {
        s
    } else {
        replace_all(replace_each(s, rules, k - 1), rules[k - 1].0, rules[k - 1].1)
    }
}

/// Applies a list of string replacements in order.
fn apply_rules(v: Vec<char>, rules: &Vec<(&str, &str)>, Ghost(spec_rules): Ghost<Seq<(Seq<char>, Seq<char>)>>) -> (r: Vec<char>)
    requires
        rules@.len() == spec_rules.len(),
        forall|k: int|
            0 <= k < rules@.len() ==> (#[trigger] rules@[k]).0@ == spec_rules[k].0 && rules@[k].1@
                == spec_rules[k].1 && spec_rules[k].0.len() > 0,
    ensures
        r@ == replace_each(v@, spec_rules, spec_rules.len() as int),
{
    let ghost before = v@;
    let mut out = v;
    let mut k: usize = 0;
    while k < rules.len()
        invariant
            0 <= k <= rules@.len(),
            rules@.len() == spec_rules.len(),
            forall|m: int|
                0 <= m < rules@.len() ==> (#[trigger] rules@[m]).0@ == spec_rules[m].0
                    && rules@[m].1@ == spec_rules[m].1 && spec_rules[m].0.len() > 0,
            out@ == replace_each(before, spec_rules, k as int),
        decreases rules@.len() - k,
    {
        let from = chars_of(rules[k].0);
        let to = chars_of(rules[k].1);
        out = replace_chars(&out, &from, &to);
        k = k + 1;
    }
    out
}

pub open spec fn spec_fix_punctuation_spacing(s: Seq<char>) -> Seq<char> {
    replace_each(s, spacing_rules(), 7)
}

fn spacing_rule_list() -> (r: Vec<(&'static str, &'static str)>)
    ensures
        r@.len() == spacing_rules().len(),
        forall|k: int|
            0 <= k < r@.len() ==> (#[trigger] r@[k]).0@ == spacing_rules()[k].0 && r@[k].1@
                == spacing_rules()[k].1 && spacing_rules()[k].0.len() > 0,
{
    let r = vec![(" ,", ","), (" .", "."), (" !", "!"), (" ?", "?"), (" ;", ";"), (" :", ":"), (" '", "'")];
    proof {
        reveal_strlit(" ,");
        reveal_strlit(" .");
        reveal_strlit(" !");
        reveal_strlit(" ?");
        reveal_strlit(" ;");
        reveal_strlit(" :");
        reveal_strlit(" '");
    }
    assert(r@.map_values(|p: (&str, &str)| (p.0@, p.1@)) =~= spacing_rules());
    assert forall|k: int| 0 <= k < r@.len() implies (#[trigger] r@[k]).0@ == spacing_rules()[k].0
        && r@[k].1@ == spacing_rules()[k].1 && spacing_rules()[k].0.len() > 0 by {
        assert(r@.map_values(|p: (&str, &str)| (p.0@, p.1@))[k] == (r@[k].0@, r@[k].1@));
    }
    r
}

/// Removes a space before `,` `.` `!` `?` `;` `:` and `'`.
pub fn fix_punctuation_spacing(text: &str) -> (r: String)
    ensures
        r@ == spec_fix_punctuation_spacing(text@),
{
    let v = chars_of(text);
    let rules = spacing_rule_list();
    let out = apply_rules(v, &rules, Ghost(spacing_rules()));
    string_of(&out, 0, out.len())
}

/// `s[i..]` with a quote character dropped when it repeats the character
/// kept just before it (`prev`).
pub open spec fn dedupe_from(s: Seq<char>, i: int, prev: Option<char>) -> Seq<char>
    decreases s.len() - i,
{
    if i < 0 || i >= s.len() {
        Seq::empty()
    } else {
        let c = s[i];
        if (c == '"' || c == '\'' || c == '`') && prev == Some(c) {
            dedupe_from(s, i + 1, prev)
        } else {
            seq![c] + dedupe_from(s, i + 1, Some(c))
        }
    }
}

pub open spec fn spec_dedupe_quotes(s: Seq<char>) -> Seq<char> {
    dedupe_from(s, 0, None)
}

/// Collapses runs of repeated `"`, `'` or backtick into one.
pub fn dedupe_quotes(text: &str) -> (r: String)
    ensures
        r@ == spec_dedupe_quotes(text@),
{
    let v = chars_of(text);
    let mut out = String::new();
    let mut previous: Option<char> = None;
    let mut i: usize = 0;
    while i < v.len()
        invariant
            v@ == text@,
            0 <= i <= v@.len(),
            out@ + dedupe_from(v@, i as int, previous) == dedupe_from(v@, 0, None),
        decreases v@.len() - i,
    {
        let c = v[i];
        let same = match previous {
            Some(p) => p == c,
            None => false,
        };
        if (c == '"' || c == '\'' || c == '`') && same {
            i = i + 1;
        } else {
            let ghost before = out@;
            push_char(&mut out, c);
            previous = Some(c);
            assert(out@ + dedupe_from(v@, i + 1, previous) =~= before + (seq![c] + dedupe_from(
                v@,
                i + 1,
                Some(c),
            )));
            i = i + 1;
        }
    }
    assert(out@ =~= dedupe_from(v@, 0, None));
    out
}

/// `s[i..]` with each run of whitespace replaced by one space; `in_space`
/// tells whether a space was just emitted.
pub open spec fn collapse_from(s: Seq<char>, i: int, in_space: bool) -> Seq<char>
    decreases s.len() - i,
{
    if i < 0 || i >= s.len() {
        Seq::empty()
    } else if unicode_whitespace(s[i]) {
        if in_space {
            collapse_from(s, i + 1, true)
        } else {
            seq![' '] + collapse_from(s, i + 1, true)
        }
    } else {
        seq![s[i]] + collapse_from(s, i + 1, false)
    }
}

pub open spec fn spec_collapse_whitespace(s: Seq<char>) -> Seq<char> {
    trim(collapse_from(s, 0, false))
}

/// Replaces every run of whitespace by one space and trims the ends.
pub fn collapse_whitespace(text: &str) -> (r: String)
    ensures
        r@ == spec_collapse_whitespace(text@),
{
    let v = chars_of(text);
    let mut out: Vec<char> = Vec::new();
    let mut in_space = false;
    let mut i: usize = 0;
    while i < v.len()
        invariant
            v@ == text@,
            0 <= i <= v@.len(),
            out@ + collapse_from(v@, i as int, in_space) == collapse_from(v@, 0, false),
        decreases v@.len() - i,
    {
        let c = v[i];
        let ghost before = out@;
        if is_whitespace(c) {
            if !in_space {
                out.push(' ');
                in_space = true;
                assert(out@ + collapse_from(v@, i + 1, true) =~= before + (seq![' '] + collapse_from(
                    v@,
                    i + 1,
                    true,
                )));
            }
        } else {
            out.push(c);
            in_space = false;
            assert(out@ + collapse_from(v@, i + 1, false) =~= before + (seq![c] + collapse_from(
                v@,
                i + 1,
                false,
            )));
        }
        i = i + 1;
    }
    assert(out@ =~= collapse_from(v@, 0, false));
    let (a, b) = trim_bounds(&out, 0, out.len());
    assert(out@.subrange(0, out@.len() as int) =~= out@);
    string_of(&out, a, b)
}

pub open spec fn is_ending_punctuation(c: char) -> bool {
    c == '.' || c == '!' || c == '?' || c == ';' || c == ':' || c == ',' || c == '\'' || c == '"'
        || c == ')' || c == ']' || c == '}' || c == '\u{2026}' || c == '\u{3002}' || c
        == '\u{300D}' || c == '\u{300F}' || c == '\u{3011}' || c == '\u{3009}' || c == '\u{300B}'
        || c == '\u{203A}' || c == '\u{00BB}'
}

pub open spec fn spec_ends_with_terminator(s: Seq<char>) -> bool {
    s.len() > 0 && is_ending_punctuation(s.last())
}

fn ending_punctuation(c: char) -> (r: bool)
    ensures
        r == is_ending_punctuation(c),
{
    c == '.' || c == '!' || c == '?' || c == ';' || c == ':' || c == ',' || c == '\'' || c == '"'
        || c == ')' || c == ']' || c == '}' || c == '\u{2026}' || c == '\u{3002}' || c
        == '\u{300D}' || c == '\u{300F}' || c == '\u{3011}' || c == '\u{3009}' || c == '\u{300B}'
        || c == '\u{203A}' || c == '\u{00BB}'
}

/// Whether `text` ends with sentence-ending punctuation or a closing mark.
pub fn ends_with_terminator(text: &str) -> (r: bool)
    ensures
        r == spec_ends_with_terminator(text@),
{
    let v = chars_of(text);
    if v.len() == 0 {
        false
    } else {
        ending_punctuation(v[v.len() - 1])
    }
}

/// The result of canonical-compatibility decomposition (NFKD).
pub uninterp spec fn nfkd(s: Seq<char>) -> Seq<char>;

/// Calls `UnicodeNormalization::nfkd` of unicode-normalization and collects
/// the decomposed characters. The result depends on the text alone; this
/// contract only names it.
#[verifier::external_body]
fn nfkd_string(text: &str) -> (r: String)
    ensures
        r@ == nfkd(text@),
{
    text.nfkd().collect()
}

pub open spec fn not_emoji() -> spec_fn(char) -> bool {
    |c: char| !spec_is_emoji(c)
}

pub open spec fn not_special() -> spec_fn(char) -> bool {
    |c: char| !spec_is_special_symbol(c)
}

/// The abbreviations expanded before synthesis, in order.
pub open spec fn expansion_rules() -> Seq<(Seq<char>, Seq<char>)> {
    seq![("@"@, " at "@), ("e.g.,"@, "for example, "@), ("i.e.,"@, "that is, "@)]
}

fn expansion_rule_list() -> (r: Vec<(&'static str, &'static str)>)
    ensures
        r@.len() == expansion_rules().len(),
        forall|k: int|
            0 <= k < r@.len() ==> (#[trigger] r@[k]).0@ == expansion_rules()[k].0 && r@[k].1@
                == expansion_rules()[k].1 && expansion_rules()[k].0.len() > 0,
{
    let r = vec![("@", " at "), ("e.g.,", "for example, "), ("i.e.,", "that is, ")];
    proof {
        reveal_strlit("@");
        reveal_strlit("e.g.,");
        reveal_strlit("i.e.,");
    }
    assert(r@.map_values(|p: (&str, &str)| (p.0@, p.1@)) =~= expansion_rules());
    assert forall|k: int| 0 <= k < r@.len() implies (#[trigger] r@[k]).0@ == expansion_rules()[k].0
        && r@[k].1@ == expansion_rules()[k].1 && expansion_rules()[k].0.len() > 0 by {
        assert(r@.map_values(|p: (&str, &str)| (p.0@, p.1@))[k] == (r@[k].0@, r@[k].1@));
    }
    r
}

/// The normalized body of the text, before the language tags.
pub open spec fn preprocessed_body(text: Seq<char>) -> Seq<char> {
    let cleaned = keep(keep(nfkd(text), not_emoji()).map_values(|c: char| spec_normalize_symbol(c)), not_special());
    let expanded = replace_each(cleaned, expansion_rules(), 3);
    let collapsed = spec_collapse_whitespace(spec_dedupe_quotes(spec_fix_punctuation_spacing(expanded)));
    if spec_ends_with_terminator(collapsed) {
        collapsed
    } else {
        collapsed.push('.')
    }
}

/// The text the model reads: the normalized body between `<lang>` and `</lang>`.
pub open spec fn spec_preprocess(text: Seq<char>, lang: Seq<char>) -> Seq<char> {
    "<"@ + lang + ">"@ + preprocessed_body(text) + "</"@ + lang + ">"@
}

/// Normalizes `text` for the model (decomposition, emoji and symbol
/// cleanup, abbreviation expansion, spacing and quote fixes, whitespace
/// collapse, a final period when none ends it) and wraps it in `lang` tags.
pub fn preprocess(text: &str, lang: &str) -> (r: String)
    ensures
        r@ == spec_preprocess(text@, lang@),
{
    let decomposed = nfkd_string(text);
    let d = chars_of(decomposed.as_str());
    let mut no_emoji: Vec<char> = Vec::new();
    let mut i: usize = 0;
    while i < d.len()
        invariant
            0 <= i <= d@.len(),
            no_emoji@ == keep(d@.take(i as int), not_emoji()),
        decreases d@.len() - i,
    {
        assert(d@.take(i + 1).drop_last() =~= d@.take(i as int));
        if !is_emoji(d[i]) {
            no_emoji.push(d[i]);
        }
        i = i + 1;
    }
    assert(d@.take(d@.len() as int) =~= d@);
    let mut cleaned: Vec<char> = Vec::new();
    let ghost mapped = no_emoji@.map_values(|c: char| spec_normalize_symbol(c));
    let mut i: usize = 0;
    while i < no_emoji.len()
        invariant
            0 <= i <= no_emoji@.len(),
            mapped == no_emoji@.map_values(|c: char| spec_normalize_symbol(c)),
            cleaned@ == keep(mapped.take(i as int), not_special()),
        decreases no_emoji@.len() - i,
    {
        assert(mapped.take(i + 1).drop_last() =~= mapped.take(i as int));
        let c = normalize_symbols(no_emoji[i]);
        assert(mapped[i as int] == c);
        if !is_special_symbol(c) {
            cleaned.push(c);
        }
        i = i + 1;
    }
    assert(mapped.take(mapped.len() as int) =~= mapped);
    let rules = expansion_rule_list();
    let expanded = apply_rules(cleaned, &rules, Ghost(expansion_rules()));
    let expanded_text = string_of(&expanded, 0, expanded.len());
    assert(expanded@.subrange(0, expanded@.len() as int) =~= expanded@);
    assert(expanded_text@ == expanded@);
    let fixed = fix_punctuation_spacing(expanded_text.as_str());
    let deduped = dedupe_quotes(fixed.as_str());
    let collapsed = collapse_whitespace(deduped.as_str());
    let mut body = chars_of(collapsed.as_str());
    let ghost collapsed_view = collapsed@;
    assert(collapsed_view == spec_collapse_whitespace(
        spec_dedupe_quotes(spec_fix_punctuation_spacing(expanded@)),
    ));
    if !ends_with_terminator(collapsed.as_str()) {
        body.push('.');
    }
    assert(no_emoji@ == keep(nfkd(text@), not_emoji()));
    assert(cleaned@ == keep(
        keep(nfkd(text@), not_emoji()).map_values(|c: char| spec_normalize_symbol(c)),
        not_special(),
    ));
    assert(body@ == preprocessed_body(text@));
    let mut out: Vec<char> = Vec::new();
    let open = chars_of("<");
    let close = chars_of(">");
    let end_open = chars_of("</");
    let l = chars_of(lang);
    push_all(&mut out, &open);
    push_all(&mut out, &l);
    push_all(&mut out, &close);
    push_all(&mut out, &body);
    push_all(&mut out, &end_open);
    push_all(&mut out, &l);
    push_all(&mut out, &close);
    assert(out@ =~= spec_preprocess(text@, lang@));
    string_of(&out, 0, out.len())
}

// ---------------------------------------------------------------------------
// Chunking
// ---------------------------------------------------------------------------

/// Tokens whose final period never ends a sentence.
pub open spec fn protected_tokens() -> Seq<Seq<char>> {
    seq![
        "Mr."@, "Mrs."@, "Ms."@, "Dr."@, "Prof."@, "Sr."@, "Jr."@, "Ph.D."@, "etc."@, "e.g."@,
        "i.e."@, "vs."@, "Inc."@, "Ltd."@, "Co."@, "Corp."@, "St."@, "Ave."@, "Blvd."@,
    ]
}

fn protected_token_list() -> (r: Vec<&'static str>)
    ensures
        r@.len() == protected_tokens().len(),
        forall|k: int| 0 <= k < r@.len() ==> (#[trigger] r@[k])@ == protected_tokens()[k],
{
    let r = vec![
        "Mr.", "Mrs.", "Ms.", "Dr.", "Prof.", "Sr.", "Jr.", "Ph.D.", "etc.", "e.g.", "i.e.", "vs.",
        "Inc.", "Ltd.", "Co.", "Corp.", "St.", "Ave.", "Blvd.",
    ];
    assert(r@.map_values(|x: &str| x@) =~= protected_tokens());
    assert forall|k: int| 0 <= k < r@.len() implies (#[trigger] r@[k])@ == protected_tokens()[k] by {
        assert(r@.map_values(|x: &str| x@)[k] == r@[k]@);
    }
    r
}

/// Start of the run of ASCII letters, digits and periods that ends at `j`.
pub open spec fn token_start(s: Seq<char>, j: int) -> int
    decreases j,
{
    if 0 < j <= s.len() && (ascii_alnum(s[j - 1]) || s[j - 1] == '.') {
        token_start(s, j - 1)
    } else {
        j
    }
}

pub proof fn lemma_token_start(s: Seq<char>, j: int)
    requires
        0 <= j <= s.len(),
    ensures
        0 <= token_start(s, j) <= j,
    decreases j,
{
    if 0 < j && (ascii_alnum(s[j - 1]) || s[j - 1] == '.') {
        lemma_token_start(s, j - 1);
    }
}

/// The whitespace at `w` follows a period that belongs to a protected token
/// or to an uppercase abbreviation such as `U.S.` standing on its own.
pub open spec fn protected_at(s: Seq<char>, w: int) -> bool {
    &&& 0 < w <= s.len()
    &&& s[w - 1] == '.'
    &&& {
        let t0 = token_start(s, w - 1);
        let tok = s.subrange(t0, w);
        ||| protected_tokens().contains(tok)
        ||| {
            &&& tok.len() >= 2
            &&& ascii_upper(tok[tok.len() - 2])
            &&& (t0 == 0 || !(unicode_alphanumeric(s[t0 - 1]) || s[t0 - 1] == '_'))
        }
    }
}

/// Whether a sentence boundary at the whitespace index `w` is protected
/// (see `protected_at`).
pub fn is_protected_boundary(v: &Vec<char>, w: usize) -> (r: bool)
    requires
        w <= v@.len(),
    ensures
        r == protected_at(v@, w as int),
{
    if w == 0 || v[w - 1] != '.' {
        return false;
    }
    let dot = w - 1;
    let mut t0: usize = dot;
    while t0 > 0 && (is_ascii_alphanumeric(v[t0 - 1]) || v[t0 - 1] == '.')
        invariant
            0 <= t0 <= dot < v@.len(),
            token_start(v@, dot as int) == token_start(v@, t0 as int),
        decreases t0,
    {
        t0 = t0 - 1;
    }
    let ghost tok = v@.subrange(t0 as int, w as int);
    assert(token_start(v@, dot as int) == t0);
    let list = protected_token_list();
    let mut k: usize = 0;
    while k < list.len()
        invariant
            0 <= k <= list@.len(),
            list@.len() == protected_tokens().len(),
            forall|m: int| 0 <= m < list@.len() ==> (#[trigger] list@[m])@ == protected_tokens()[m],
            t0 <= w <= v@.len(),
            dot == w - 1,
            v@[dot as int] == '.',
            token_start(v@, dot as int) == t0,
            tok == v@.subrange(t0 as int, w as int),
            forall|m: int| 0 <= m < k ==> protected_tokens()[m] != tok,
        decreases list@.len() - k,
    {
        let item = chars_of(list[k]);
        if slice_eq(v, t0, w, &item) {
            assert(protected_tokens()[k as int] == tok);
            assert(token_start(v@, dot as int) == t0);
            assert(protected_tokens().contains(tok));
            return true;
        }
        k = k + 1;
    }
    assert(!protected_tokens().contains(tok));
    if w - t0 >= 2 && is_ascii_uppercase(v[w - 2]) {
        assert(tok[tok.len() - 2] == v@[w - 2]);
        if t0 == 0 {
            return true;
        }
        let c = v[t0 - 1];
        return !(is_alphanumeric(c) || c == '_');
    }
    proof {
        if tok.len() >= 2 {
            assert(tok[tok.len() - 2] == v@[w - 2]);
        }
    }
    false
}

/// End of the whitespace run that starts at `j`.
pub open spec fn ws_run_end(s: Seq<char>, j: int) -> int
    decreases s.len() - j,
{
    if 0 <= j < s.len() && unicode_whitespace(s[j]) {
        ws_run_end(s, j + 1)
    } else {
        j
    }
}

pub proof fn lemma_ws_run_end(s: Seq<char>, j: int)
    requires
        0 <= j <= s.len(),
    ensures
        j <= ws_run_end(s, j) <= s.len(),
    decreases s.len() - j,
{
    if j < s.len() && unicode_whitespace(s[j]) {
        lemma_ws_run_end(s, j + 1);
    }
}

/// Whether the whitespace at `idx` ends the sentence that began at `start`.
pub open spec fn abbrev_break_at(s: Seq<char>, idx: int, start: int) -> bool {
    &&& unicode_whitespace(s[idx])
    &&& idx > start
    &&& (s[idx - 1] == '.' || s[idx - 1] == '!' || s[idx - 1] == '?')
    &&& !protected_at(s, idx)
}

/// The sentences of `s` from index `idx` on, the current one having begun at `start`.
pub open spec fn abbrev_sentences_from(s: Seq<char>, idx: int, start: int) -> Seq<Seq<char>>
    decreases s.len() - idx,
{
    if idx < 0 || idx >= s.len() {
        if 0 <= start < s.len() {
            seq![s.subrange(start, s.len() as int)]
        } else {
            Seq::empty()
        }
    } else if abbrev_break_at(s, idx, start) {
        let next = ws_run_end(s, idx + 1);
        proof {
            lemma_ws_run_end(s, idx + 1);
        }
        seq![s.subrange(start, idx)] + abbrev_sentences_from(s, next, next)
    } else {
        abbrev_sentences_from(s, idx + 1, start)
    }
}

pub open spec fn spec_split_sentences_abbrev(s: Seq<char>) -> Seq<Seq<char>> {
    abbrev_sentences_from(s, 0, 0)
}

/// `token_start` looks only backwards: it is the same on a text and on its
/// prefix `a`.
proof fn lemma_token_start_prefix(s: Seq<char>, a: Seq<char>, j: int)
    requires
        a.len() <= s.len(),
        forall|m: int| 0 <= m < a.len() ==> #[trigger] s[m] == a[m],
        0 <= j <= a.len(),
    ensures
        token_start(s, j) == token_start(a, j),
    decreases j,
{
    if j > 0 {
        lemma_token_start_prefix(s, a, j - 1);
    }
}

/// `token_start` inside `b`, where `b` starts at `off` of `s` right after a
/// space.
proof fn lemma_token_start_shift(s: Seq<char>, b: Seq<char>, off: int, j: int)
    requires
        1 <= off,
        s.len() == off + b.len(),
        s[off - 1] == ' ',
        forall|m: int| 0 <= m < b.len() ==> #[trigger] s[off + m] == b[m],
        0 <= j <= b.len(),
    ensures
        token_start(s, off + j) == off + token_start(b, j),
    decreases j,
{
    if j > 0 {
        assert(s[off + (j - 1)] == b[j - 1]);
        lemma_token_start_shift(s, b, off, j - 1);
    }
}

proof fn lemma_ws_run_end_prefix(s: Seq<char>, a: Seq<char>, j: int)
    requires
        0 < a.len() <= s.len(),
        forall|m: int| 0 <= m < a.len() ==> #[trigger] s[m] == a[m],
        !unicode_whitespace(a[a.len() - 1]),
        0 <= j < a.len(),
    ensures
        ws_run_end(s, j) == ws_run_end(a, j),
        ws_run_end(a, j) < a.len(),
    decreases a.len() - j,
{
    if unicode_whitespace(a[j]) {
        lemma_ws_run_end_prefix(s, a, j + 1);
    }
}

proof fn lemma_ws_run_end_shift(s: Seq<char>, b: Seq<char>, off: int, j: int)
    requires
        0 <= off,
        s.len() == off + b.len(),
        forall|m: int| 0 <= m < b.len() ==> #[trigger] s[off + m] == b[m],
        0 <= j <= b.len(),
    ensures
        ws_run_end(s, off + j) == off + ws_run_end(b, j),
    decreases b.len() - j,
{
    if j < b.len() && unicode_whitespace(b[j]) {
        lemma_ws_run_end_shift(s, b, off, j + 1);
    }
}

proof fn lemma_shift_subrange(s: Seq<char>, b: Seq<char>, off: int, x: int, y: int)
    requires
        0 <= off,
        s.len() == off + b.len(),
        forall|m: int| 0 <= m < b.len() ==> #[trigger] s[off + m] == b[m],
        0 <= x <= y <= b.len(),
    ensures
        s.subrange(off + x, off + y) == b.subrange(x, y),
{
    assert forall|k: int| 0 <= k < y - x implies s.subrange(off + x, off + y)[k] == b.subrange(x, y)[k] by {
        assert(s[off + (x + k)] == b[x + k]);
    }
    assert(s.subrange(off + x, off + y) =~= b.subrange(x, y));
}

/// The sentences found in `b`, read inside `s` where `b` follows a space.
proof fn lemma_abbrev_shift(s: Seq<char>, b: Seq<char>, off: int, j: int, st: int)
    requires
        1 <= off,
        s.len() == off + b.len(),
        s[off - 1] == ' ',
        !unicode_alphanumeric(' '),
        forall|m: int| 0 <= m < b.len() ==> #[trigger] s[off + m] == b[m],
        0 <= st <= j <= b.len(),
    ensures
        abbrev_sentences_from(s, off + j, off + st) == abbrev_sentences_from(b, j, st),
    decreases b.len() - j,
{
    if j >= b.len() {
        if st < b.len() {
            lemma_shift_subrange(s, b, off, st, b.len() as int);
        }
    } else {
        assert(s[off + j] == b[j]);
        if j > 0 {
            assert(s[off + (j - 1)] == b[j - 1]);
            lemma_token_start_shift(s, b, off, j - 1);
            let t0 = token_start(b, j - 1);
            lemma_token_start(b, j - 1);
            lemma_shift_subrange(s, b, off, t0, j);
            if t0 > 0 {
                assert(s[off + (t0 - 1)] == b[t0 - 1]);
            }
        }
        assert(protected_at(s, off + j) == protected_at(b, j));
        assert(abbrev_break_at(s, off + j, off + st) == abbrev_break_at(b, j, st));
        if abbrev_break_at(b, j, st) {
            lemma_ws_run_end_shift(s, b, off, j + 1);
            lemma_ws_run_end(b, j + 1);
            let next = ws_run_end(b, j + 1);
            lemma_abbrev_shift(s, b, off, next, next);
            lemma_shift_subrange(s, b, off, st, j);
        } else {
            lemma_abbrev_shift(s, b, off, j + 1, st);
        }
    }
}

/// The sentences found in the prefix `a` of `s`, where `a` ends with `!`
/// or `?` and a space follows it: the same, then those after the space.
proof fn lemma_abbrev_prefix(s: Seq<char>, a: Seq<char>, idx: int, start: int)
    requires
        0 < a.len() < s.len(),
        forall|m: int| 0 <= m < a.len() ==> #[trigger] s[m] == a[m],
        a[a.len() - 1] == '!' || a[a.len() - 1] == '?',
        unicode_whitespace(s[a.len() as int]),
        0 <= start <= idx <= a.len(),
        start < a.len(),
    ensures
        abbrev_sentences_from(s, idx, start) == abbrev_sentences_from(a, idx, start) + abbrev_sentences_from(
            s,
            ws_run_end(s, a.len() as int + 1),
            ws_run_end(s, a.len() as int + 1),
        ),
    decreases a.len() - idx,
{
    let n = a.len() as int;
    if idx == n {
        assert(s[n - 1] == a[n - 1]);
        assert(!protected_at(s, n));
        assert(abbrev_break_at(s, n, start));
        assert(s.subrange(start, n) =~= a.subrange(start, n));
    } else {
        assert(s[idx] == a[idx]);
        if idx > 0 {
            assert(s[idx - 1] == a[idx - 1]);
            lemma_token_start_prefix(s, a, idx - 1);
            let t0 = token_start(a, idx - 1);
            lemma_token_start(a, idx - 1);
            assert(s.subrange(t0, idx) =~= a.subrange(t0, idx));
            if t0 > 0 {
                assert(s[t0 - 1] == a[t0 - 1]);
            }
        }
        assert(abbrev_break_at(s, idx, start) == abbrev_break_at(a, idx, start));
        if abbrev_break_at(a, idx, start) {
            assert(!unicode_whitespace(a[n - 1]));
            lemma_ws_run_end_prefix(s, a, idx + 1);
            let next = ws_run_end(a, idx + 1);
            lemma_ws_run_end(a, idx + 1);
            lemma_abbrev_prefix(s, a, next, next);
            assert(s.subrange(start, idx) =~= a.subrange(start, idx));
        } else {
            lemma_abbrev_prefix(s, a, idx + 1, start);
        }
    }
}

/// An exclamation or question mark followed by whitespace always ends a
/// sentence: the sentences of `a + " " + b`, where `a` ends with `!` or `?`
/// and `b` starts with a character that is not whitespace, are those of
/// `a` followed by those of `b`. (It rests on the space not being
/// alphanumeric, which `char::is_alphanumeric` reports and this library
/// names without stating.)
pub proof fn lemma_exclamation_ends_sentence(a: Seq<char>, b: Seq<char>)
    requires
        !unicode_alphanumeric(' '),
        a.len() > 0,
        a.last() == '!' || a.last() == '?',
        b.len() > 0,
        !unicode_whitespace(b[0]),
    ensures
        spec_split_sentences_abbrev(a + seq![' '] + b) == spec_split_sentences_abbrev(a)
            + spec_split_sentences_abbrev(b),
{
    let s = a + seq![' '] + b;
    let off = a.len() as int + 1;
    assert forall|m: int| 0 <= m < a.len() implies #[trigger] s[m] == a[m] by {}
    assert forall|m: int| 0 <= m < b.len() implies #[trigger] s[off + m] == b[m] by {}
    assert(s[a.len() as int] == ' ');
    assert(unicode_whitespace(' '));
    lemma_abbrev_prefix(s, a, 0, 0);
    assert(s[off] == b[0]);
    assert(ws_run_end(s, off) == off);
    lemma_abbrev_shift(s, b, off, 0, 0);
}

/// Bounds of the sentences of `v` (see `abbrev_sentences_from`).
fn abbrev_sentence_bounds(v: &Vec<char>) -> (r: Vec<(usize, usize)>)
    ensures
        r@.len() == spec_split_sentences_abbrev(v@).len(),
        forall|k: int|
            0 <= k < r@.len() ==> (#[trigger] r@[k]).0 <= r@[k].1 <= v@.len() && v@.subrange(
                r@[k].0 as int,
                r@[k].1 as int,
            ) == spec_split_sentences_abbrev(v@)[k],
{
    let ghost s = v@;
    let n = v.len();
    let mut r: Vec<(usize, usize)> = Vec::new();
    let ghost mut done: Seq<Seq<char>> = Seq::empty();
    let mut start: usize = 0;
    let mut idx: usize = 0;
    while idx < n
        invariant
            s == v@,
            n == v@.len(),
            start <= idx <= n,
            done + abbrev_sentences_from(s, idx as int, start as int) == spec_split_sentences_abbrev(s),
            r@.len() == done.len(),
            forall|k: int|
                0 <= k < r@.len() ==> (#[trigger] r@[k]).0 <= r@[k].1 <= n && s.subrange(
                    r@[k].0 as int,
                    r@[k].1 as int,
                ) == done[k],
        decreases n - idx,
    {
        let c = v[idx];
        if is_whitespace(c) && idx > start {
            let previous = v[idx - 1];
            if (previous == '.' || previous == '!' || previous == '?') && !is_protected_boundary(v, idx) {
                proof {
                    done = done + seq![s.subrange(start as int, idx as int)];
                }
                r.push((start, idx));
                let mut next: usize = idx + 1;
                while next < n && is_whitespace(v[next])
                    invariant
                        idx + 1 <= next <= n,
                        n == v@.len(),
                        s == v@,
                        ws_run_end(s, idx + 1) == ws_run_end(s, next as int),
                    decreases n - next,
                {
                    next = next + 1;
                }
                start = next;
                idx = next;
                continue;
            }
        }
        idx = idx + 1;
    }
    if start < n {
        proof {
            done = done + seq![s.subrange(start as int, n as int)];
        }
        r.push((start, n));
    }
    assert(done =~= spec_split_sentences_abbrev(s));
    r
}

/// Splits a paragraph after `.`, `!` or `?` followed by whitespace, except
/// after protected abbreviations; whitespace between sentences is dropped.
pub fn split_sentences_abbrev(paragraph: &str) -> (r: Vec<String>)
    ensures
        views(r@) == spec_split_sentences_abbrev(paragraph@),
{
    let v = chars_of(paragraph);
    let bounds = abbrev_sentence_bounds(&v);
    let mut out: Vec<String> = Vec::new();
    let mut k: usize = 0;
    while k < bounds.len()
        invariant
            0 <= k <= bounds@.len(),
            v@ == paragraph@,
            bounds@.len() == spec_split_sentences_abbrev(v@).len(),
            forall|m: int|
                0 <= m < bounds@.len() ==> (#[trigger] bounds@[m]).0 <= bounds@[m].1 <= v@.len()
                    && v@.subrange(bounds@[m].0 as int, bounds@[m].1 as int)
                    == spec_split_sentences_abbrev(v@)[m],
            views(out@) == spec_split_sentences_abbrev(v@).take(k as int),
        decreases bounds@.len() - k,
    {
        let (a, b) = bounds[k];
        let ghost before = out@;
        out.push(string_of(&v, a, b));
        assert(views(out@) =~= views(before).push(v@.subrange(a as int, b as int)));
        assert(spec_split_sentences_abbrev(v@).take(k + 1) =~= spec_split_sentences_abbrev(v@).take(
            k as int,
        ).push(spec_split_sentences_abbrev(v@)[k as int]));
        k = k + 1;
    }
    assert(spec_split_sentences_abbrev(v@).take(bounds@.len() as int) =~= spec_split_sentences_abbrev(v@));
    out
}

/// The pieces of `s` between occurrences of a blank line (`"\n\n"`), from
/// index `i` on, the current piece having begun at `start`.
pub open spec fn paragraphs_from(s: Seq<char>, i: int, start: int) -> Seq<Seq<char>>
    decreases s.len() - i,
{
    if i < 0 || i >= s.len() {
        seq![s.subrange(start, s.len() as int)]
    } else if i + 1 < s.len() && s[i] == '\n' && s[i + 1] == '\n' {
        seq![s.subrange(start, i)] + paragraphs_from(s, i + 2, i + 2)
    } else {
        paragraphs_from(s, i + 1, start)
    }
}

/// What `str::split("\n\n")` yields.
pub open spec fn paragraphs(s: Seq<char>) -> Seq<Seq<char>> {
    paragraphs_from(s, 0, 0)
}

fn paragraph_bounds(v: &Vec<char>) -> (r: Vec<(usize, usize)>)
    ensures
        r@.len() == paragraphs(v@).len(),
        forall|k: int|
            0 <= k < r@.len() ==> (#[trigger] r@[k]).0 <= r@[k].1 <= v@.len() && v@.subrange(
                r@[k].0 as int,
                r@[k].1 as int,
            ) == paragraphs(v@)[k],
{
    let ghost s = v@;
    let n = v.len();
    let mut r: Vec<(usize, usize)> = Vec::new();
    let ghost mut done: Seq<Seq<char>> = Seq::empty();
    let mut start: usize = 0;
    let mut i: usize = 0;
    while i < n
        invariant
            s == v@,
            n == v@.len(),
            start <= i <= n,
            done + paragraphs_from(s, i as int, start as int) == paragraphs(s),
            r@.len() == done.len(),
            forall|k: int|
                0 <= k < r@.len() ==> (#[trigger] r@[k]).0 <= r@[k].1 <= n && s.subrange(
                    r@[k].0 as int,
                    r@[k].1 as int,
                ) == done[k],
        decreases n - i,
    {
        if i + 1 < n && v[i] == '\n' && v[i + 1] == '\n' {
            proof {
                done = done + seq![s.subrange(start as int, i as int)];
            }
            r.push((start, i));
            i = i + 2;
            start = i;
        } else {
            i = i + 1;
        }
    }
    proof {
        done = done + seq![s.subrange(start as int, n as int)];
    }
    r.push((start, n));
    assert(done =~= paragraphs(s));
    r
}

/// Chunks made by joining the trimmed sentences `sents[k..]` with single
/// spaces while the byte length stays under `max_len`, `current` being the
/// chunk under construction.
pub open spec fn merge_from(sents: Seq<Seq<char>>, k: int, current: Seq<char>, max_len: nat) -> Seq<Seq<char>>
    decreases sents.len() - k,
{
    if k < 0 || k >= sents.len() {
        if current.len() > 0 {
            seq![current]
        } else {
            Seq::empty()
        }
    } else {
        let t = trim(sents[k]);
        if t.len() == 0 {
            merge_from(sents, k + 1, current, max_len)
        } else if current.len() == 0 {
            merge_from(sents, k + 1, t, max_len)
        } else if byte_len(current) + byte_len(t) < max_len {
            merge_from(sents, k + 1, current + seq![' '] + t, max_len)
        } else {
            seq![current] + merge_from(sents, k + 1, t, max_len)
        }
    }
}

/// The chunks of the paragraphs `paras[j..]`.
pub open spec fn chunks_from(paras: Seq<Seq<char>>, j: int, max_len: nat) -> Seq<Seq<char>>
    decreases paras.len() - j,
{
    if j < 0 || j >= paras.len() {
        Seq::empty()
    } else {
        let p = trim(paras[j]);
        (if p.len() == 0 {
            Seq::empty()
        } else {
            merge_from(spec_split_sentences_abbrev(p), 0, Seq::empty(), max_len)
        }) + chunks_from(paras, j + 1, max_len)
    }
}

/// Chunks of at most about `max_len` bytes, never splitting a sentence or
/// joining across blank lines; the trimmed text when there is none.
pub open spec fn spec_chunk_text(s: Seq<char>, max_len: nat) -> Seq<Seq<char>> {
    let c = chunks_from(paragraphs(s), 0, max_len);
    if c.len() == 0 {
        seq![trim(s)]
    } else {
        c
    }
}

fn trimmed_string(s: &str) -> (r: String)
    ensures
        r@ == trim(s@),
{
    let v = chars_of(s);
    let (a, b) = trim_bounds(&v, 0, v.len());
    assert(v@.subrange(0, v@.len() as int) =~= v@);
    string_of(&v, a, b)
}

fn merge_sentences(chunks: &mut Vec<String>, sents: &Vec<String>, max_len: usize)
    ensures
        views(final(chunks)@) == views(old(chunks)@) + merge_from(views(sents@), 0, Seq::empty(), max_len as nat),
{
    let ghost ss = views(sents@);
    let mut current: Vec<char> = Vec::new();
    let mut current_len: usize = 0;
    let mut k: usize = 0;
    while k < sents.len()
        invariant
            0 <= k <= sents@.len(),
            ss == views(sents@),
            current_len == capped_byte_len(current@),
            views(chunks@) + merge_from(ss, k as int, current@, max_len as nat) == views(old(chunks)@)
                + merge_from(ss, 0, Seq::empty(), max_len as nat),
        decreases sents@.len() - k,
    {
        let whole = chars_of(sents[k].as_str());
        let (a, b) = trim_bounds(&whole, 0, whole.len());
        let t = slice_of(&whole, a, b);
        let ghost old_cur = current@;
        let ghost old_chunks = chunks@;
        proof {
            assert(whole@.subrange(0, whole@.len() as int) =~= whole@);
            assert(ss[k as int] == sents@[k as int]@);
            assert(t@ == trim(ss[k as int]));
        }
        if a < b {
            let t_len = capped_byte_len_of(&t);
            if current.len() == 0 {
                current = t;
                current_len = t_len;
            } else {
                let fits = match current_len.checked_add(t_len) {
                    Some(total) => total < max_len,
                    None => false,
                };
                proof {
                    lemma_encode_concat(old_cur + seq![' '], t@);
                    lemma_encode_concat(old_cur, seq![' ']);
                    lemma_byte_len_single(' ');
                    assert(encode_scalar(' ' as u32).len() == 1);
                    assert(fits == (byte_len(old_cur) + byte_len(t@) < max_len));
                }
                if fits {
                    current.push(' ');
                    push_all(&mut current, &t);
                    assert(current@ == old_cur + seq![' '] + t@);
                    current_len = current_len + 1 + t_len;
                } else {
                    chunks.push(string_of(&current, 0, current.len()));
                    assert(old_cur.subrange(0, old_cur.len() as int) =~= old_cur);
                    assert(views(chunks@) =~= views(old_chunks) + seq![old_cur]);
                    current = t;
                    current_len = t_len;
                }
            }
        }
        k = k + 1;
    }
    if current.len() > 0 {
        let ghost before = chunks@;
        let ghost cur = current@;
        chunks.push(string_of(&current, 0, current.len()));
        assert(current@.subrange(0, current@.len() as int) =~= current@);
        assert(views(chunks@) =~= views(before) + seq![cur]);
    }
}

/// Groups the sentences of `text` into chunks under `max_len` bytes
/// (see `spec_chunk_text`).
pub fn chunk_text(text: &str, max_len: usize) -> (r: Vec<String>)
    ensures
        views(r@) == spec_chunk_text(text@, max_len as nat),
{
    let v = chars_of(text);
    let paras = paragraph_bounds(&v);
    let ghost ps = paragraphs(v@);
    let mut chunks: Vec<String> = Vec::new();
    let mut j: usize = 0;
    while j < paras.len()
        invariant
            0 <= j <= paras@.len(),
            v@ == text@,
            ps == paragraphs(v@),
            paras@.len() == ps.len(),
            forall|k: int|
                0 <= k < paras@.len() ==> (#[trigger] paras@[k]).0 <= paras@[k].1 <= v@.len()
                    && v@.subrange(paras@[k].0 as int, paras@[k].1 as int) == ps[k],
            views(chunks@) + chunks_from(ps, j as int, max_len as nat) == chunks_from(ps, 0, max_len as nat),
        decreases paras@.len() - j,
    {
        let (lo, hi) = paras[j];
        let (a, b) = trim_bounds(&v, lo, hi);
        if a < b {
            let para = string_of(&v, a, b);
            let sents = split_sentences_abbrev(para.as_str());
            let ghost before = chunks@;
            merge_sentences(&mut chunks, &sents, max_len);
            assert(views(chunks@) + chunks_from(ps, j + 1, max_len as nat) =~= views(before) + (
            merge_from(spec_split_sentences_abbrev(trim(ps[j as int])), 0, Seq::empty(), max_len as nat)
                + chunks_from(ps, j + 1, max_len as nat)));
        } else {
            assert(chunks_from(ps, j as int, max_len as nat) =~= chunks_from(ps, j + 1, max_len as nat));
        }
        j = j + 1;
    }
    assert(views(chunks@) =~= chunks_from(ps, 0, max_len as nat));
    if chunks.len() == 0 {
        let mut only: Vec<String> = Vec::new();
        only.push(trimmed_string(text));
        assert(views(only@) =~= seq![trim(text@)]);
        return only;
    }
    chunks
}

/// Model indices of the characters of `text`: each character's code point
/// modulo 65536 looked up in `indexer`, -1 when outside it.
pub open spec fn spec_index_text(indexer: Seq<i32>, text: Seq<char>) -> Seq<i64> {
    text.map_values(
        |c: char|
            {
                let code = ((c as u32) % 65536) as int;
                if code < indexer.len() {
                    indexer[code] as i64
                } else {
                    -1i64
                }
            },
    )
}

pub fn index_text(indexer: &[i32], preprocessed: &str) -> (r: Vec<i64>)
    ensures
        r@ == spec_index_text(indexer@, preprocessed@),
{
    let v = chars_of(preprocessed);
    let mut out: Vec<i64> = Vec::new();
    let mut i: usize = 0;
    while i < v.len()
        invariant
            0 <= i <= v@.len(),
            v@ == preprocessed@,
            out@ == spec_index_text(indexer@, v@.take(i as int)),
        decreases v@.len() - i,
    {
        let code: usize = ((v[i] as u32) % 65536) as usize;
        let value: i64 = if code < indexer.len() {
            indexer[code] as i64
        } else {
            -1
        };
        out.push(value);
        assert(spec_index_text(indexer@, v@.take(i + 1)) =~= spec_index_text(indexer@, v@.take(i as int)).push(value));
        i = i + 1;
    }
    assert(v@.take(v@.len() as int) =~= v@);
    out
}

// ---------------------------------------------------------------------------
// Voice style tensors
// ---------------------------------------------------------------------------

/// A voice style as stored on disk: the tensor's dimensions and its values
/// nested three deep.
pub struct StyleTensorFile<T> {
    pub dims: Vec<usize>,
    pub data: Vec<Vec<Vec<T>>>,
}

/// The values of `planes`, in order.
pub open spec fn flatten_planes<T>(planes: Seq<Vec<Vec<T>>>) -> Seq<T>
    decreases planes.len(),
{
    if planes.len() == 0 {
        Seq::empty()
    } else {
        flatten_planes(planes.drop_last()) + concat_chunks(planes.last()@)
    }
}

/// The style's value count does not match the product of its dimensions.
#[derive(Clone, Copy, Debug, PartialEq, Eq, Structural)]
pub struct StyleShapeError {
    pub values: usize,
    pub expected: usize,
}

/// The style's dimensions and flattened values, or the mismatch between the
/// number of values and the product of the dimensions.
pub fn flatten_style_tensor<T: Copy>(tensor: StyleTensorFile<T>) -> (r: Result<(Vec<usize>, Vec<T>), StyleShapeError>)
    requires
        prefix_products_fit(tensor.dims@),
    ensures
        ({
            let values = flatten_planes(tensor.data@);
            let expected = prefix_product(tensor.dims@, tensor.dims@.len() as int);
            match r {
                Ok((dims, data)) => values.len() == expected && dims@ == tensor.dims@ && data@ == values,
                Err(e) => values.len() != expected && e.values == values.len() && e.expected == expected,
            }
        }),
{
    let planes = &tensor.data;
    let mut out: Vec<T> = Vec::new();
    let mut i: usize = 0;
    while i < planes.len()
        invariant
            0 <= i <= planes@.len(),
            out@ == flatten_planes(planes@.take(i as int)),
        decreases planes@.len() - i,
    {
        let rows = &planes[i];
        let ghost before = out@;
        let mut j: usize = 0;
        while j < rows.len()
            invariant
                0 <= j <= rows@.len(),
                out@ == before + concat_chunks(rows@.take(j as int)),
            decreases rows@.len() - j,
        {
            let row = &rows[j];
            let ghost mid = out@;
            let mut k: usize = 0;
            while k < row.len()
                invariant
                    0 <= k <= row@.len(),
                    out@ == mid + row@.take(k as int),
                decreases row@.len() - k,
            {
                out.push(row[k]);
                assert(out@ =~= mid + row@.take(k + 1));
                k = k + 1;
            }
            assert(row@.take(row@.len() as int) =~= row@);
            assert(rows@.take(j + 1).drop_last() =~= rows@.take(j as int));
            assert(out@ =~= before + concat_chunks(rows@.take(j + 1)));
            j = j + 1;
        }
        assert(rows@.take(rows@.len() as int) =~= rows@);
        assert(planes@.take(i + 1).drop_last() =~= planes@.take(i as int));
        assert(out@ =~= flatten_planes(planes@.take(i + 1)));
        i = i + 1;
    }
    assert(planes@.take(planes@.len() as int) =~= planes@);
    let expected = dims_product(&tensor.dims);
    if out.len() != expected {
        return Err(StyleShapeError { values: out.len(), expected });
    }
    Ok((tensor.dims, out))
}

/// Product of `dims[..k]`, multiplied from the left.
pub open spec fn prefix_product(dims: Seq<usize>, k: int) -> int
    decreases k,
{
    if k <= 0 {
        1
    } else {
        prefix_product(dims, k - 1) * dims[k - 1]
    }
}

/// Every product of a prefix of `dims` fits in a `usize`.
pub open spec fn prefix_products_fit(dims: Seq<usize>) -> bool {
    forall|k: int| 0 <= k <= dims.len() ==> #[trigger] prefix_product(dims, k) <= usize::MAX
}

/// Product of `dims`, multiplied from the left.
fn dims_product(dims: &Vec<usize>) -> (r: usize)
    requires
        prefix_products_fit(dims@),
    ensures
        r == prefix_product(dims@, dims@.len() as int),
{
    let n = dims.len();
    let mut acc: usize = 1;
    let mut k: usize = 0;
    while k < n
        invariant
            k <= n == dims@.len(),
            acc == prefix_product(dims@, k as int),
            prefix_products_fit(dims@),
        decreases n - k,
    {
        assert(prefix_product(dims@, k + 1) <= usize::MAX);
        assert(prefix_product(dims@, k + 1) == prefix_product(dims@, k as int) * dims@[k as int]);
        acc = acc * dims[k];
        k = k + 1;
    }
    acc
}

} // verus!
