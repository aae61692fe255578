//! Sentence segmentation for speech synthesis: text is cut after `!`, `?`,
//! newlines and sentence-final periods, keeping closing quotes and brackets
//! with their sentence. Periods inside ellipses, decimals, initials and
//! known abbreviations, or followed by a lowercase word or a digit, do not
//! end a sentence.

use vstd::prelude::*;
use crate::text::{
    ascii_digit, ascii_upper, chars_of, eq_ignore_ascii_case, is_ascii_digit, is_ascii_uppercase,
    is_lowercase, is_whitespace, lemma_last_word, lemma_trim_edges, lemma_trim_end_shape, not_alnum,
    slice_eq_ignore_ascii_case, string_of, trim, trim_bounds, trim_bounds_by, trim_by, trim_end,
    trim_end_by, trim_end_index, trim_start, trim_start_by, trim_start_index, unicode_lowercase,
    unicode_whitespace, words, words_from, ws, lemma_trim_start_shape,
};

verus! {

/// Synthesis quality shared by the speech engines.
#[derive(Clone, Copy, Debug, PartialEq, Eq, Structural)]
pub enum Quality {
    Low,
    High,
}

/// The abbreviations whose trailing period does not end a sentence.
pub open spec fn abbreviations() -> Seq<Seq<char>> {
    seq![
        "Mr"@, "Mrs"@, "Ms"@, "Miss"@, "Dr"@, "Prof"@, "St"@, "Ave"@, "Blvd"@, "Rd"@, "Jr"@,
        "Sr"@, "vs"@, "etc"@, "e.g"@, "i.e"@, "al"@, "Capt"@, "Sgt"@, "Lt"@, "Col"@, "Gen"@,
        "Mt"@, "Ft"@, "U.S"@, "U.K"@, "D.C"@, "Ph.D"@, "M.D"@, "B.A"@, "M.A"@,
    ]
}

fn abbreviation_list() -> (r: Vec<&'static str>)
    ensures
        r@.len() == abbreviations().len(),
        forall|k: int| 0 <= k < r@.len() ==> (#[trigger] r@[k])@ == abbreviations()[k],
{
    let r = vec![
        "Mr", "Mrs", "Ms", "Miss", "Dr", "Prof", "St", "Ave", "Blvd", "Rd", "Jr", "Sr", "vs", "etc",
        "e.g", "i.e", "al", "Capt", "Sgt", "Lt", "Col", "Gen", "Mt", "Ft", "U.S", "U.K", "D.C",
        "Ph.D", "M.D", "B.A", "M.A",
    ];
    assert(r@.map_values(|s: &str| s@) =~= abbreviations());
    assert forall|k: int| 0 <= k < r@.len() implies (#[trigger] r@[k])@ == abbreviations()[k] by {
        assert(r@.map_values(|s: &str| s@)[k] == r@[k]@);
    }
    r
}

/// A token is an abbreviation when, stripped of surrounding characters that
/// are not ASCII letters or digits, it matches a listed abbreviation
/// ignoring ASCII case.
pub open spec fn is_abbreviation_token(token: Seq<char>) -> bool {
    exists|k: int|
        0 <= k < abbreviations().len() && eq_ignore_ascii_case(
            #[trigger] abbreviations()[k],
            trim_by(token, not_alnum()),
        )
}

/// Whether `v[lo..hi]` is an abbreviation token.
pub fn is_abbreviation(v: &Vec<char>, lo: usize, hi: usize) -> (r: bool)
    requires
        lo <= hi <= v@.len(),
    ensures
        r == is_abbreviation_token(v@.subrange(lo as int, hi as int)),
{
    let (a, b) = trim_bounds_by(v, lo, hi, true);
    let ghost t = v@.subrange(a as int, b as int);
    let list = abbreviation_list();
    let mut k: usize = 0;
    while k < list.len()
        invariant
            0 <= k <= list@.len(),
            list@.len() == abbreviations().len(),
            forall|m: int| 0 <= m < list@.len() ==> (#[trigger] list@[m])@ == abbreviations()[m],
            lo <= a <= b <= hi <= v@.len(),
            t == v@.subrange(a as int, b as int),
            t == trim_by(v@.subrange(lo as int, hi as int), not_alnum()),
            forall|m: int| 0 <= m < k ==> !eq_ignore_ascii_case(#[trigger] abbreviations()[m], t),
        decreases list@.len() - k,
    {
        let w = chars_of(list[k]);
        if slice_eq_ignore_ascii_case(v, a, b, &w) {
            assert(eq_ignore_ascii_case(abbreviations()[k as int], t));
            return true;
        }
        k = k + 1;
    }
    false
}

/// Characters that close a sentence together with its terminator.
pub open spec fn is_closer(c: char) -> bool {
    c == '"' || c == '\'' || c == ')' || c == ']' || c == '}' || c == '»' || c == '”'
}

/// A period between two ASCII digits.
pub open spec fn decimal_point_at(s: Seq<char>, i: int) -> bool {
    &&& s[i] == '.'
    &&& 0 < i && i + 1 < s.len()
    &&& ascii_digit(s[i - 1])
    &&& ascii_digit(s[i + 1])
}

/// A period after a single uppercase letter that stands alone (preceded by
/// whitespace, a quote or an opening bracket, or nothing).
pub open spec fn initial_at(s: Seq<char>, i: int) -> bool {
    &&& s[i] == '.'
    &&& {
        let b = trim_end(s.take(i));
        &&& b.len() > 0
        &&& ascii_upper(b.last())
        &&& (b.len() == 1 || {
            let c = b[b.len() - 2];
            unicode_whitespace(c) || c == '"' || c == '\'' || c == '(' || c == '['
        })
    }
}

/// The next non-whitespace character after `i` is lowercase or a digit.
pub open spec fn continues_at(s: Seq<char>, i: int) -> bool {
    let r = trim_start(s.skip(i + 1));
    r.len() > 0 && (unicode_lowercase(r[0]) || ascii_digit(r[0]))
}

/// The last word before `i` is an abbreviation.
pub open spec fn after_abbreviation(s: Seq<char>, i: int) -> bool {
    let w = words(trim_end(s.take(i)));
    w.len() > 0 && is_abbreviation_token(w.last())
}

/// Whether the character at `i` ends a sentence.
pub open spec fn terminator_at(s: Seq<char>, i: int) -> bool {
    let c = s[i];
    ||| c == '!'
    ||| c == '?'
    ||| c == '\n'
    ||| {
        &&& c == '.'
        &&& !(i > 0 && s[i - 1] == '.')
        &&& !(i + 1 < s.len() && s[i + 1] == '.')
        &&& !decimal_point_at(s, i)
        &&& !initial_at(s, i)
        &&& !continues_at(s, i)
        &&& !after_abbreviation(s, i)
    }
}

pub fn is_decimal_point(v: &Vec<char>, i: usize) -> (r: bool)
    requires
        i < v@.len(),
    ensures
        r == decimal_point_at(v@, i as int),
{
    let n = v.len();
    v[i] == '.' && i > 0 && i + 1 < n && is_ascii_digit(v[i - 1]) && is_ascii_digit(v[i + 1])
}

pub fn is_initial(v: &Vec<char>, i: usize) -> (r: bool)
    requires
        i < v@.len(),
    ensures
        r == initial_at(v@, i as int),
{
    if v[i] != '.' {
        return false;
    }
    let j = trim_end_index(v, 0, i, false);
    assert(v@.take(i as int) =~= v@.subrange(0, i as int));
    let ghost b = v@.subrange(0, j as int);
    if j == 0 {
        return false;
    }
    assert(b.last() == v@[j - 1]);
    if !is_ascii_uppercase(v[j - 1]) {
        return false;
    }
    if j == 1 {
        return true;
    }
    let c = v[j - 2];
    assert(b[b.len() - 2] == c);
    is_whitespace(c) || c == '"' || c == '\'' || c == '(' || c == '['
}

fn continues_after(v: &Vec<char>, i: usize) -> (r: bool)
    requires
        i < v@.len(),
    ensures
        r == continues_at(v@, i as int),
{
    let n = v.len();
    let k = trim_start_index(v, i + 1, n, false);
    assert(v@.skip(i + 1) =~= v@.subrange(i + 1, v@.len() as int));
    let ghost r = v@.subrange(k as int, v@.len() as int);
    if k < v.len() {
        assert(r[0] == v@[k as int]);
        is_lowercase(v[k]) || is_ascii_digit(v[k])
    } else {
        false
    }
}

fn follows_abbreviation(v: &Vec<char>, i: usize) -> (r: bool)
    requires
        i < v@.len(),
    ensures
        r == after_abbreviation(v@, i as int),
{
    let j = trim_end_index(v, 0, i, false);
    assert(v@.take(i as int) =~= v@.subrange(0, i as int));
    let ghost t = v@.subrange(0, j as int);
    if j == 0 {
        assert(words(t) == Seq::<Seq<char>>::empty());
        return false;
    }
    proof {
        lemma_trim_end_shape(v@.subrange(0, i as int), ws());
    }
    assert(!unicode_whitespace(t.last()));
    let mut k: usize = j;
    while k > 0 && !is_whitespace(v[k - 1])
        invariant
            0 <= k <= j <= i < v@.len(),
            t == v@.subrange(0, j as int),
            k <= j,
            forall|m: int| k <= m < j ==> !unicode_whitespace(#[trigger] t[m]),
        decreases k,
    {
        k = k - 1;
    }
    proof {
        if k > 0 {
            assert(t[k - 1] == v@[k - 1]);
        }
        lemma_last_word(t, k as int, 0);
        assert(t.subrange(k as int, j as int) =~= v@.subrange(k as int, j as int));
    }
    is_abbreviation(v, k, j)
}

pub fn is_terminator(v: &Vec<char>, i: usize) -> (r: bool)
    requires
        i < v@.len(),
    ensures
        r == terminator_at(v@, i as int),
{
    let c = v[i];
    if c == '!' || c == '?' || c == '\n' {
        return true;
    }
    if c != '.' {
        return false;
    }
    if i > 0 && v[i - 1] == '.' {
        return false;
    }
    let n = v.len();
    if i + 1 < n && v[i + 1] == '.' {
        return false;
    }
    if is_decimal_point(v, i) || is_initial(v, i) {
        return false;
    }
    if continues_after(v, i) {
        return false;
    }
    !follows_abbreviation(v, i)
}

/// End of the run of closing characters that starts at `e`.
pub open spec fn closer_end(s: Seq<char>, e: int) -> int
    decreases s.len() - e,
{
    if 0 <= e < s.len() && is_closer(s[e]) {
        closer_end(s, e + 1)
    } else {
        e
    }
}

pub proof fn lemma_closer_end(s: Seq<char>, e: int)
    requires
        0 <= e <= s.len(),
    ensures
        e <= closer_end(s, e) <= s.len(),
    decreases s.len() - e,
{
    if e < s.len() && is_closer(s[e]) {
        lemma_closer_end(s, e + 1);
    }
}

/// `seq![t]` when `t` is not empty, else nothing.
pub open spec fn nonempty(t: Seq<char>) -> Seq<Seq<char>> {
    if t.len() > 0 {
        seq![t]
    } else {
        Seq::empty()
    }
}

/// The sentences of `s` found scanning from index `i`, the current sentence
/// having started at `start`.
pub open spec fn sentences_from(s: Seq<char>, i: int, start: int) -> Seq<Seq<char>>
    decreases s.len() - i,
{
    if i < 0 || i >= s.len() {
        nonempty(trim(s.subrange(start, s.len() as int)))
    } else if terminator_at(s, i) {
        let end = closer_end(s, i + 1);
        nonempty(trim(s.subrange(start, end))) + sentences_from(s, i + 1, end)
    } else {
        sentences_from(s, i + 1, start)
    }
}

/// The sentences of `s`; the trimmed text itself when no sentence is found.
pub open spec fn spec_split_sentences(s: Seq<char>) -> Seq<Seq<char>> {
    let found = sentences_from(s, 0, 0);
    if found.len() == 0 {
        seq![trim(s)]
    } else {
        found
    }
}

/// A sentence as the splitter returns it: not empty, and neither starting
/// nor ending with whitespace.
pub open spec fn clean_sentence(t: Seq<char>) -> bool {
    t.len() > 0 && !unicode_whitespace(t[0]) && !unicode_whitespace(t.last())
}

proof fn lemma_nonempty_trim_clean(x: Seq<char>)
    ensures
        forall|k: int| 0 <= k < nonempty(trim(x)).len() ==> clean_sentence(#[trigger] nonempty(trim(x))[k]),
{
    lemma_trim_edges(x, ws());
}

proof fn lemma_sentences_from_clean(s: Seq<char>, i: int, start: int)
    ensures
        forall|k: int|
            0 <= k < sentences_from(s, i, start).len() ==> clean_sentence(#[trigger] sentences_from(s, i, start)[k]),
    decreases s.len() - i,
{
    if i < 0 || i >= s.len() {
        lemma_nonempty_trim_clean(s.subrange(start, s.len() as int));
        assert(sentences_from(s, i, start) == nonempty(trim(s.subrange(start, s.len() as int))));
    } else if terminator_at(s, i) {
        let end = closer_end(s, i + 1);
        let a = nonempty(trim(s.subrange(start, end)));
        let b = sentences_from(s, i + 1, end);
        lemma_nonempty_trim_clean(s.subrange(start, end));
        lemma_sentences_from_clean(s, i + 1, end);
        assert(sentences_from(s, i, start) == a + b);
        assert forall|k: int| 0 <= k < (a + b).len() implies clean_sentence(#[trigger] (a + b)[k]) by {
            if k < a.len() {
                assert((a + b)[k] == a[k]);
            } else {
                assert((a + b)[k] == b[k - a.len()]);
            }
        }
    } else {
        lemma_sentences_from_clean(s, i + 1, start);
        assert(sentences_from(s, i, start) == sentences_from(s, i + 1, start));
    }
}

/// Every sentence that `split_sentences` returns is non-empty and neither
/// starts nor ends with whitespace, except when the text holds no sentence:
/// then the one result is the trimmed text, which may be empty.
pub proof fn lemma_split_sentences_clean(s: Seq<char>)
    ensures
        forall|k: int|
            0 <= k < spec_split_sentences(s).len() ==> clean_sentence(#[trigger] spec_split_sentences(s)[k])
                || spec_split_sentences(s) == seq![trim(s)],
        spec_split_sentences(s).len() >= 1,
{
    lemma_sentences_from_clean(s, 0, 0);
}

/// The views of a list of strings.
pub open spec fn views(v: Seq<String>) -> Seq<Seq<char>> {
    v.map_values(|x: String| x@)
}

/// Splits `text` into trimmed, non-empty sentences (see the module notes).
pub fn split_sentences(text: &str) -> (r: Vec<String>)
    ensures
        views(r@) == spec_split_sentences(text@),
{
    let v = chars_of(text);
    let ghost s = v@;
    let mut out: Vec<String> = Vec::new();
    let mut start: usize = 0;
    let mut i: usize = 0;
    while i < v.len()
        invariant
            s == v@,
            s == text@,
            0 <= i <= v@.len(),
            start <= v@.len(),
            forall|m: int| i <= m < start ==> is_closer(#[trigger] s[m]),
            views(out@) + sentences_from(s, i as int, start as int) == sentences_from(s, 0, 0),
        decreases v@.len() - i,
    {
        if is_terminator(&v, i) {
            assert(start <= i) by {
                if start > i {
                    assert(is_closer(s[i as int]));
                }
            }
            let mut end: usize = i + 1;
            while end < v.len() && (v[end] == '"' || v[end] == '\'' || v[end] == ')'
                || v[end] == ']' || v[end] == '}' || v[end] == '»' || v[end] == '”')
                invariant
                    i + 1 <= end <= v@.len(),
                    closer_end(s, i + 1) == closer_end(s, end as int),
                    forall|m: int| i + 1 <= m < end ==> is_closer(#[trigger] s[m]),
                    s == v@,
                decreases v@.len() - end,
            {
                end = end + 1;
            }
            let ghost prev = out@;
            let (a, b) = trim_bounds(&v, start, end);
            if a < b {
                out.push(string_of(&v, a, b));
                assert(views(out@) =~= views(prev) + seq![s.subrange(a as int, b as int)]);
            } else {
                assert(views(out@) =~= views(prev));
            }
            start = end;
        }
        i = i + 1;
    }
    let ghost before_rest = out@;
    let (a, b) = trim_bounds(&v, start, v.len());
    if a < b {
        out.push(string_of(&v, a, b));
        assert(views(out@) =~= views(before_rest) + seq![s.subrange(a as int, b as int)]);
    } else {
        assert(views(out@) =~= views(before_rest));
    }
    assert(views(out@) =~= sentences_from(s, 0, 0));
    if out.len() == 0 {
        let (a, b) = trim_bounds(&v, 0, v.len());
        assert(s.subrange(0, s.len() as int) =~= s);
        let mut only: Vec<String> = Vec::new();
        only.push(string_of(&v, a, b));
        assert(views(only@) =~= seq![trim(s)]);
        return only;
    }
    out
}

// ---------------------------------------------------------------------------
// A question or exclamation mark ends its sentence
// ---------------------------------------------------------------------------

/// Some character of `x` is not whitespace.
pub open spec fn has_text(x: Seq<char>) -> bool {
    exists|k: int| 0 <= k < x.len() && !unicode_whitespace(#[trigger] x[k])
}

proof fn lemma_trim_end_concat(x: Seq<char>, y: Seq<char>)
    requires
        has_text(y),
    ensures
        trim_end_by(x + y, ws()) == x + trim_end_by(y, ws()),
    decreases y.len(),
{
    let k = choose|k: int| 0 <= k < y.len() && !unicode_whitespace(#[trigger] y[k]);
    assert((x + y).last() == y.last());
    if unicode_whitespace(y.last()) {
        assert(k < y.len() - 1);
        assert(y.drop_last()[k] == y[k]);
        lemma_trim_end_concat(x, y.drop_last());
        assert((x + y).drop_last() =~= x + y.drop_last());
    }
}

proof fn lemma_trim_start_concat(x: Seq<char>, y: Seq<char>)
    requires
        has_text(x),
    ensures
        trim_start_by(x + y, ws()) == trim_start_by(x, ws()) + y,
    decreases x.len(),
{
    let k = choose|k: int| 0 <= k < x.len() && !unicode_whitespace(#[trigger] x[k]);
    assert((x + y)[0] == x[0]);
    if unicode_whitespace(x[0]) {
        assert(k > 0);
        assert(x.drop_first()[k - 1] == x[k]);
        lemma_trim_start_concat(x.drop_first(), y);
        assert((x + y).drop_first() =~= x.drop_first() + y);
    }
}

proof fn lemma_trim_end_all_ws(x: Seq<char>)
    requires
        !has_text(x),
    ensures
        trim_end_by(x, ws()).len() == 0,
    decreases x.len(),
{
    if x.len() > 0 {
        assert(unicode_whitespace(x[x.len() - 1]));
        assert forall|k: int| 0 <= k < x.drop_last().len() implies unicode_whitespace(#[trigger] x.drop_last()[k]) by {
            assert(x.drop_last()[k] == x[k]);
        }
        lemma_trim_end_all_ws(x.drop_last());
    }
}

/// Leading whitespace does not change `trim`.
proof fn lemma_trim_drop_ws(x: Seq<char>)
    requires
        x.len() > 0,
        unicode_whitespace(x[0]),
    ensures
        trim(x) == trim(x.drop_first()),
{
    let y = x.drop_first();
    assert(x =~= seq![x[0]] + y);
    if has_text(y) {
        lemma_trim_end_concat(seq![x[0]], y);
        let z = trim_end_by(y, ws());
        assert((seq![x[0]] + z)[0] == x[0]);
        assert((seq![x[0]] + z).drop_first() =~= z);
    } else {
        assert(!has_text(x)) by {
            assert forall|k: int| 0 <= k < x.len() implies unicode_whitespace(#[trigger] x[k]) by {
                if k > 0 {
                    assert(x[k] == y[k - 1]);
                }
            }
        }
        lemma_trim_end_all_ws(x);
        lemma_trim_end_all_ws(y);
    }
}

/// A text with a character that is not whitespace keeps it under `trim`.
proof fn lemma_trim_has_text(x: Seq<char>, k: int)
    requires
        0 <= k < x.len(),
        !unicode_whitespace(x[k]),
    ensures
        trim(x).len() > 0,
{
    lemma_trim_end_shape(x, ws());
    let te = trim_end_by(x, ws());
    assert(k < te.len());
    assert(te[k] == x[k]);
    lemma_trim_start_shape(te, ws());
}

/// Scanning on from `i` with the sentence begun at `st`, a non-whitespace
/// character at or after `st` gives at least one sentence.
proof fn lemma_some_sentence(x: Seq<char>, i: int, st: int, m: int)
    requires
        0 <= i,
        0 <= st <= m < x.len(),
        !unicode_whitespace(x[m]),
    ensures
        sentences_from(x, i, st).len() > 0,
    decreases x.len() - i,
{
    if i >= x.len() {
        lemma_trim_has_text(x.subrange(st, x.len() as int), m - st);
    } else if terminator_at(x, i) {
        let end = closer_end(x, i + 1);
        lemma_closer_end(x, i + 1);
        if m < end {
            lemma_trim_has_text(x.subrange(st, end), m - st);
        } else {
            lemma_some_sentence(x, i + 1, end, m);
        }
    } else {
        lemma_some_sentence(x, i + 1, st, m);
    }
}

/// The characters from `e` up to `closer_end(s, e)` are closers.
proof fn lemma_closer_run(s: Seq<char>, e: int)
    requires
        0 <= e <= s.len(),
    ensures
        forall|m: int| e <= m < closer_end(s, e) ==> is_closer(#[trigger] s[m]),
    decreases s.len() - e,
{
    if e < s.len() && is_closer(s[e]) {
        lemma_closer_run(s, e + 1);
    }
}

/// A run of characters that end no sentence changes nothing.
proof fn lemma_no_terminator_run(x: Seq<char>, i: int, k: int, st: int)
    requires
        0 <= i <= k <= x.len(),
        forall|m: int| i <= m < k ==> !terminator_at(x, m),
    ensures
        sentences_from(x, i, st) == sentences_from(x, k, st),
    decreases k - i,
{
    if i < k {
        lemma_no_terminator_run(x, i + 1, k, st);
    }
}

/// A pending sentence that begins with whitespace can begin after it.
proof fn lemma_start_past_ws(x: Seq<char>, i: int, st: int)
    requires
        0 <= st < i,
        st < x.len(),
        unicode_whitespace(x[st]),
    ensures
        sentences_from(x, i, st) == sentences_from(x, i, st + 1),
    decreases x.len() - i,
{
    if i >= x.len() {
        assert(x.subrange(st, x.len() as int).drop_first() =~= x.subrange(st + 1, x.len() as int));
        lemma_trim_drop_ws(x.subrange(st, x.len() as int));
    } else if terminator_at(x, i) {
        let end = closer_end(x, i + 1);
        lemma_closer_end(x, i + 1);
        assert(x.subrange(st, end).drop_first() =~= x.subrange(st + 1, end));
        lemma_trim_drop_ws(x.subrange(st, end));
    } else {
        lemma_start_past_ws(x, i + 1, st);
    }
}

proof fn lemma_closer_end_prefix(s: Seq<char>, a: Seq<char>, q: int, i: int)
    requires
        0 <= q < a.len() <= s.len(),
        forall|m: int| 0 <= m < a.len() ==> #[trigger] s[m] == a[m],
        !is_closer(a[q]),
        0 <= i <= q,
    ensures
        closer_end(s, i) == closer_end(a, i),
        closer_end(a, i) <= q,
    decreases q - i,
{
    if i < q && is_closer(a[i]) {
        lemma_closer_end_prefix(s, a, q, i + 1);
    }
}

proof fn lemma_closer_end_shift(s: Seq<char>, b: Seq<char>, off: int, j: int)
    requires
        0 <= off,
        s.len() == off + b.len(),
        forall|m: int| 0 <= m < b.len() ==> #[trigger] s[off + m] == b[m],
        0 <= j <= b.len(),
    ensures
        closer_end(s, off + j) == off + closer_end(b, j),
    decreases b.len() - j,
{
    if j < b.len() && is_closer(b[j]) {
        lemma_closer_end_shift(s, b, off, j + 1);
    }
}

proof fn lemma_sub_shift(s: Seq<char>, b: Seq<char>, off: int, x: int, y: int)
    requires
        0 <= off,
        s.len() == off + b.len(),
        forall|m: int| 0 <= m < b.len() ==> #[trigger] s[off + m] == b[m],
        0 <= x <= y <= b.len(),
    ensures
        s.subrange(off + x, off + y) == b.subrange(x, y),
{
    assert forall|k: int| 0 <= k < y - x implies s.subrange(off + x, off + y)[k] == b.subrange(x, y)[k] by {
        assert(s[off + (x + k)] == b[x + k]);
    }
    assert(s.subrange(off + x, off + y) =~= b.subrange(x, y));
}

/// Start of the run of non-whitespace characters that ends at `e`.
spec fn run_start(t: Seq<char>, e: int) -> int
    decreases e,
{
    if 0 < e <= t.len() && !unicode_whitespace(t[e - 1]) {
        run_start(t, e - 1)
    } else {
        e
    }
}

proof fn lemma_run_start(t: Seq<char>, e: int)
    requires
        0 <= e <= t.len(),
    ensures
        0 <= run_start(t, e) <= e,
        run_start(t, e) == 0 || unicode_whitespace(t[run_start(t, e) - 1]),
        forall|m: int| run_start(t, e) <= m < e ==> !unicode_whitespace(#[trigger] t[m]),
    decreases e,
{
    if 0 < e && !unicode_whitespace(t[e - 1]) {
        lemma_run_start(t, e - 1);
    }
}

/// Whether a character ends a sentence depends only on the text before and
/// after it in the same way inside `b` as inside `a + " " + b`.
proof fn lemma_terminator_shift(a: Seq<char>, b: Seq<char>, j: int)
    requires
        b.len() > 0,
        !unicode_whitespace(b[0]),
        b[0] != '.',
        0 <= j < b.len(),
    ensures
        ({
            let s = a + seq![' '] + b;
            terminator_at(s, a.len() + 1 + j) == terminator_at(b, j)
        }),
{
    let s = a + seq![' '] + b;
    let x = a + seq![' '];
    let off = a.len() as int + 1;
    let i = off + j;
    assert(s == x + b);
    assert(s[i] == b[j]);
    if b[j] == '.' {
        assert(j >= 1);
        assert(s[i - 1] == b[j - 1]);
        if j + 1 < b.len() {
            assert(s[i + 1] == b[j + 1]);
        }
        assert(s.skip(i + 1) =~= b.skip(j + 1));
        assert(s.take(i) =~= x + b.take(j));
        assert(b.take(j)[0] == b[0]);
        assert(has_text(b.take(j)));
        lemma_trim_end_concat(x, b.take(j));
        let t = trim_end_by(b.take(j), ws());
        lemma_trim_end_shape(b.take(j), ws());
        assert(t.len() >= 1);
        assert(t[0] == b[0]);
        let full = x + t;
        assert(trim_end(s.take(i)) == full);
        assert(trim_end(b.take(j)) == t);
        assert(full.last() == t.last());
        assert(unicode_whitespace(' '));
        if t.len() >= 2 {
            assert(full[full.len() - 2] == t[t.len() - 2]);
        } else {
            assert(full[full.len() - 2] == ' ');
        }
        assert(initial_at(s, i) == initial_at(b, j));
        lemma_run_start(t, t.len() as int);
        let k = run_start(t, t.len() as int);
        assert(!unicode_whitespace(t.last()));
        assert(k < t.len());
        lemma_last_word(t, k, 0);
        assert forall|m: int| off + k <= m < full.len() implies !unicode_whitespace(#[trigger] full[m]) by {
            assert(full[m] == t[m - off]);
        }
        if k == 0 {
            assert(full[off + k - 1] == ' ');
        } else {
            assert(full[off + k - 1] == t[k - 1]);
        }
        lemma_last_word(full, off + k, 0);
        assert(full.subrange(off + k, full.len() as int) =~= t.subrange(k, t.len() as int));
        assert(after_abbreviation(s, i) == after_abbreviation(b, j));
    }
}

proof fn lemma_sentences_shift(a: Seq<char>, b: Seq<char>, j: int, st: int)
    requires
        b.len() > 0,
        !unicode_whitespace(b[0]),
        b[0] != '.',
        0 <= j <= b.len(),
        0 <= st <= b.len(),
        forall|m: int| j <= m < st ==> is_closer(#[trigger] b[m]),
    ensures
        ({
            let s = a + seq![' '] + b;
            sentences_from(s, a.len() + 1 + j, a.len() + 1 + st) == sentences_from(b, j, st)
        }),
    decreases b.len() - j,
{
    let s = a + seq![' '] + b;
    let off = a.len() as int + 1;
    assert forall|m: int| 0 <= m < b.len() implies #[trigger] s[off + m] == b[m] by {}
    if j >= b.len() {
        lemma_sub_shift(s, b, off, st, b.len() as int);
    } else {
        lemma_terminator_shift(a, b, j);
        if terminator_at(b, j) {
            lemma_closer_end_shift(s, b, off, j + 1);
            lemma_closer_end(b, j + 1);
            lemma_closer_run(b, j + 1);
            let end = closer_end(b, j + 1);
            assert(st <= j) by {
                if st > j {
                    assert(is_closer(b[j]));
                }
            }
            lemma_sub_shift(s, b, off, st, end);
            lemma_sentences_shift(a, b, j + 1, end);
        } else {
            lemma_sentences_shift(a, b, j + 1, st);
        }
    }
}

proof fn lemma_terminator_prefix(a: Seq<char>, b: Seq<char>, q: int, j: int)
    requires
        0 <= j < q < a.len(),
        a[q] == '?' || a[q] == '!',
    ensures
        terminator_at(a + seq![' '] + b, j) == terminator_at(a, j),
{
    let s = a + seq![' '] + b;
    assert(s[j] == a[j]);
    if j > 0 {
        assert(s[j - 1] == a[j - 1]);
    }
    assert(s[j + 1] == a[j + 1]);
    assert(s.take(j) =~= a.take(j));
    let x = a.skip(j + 1);
    assert(x[q - j - 1] == a[q]);
    assert(has_text(x));
    assert(s.skip(j + 1) =~= x + (seq![' '] + b));
    lemma_trim_start_concat(x, seq![' '] + b);
    lemma_trim_start_shape(x, ws());
    let r = trim_start(x);
    assert(r.len() > 0) by {
        if r.len() == 0 {
            assert(unicode_whitespace(x[q - j - 1]));
        }
    }
    assert(trim_start(s.skip(j + 1))[0] == r[0]);
}

proof fn lemma_sentences_prefix(a: Seq<char>, b: Seq<char>, q: int, j: int, st: int)
    requires
        0 <= q < a.len(),
        a[q] == '?' || a[q] == '!',
        forall|m: int| q < m < a.len() ==> is_closer(#[trigger] a[m]),
        b.len() > 0,
        !unicode_whitespace(b[0]),
        b[0] != '.',
        0 <= j <= q,
        0 <= st <= q,
        forall|m: int| j <= m < st ==> is_closer(#[trigger] a[m]),
    ensures
        ({
            let s = a + seq![' '] + b;
            sentences_from(s, j, st) == sentences_from(a, j, st) + sentences_from(b, 0, 0)
        }),
    decreases q - j,
{
    let s = a + seq![' '] + b;
    let n = a.len() as int;
    assert forall|m: int| 0 <= m < n implies #[trigger] s[m] == a[m] by {}
    if j == q {
        assert(s[q] == a[q]);
        assert(terminator_at(s, q) && terminator_at(a, q));
        lemma_closer_end_from_closers(s, a, q + 1);
        assert(closer_end(s, q + 1) == n && closer_end(a, q + 1) == n);
        assert(s.subrange(st, n) =~= a.subrange(st, n));
        assert forall|m: int| q + 1 <= m < n implies !terminator_at(a, m) by {
            assert(is_closer(a[m]));
        }
        lemma_no_terminator_run(a, q + 1, n, n);
        assert(sentences_from(a, n, n) == nonempty(trim(a.subrange(n, n))));
        assert(a.subrange(n, n) =~= Seq::<char>::empty());
        assert(trim(Seq::<char>::empty()) =~= Seq::<char>::empty());
        assert forall|m: int| q + 1 <= m < n + 1 implies !terminator_at(s, m) by {
            if m < n {
                assert(is_closer(a[m]));
            } else {
                assert(s[m] == ' ');
            }
        }
        lemma_no_terminator_run(s, q + 1, n + 1, n);
        assert(s[n] == ' ');
        assert(unicode_whitespace(' '));
        lemma_start_past_ws(s, n + 1, n);
        lemma_sentences_shift(a, b, 0, 0);
        assert(sentences_from(s, n + 1, n + 1) == sentences_from(b, 0, 0));
        assert(st <= q) ;
        assert(sentences_from(s, q, st) == nonempty(trim(s.subrange(st, n))) + sentences_from(s, q + 1, n));
        assert(sentences_from(a, q, st) == nonempty(trim(a.subrange(st, n))) + sentences_from(a, q + 1, n));
        assert(nonempty(Seq::<char>::empty()) =~= Seq::<Seq<char>>::empty());
        assert(sentences_from(a, q + 1, n) =~= Seq::<Seq<char>>::empty());
        assert(sentences_from(s, q, st) =~= sentences_from(a, q, st) + sentences_from(b, 0, 0));
    } else {
        lemma_terminator_prefix(a, b, q, j);
        if terminator_at(a, j) {
            lemma_closer_end_prefix(s, a, q, j + 1);
            let end = closer_end(a, j + 1);
            lemma_closer_end(a, j + 1);
            lemma_closer_run(a, j + 1);
            assert(st <= j) by {
                if st > j {
                    assert(is_closer(a[j]));
                }
            }
            assert(s.subrange(st, end) =~= a.subrange(st, end));
            assert(sentences_from(s, j, st) == nonempty(trim(s.subrange(st, end))) + sentences_from(s, j + 1, end));
            assert(sentences_from(a, j, st) == nonempty(trim(a.subrange(st, end))) + sentences_from(a, j + 1, end));
            lemma_sentences_prefix(a, b, q, j + 1, end);
            assert(sentences_from(s, j, st) =~= sentences_from(a, j, st) + sentences_from(b, 0, 0));
        } else {
            lemma_sentences_prefix(a, b, q, j + 1, st);
            assert(sentences_from(s, j, st) == sentences_from(s, j + 1, st));
            assert(sentences_from(a, j, st) == sentences_from(a, j + 1, st));
        }
    }
}

/// The closers after the mark run to the end of `a`, in `a` and in `s`.
proof fn lemma_closer_end_from_closers(s: Seq<char>, a: Seq<char>, i: int)
    requires
        0 < i <= a.len() < s.len(),
        forall|m: int| 0 <= m < a.len() ==> #[trigger] s[m] == a[m],
        forall|m: int| i <= m < a.len() ==> is_closer(#[trigger] a[m]),
        !is_closer(s[a.len() as int]),
    ensures
        closer_end(s, i) == a.len(),
        closer_end(a, i) == a.len(),
    decreases a.len() - i,
{
    if i < a.len() {
        assert(s[i] == a[i]);
        lemma_closer_end_from_closers(s, a, i + 1);
    }
}

/// A question or exclamation mark always ends its sentence, together with
/// the closing quotes or brackets right after it: when `a` ends with `?`
/// or `!` and such closers, and `b` begins with a character that is neither
/// whitespace nor a period, the sentences of `a + " " + b` are those of `a`
/// followed by those of `b`.
pub proof fn lemma_question_ends_sentence(a: Seq<char>, b: Seq<char>, q: int)
    requires
        0 <= q < a.len(),
        a[q] == '?' || a[q] == '!',
        forall|m: int| q < m < a.len() ==> is_closer(#[trigger] a[m]),
        b.len() > 0,
        !unicode_whitespace(b[0]),
        b[0] != '.',
    ensures
        spec_split_sentences(a + seq![' '] + b) == spec_split_sentences(a) + spec_split_sentences(b),
{
    let s = a + seq![' '] + b;
    lemma_sentences_prefix(a, b, q, 0, 0);
    assert(!unicode_whitespace(a[q]));
    lemma_some_sentence(a, 0, 0, q);
    lemma_some_sentence(b, 0, 0, 0);
}

} // verus!
