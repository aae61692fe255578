//! Phoneme handling of the Kokoro speech engine: the model file for each
//! quality, the American spelling of one diphthong, and the split of long
//! phoneme strings into batches that the model accepts in one run, and the
//! token ids of a batch.

use vstd::prelude::*;
use crate::sentences::{views, Quality};
use crate::text::{
    chars_of, lemma_trim_end_shape, lemma_trim_start_shape, push_all, replace_all, replace_chars, slice_of, string_of, trim,
    trim_bounds, trim_end_by, ws,
};

verus! {

/// Longest phoneme sequence the model accepts in one run.
pub const MAX_PHONEME_LENGTH: usize = 510;

/// Model file name for each quality.
pub open spec fn spec_model_name(quality: Quality) -> Seq<char> {
    match quality {
        Quality::Low => "kokoro-v1.0.fp16.onnx"@,
        Quality::High => "kokoro-v1.0.onnx"@,
    }
}

impl Quality {
    /// The Kokoro model file that serves this quality.
    pub fn model_name(self) -> (r: &'static str)
        ensures
            r@ == spec_model_name(self),
    {
        match self {
            Quality::Low => "kokoro-v1.0.fp16.onnx",
            Quality::High => "kokoro-v1.0.onnx",
        }
    }
}

/// `phonemes` with every British `əʊ` spelled as the American `oʊ`.
pub open spec fn spec_normalize_phonemes(phonemes: Seq<char>) -> Seq<char> {
    replace_all(phonemes, seq!['ə', 'ʊ'], seq!['o', 'ʊ'])
}

/// Replaces the diphthong `əʊ` by `oʊ`.
pub fn normalize_phonemes(phonemes: &str) -> (r: String)
    ensures
        r@ == spec_normalize_phonemes(phonemes@),
{
    let v = chars_of(phonemes);
    let from = vec!['ə', 'ʊ'];
    let to = vec!['o', 'ʊ'];
    assert(from@ =~= seq!['ə', 'ʊ']);
    assert(to@ =~= seq!['o', 'ʊ']);
    let out = replace_chars(&v, &from, &to);
    string_of(&out, 0, out.len())
}

/// The punctuation after which a phoneme string may be cut.
pub open spec fn is_phrase_break(c: char) -> bool {
    c == '.' || c == ',' || c == '!' || c == '?' || c == ';'
}

/// The trimmed phrases of `s[start..]`, each running up to and including a
/// break character, scanning from `i`; a trailing phrase that is blank
/// after trimming is dropped.
pub open spec fn phrases_from(s: Seq<char>, i: int, start: int) -> Seq<Seq<char>>
    decreases s.len() - i,
{
    if i < 0 || i >= s.len() {
        if trim(s.subrange(start, s.len() as int)).len() > 0 {
            seq![trim(s.subrange(start, s.len() as int))]
        } else {
            Seq::empty()
        }
    } else if is_phrase_break(s[i]) {
        seq![trim(s.subrange(start, i + 1))] + phrases_from(s, i + 1, i + 1)
    } else {
        phrases_from(s, i + 1, start)
    }
}

/// Batches made by joining `phrases[k..]` with single spaces, a batch being
/// closed before it would reach `MAX_PHONEME_LENGTH` characters; `batch` is
/// the one under construction.
pub open spec fn batches_from(phrases: Seq<Seq<char>>, k: int, batch: Seq<char>) -> Seq<Seq<char>>
    decreases phrases.len() - k,
{
    if k < 0 || k >= phrases.len() {
        if trim(batch).len() > 0 {
            seq![trim(batch)]
        } else {
            Seq::empty()
        }
    } else {
        let p = phrases[k];
        if batch.len() > 0 && batch.len() + p.len() + 1 >= MAX_PHONEME_LENGTH {
            seq![trim(batch)] + batches_from(phrases, k + 1, p)
        } else if batch.len() > 0 {
            batches_from(phrases, k + 1, batch + seq![' '] + p)
        } else {
            batches_from(phrases, k + 1, p)
        }
    }
}

/// A short phoneme string is one batch; a longer one is cut after
/// punctuation and the phrases regrouped into batches under the limit.
pub open spec fn spec_split_phonemes(phonemes: Seq<char>) -> Seq<Seq<char>> {
    if phonemes.len() <= MAX_PHONEME_LENGTH {
        seq![phonemes]
    } else {
        batches_from(phrases_from(phonemes, 0, 0), 0, Seq::empty())
    }
}

/// No `.`, `,`, `!`, `?` or `;` stands anywhere in `b` but at its end.
pub open spec fn punctuation_only_at_end(b: Seq<char>) -> bool {
    forall|j: int|
        0 <= j < b.len() - 1 ==> {
            let c = #[trigger] b[j];
            c != '.' && c != ',' && c != '!' && c != '?' && c != ';'
        }
}

/// `trim(x)` is a contiguous piece of `x`.
proof fn lemma_trim_piece(x: Seq<char>) -> (o: int)
    ensures
        0 <= o && o + trim(x).len() <= x.len(),
        trim(x) == x.subrange(o, o + trim(x).len()),
{
    let te = trim_end_by(x, ws());
    lemma_trim_end_shape(x, ws());
    lemma_trim_start_shape(te, ws());
    let o = te.len() - trim(x).len();
    assert(trim(x) =~= x.subrange(o, o + trim(x).len()));
    o
}

/// A piece of a string with punctuation only at its end has the same.
proof fn lemma_piece_punctuation(x: Seq<char>, a: int, b: int)
    requires
        0 <= a <= b <= x.len(),
        punctuation_only_at_end(x),
    ensures
        punctuation_only_at_end(x.subrange(a, b)),
{
    assert forall|j: int| 0 <= j < x.subrange(a, b).len() - 1 implies {
        let c = #[trigger] x.subrange(a, b)[j];
        c != '.' && c != ',' && c != '!' && c != '?' && c != ';'
    } by {
        assert(x.subrange(a, b)[j] == x[a + j]);
    }
}

proof fn lemma_trim_punctuation(x: Seq<char>)
    requires
        punctuation_only_at_end(x),
    ensures
        punctuation_only_at_end(trim(x)),
{
    let o = lemma_trim_piece(x);
    lemma_piece_punctuation(x, o, o + trim(x).len());
}

/// Every phrase holds punctuation only at its end.
proof fn lemma_phrases_punctuation(s: Seq<char>, i: int, start: int)
    requires
        0 <= start <= i <= s.len(),
        forall|m: int| start <= m < i ==> !is_phrase_break(#[trigger] s[m]),
    ensures
        forall|k: int|
            0 <= k < phrases_from(s, i, start).len() ==> punctuation_only_at_end(
                #[trigger] phrases_from(s, i, start)[k],
            ),
    decreases s.len() - i,
{
    if i >= s.len() {
        let x = s.subrange(start, s.len() as int);
        if start <= s.len() {
            assert(punctuation_only_at_end(x)) by {
                assert forall|j: int| 0 <= j < x.len() - 1 implies {
                    let c = #[trigger] x[j];
                    c != '.' && c != ',' && c != '!' && c != '?' && c != ';'
                } by {
                    assert(x[j] == s[start + j]);
                    assert(!is_phrase_break(s[start + j]));
                }
            }
            lemma_trim_punctuation(x);
        }
        if trim(x).len() > 0 {
            assert(phrases_from(s, i, start) == seq![trim(x)]);
        } else {
            assert(phrases_from(s, i, start).len() == 0);
        }
    } else if is_phrase_break(s[i]) {
        let x = s.subrange(start, i + 1);
        assert(punctuation_only_at_end(x)) by {
            assert forall|j: int| 0 <= j < x.len() - 1 implies {
                let c = #[trigger] x[j];
                c != '.' && c != ',' && c != '!' && c != '?' && c != ';'
            } by {
                assert(x[j] == s[start + j]);
                assert(!is_phrase_break(s[start + j]));
            }
        }
        lemma_trim_punctuation(x);
        lemma_phrases_punctuation(s, i + 1, i + 1);
        let head = seq![trim(x)];
        let rest = phrases_from(s, i + 1, i + 1);
        assert(phrases_from(s, i, start) == head + rest);
        assert forall|k: int| 0 <= k < (head + rest).len() implies punctuation_only_at_end(#[trigger] (head + rest)[k]) by {
            if k >= 1 {
                assert((head + rest)[k] == rest[k - 1]);
            }
        }
    } else {
        lemma_phrases_punctuation(s, i + 1, start);
        assert(phrases_from(s, i, start) == phrases_from(s, i + 1, start));
    }
}

/// A batch is short, or holds punctuation only at its end.
pub open spec fn short_or_one_phrase(b: Seq<char>) -> bool {
    b.len() < MAX_PHONEME_LENGTH || punctuation_only_at_end(b)
}

proof fn lemma_trim_short_or_one_phrase(b: Seq<char>)
    requires
        short_or_one_phrase(b),
    ensures
        short_or_one_phrase(trim(b)),
{
    let o = lemma_trim_piece(b);
    if punctuation_only_at_end(b) {
        lemma_piece_punctuation(b, o, o + trim(b).len());
    }
}

proof fn lemma_batches_short(phrases: Seq<Seq<char>>, k: int, batch: Seq<char>)
    requires
        0 <= k,
        forall|m: int| 0 <= m < phrases.len() ==> punctuation_only_at_end(#[trigger] phrases[m]),
        short_or_one_phrase(batch),
    ensures
        forall|m: int|
            0 <= m < batches_from(phrases, k, batch).len() ==> short_or_one_phrase(
                #[trigger] batches_from(phrases, k, batch)[m],
            ),
    decreases phrases.len() - k,
{
    if k >= phrases.len() {
        lemma_trim_short_or_one_phrase(batch);
        if trim(batch).len() > 0 {
            assert(batches_from(phrases, k, batch) == seq![trim(batch)]);
        } else {
            assert(batches_from(phrases, k, batch).len() == 0);
        }
    } else {
        let p = phrases[k];
        if batch.len() > 0 && batch.len() + p.len() + 1 >= MAX_PHONEME_LENGTH {
            lemma_trim_short_or_one_phrase(batch);
            lemma_batches_short(phrases, k + 1, p);
            let head = seq![trim(batch)];
            let rest = batches_from(phrases, k + 1, p);
            assert(batches_from(phrases, k, batch) == head + rest);
            assert forall|m: int| 0 <= m < (head + rest).len() implies short_or_one_phrase(#[trigger] (head + rest)[m]) by {
                if m >= 1 {
                    assert((head + rest)[m] == rest[m - 1]);
                }
            }
        } else if batch.len() > 0 {
            lemma_batches_short(phrases, k + 1, batch + seq![' '] + p);
            assert(batches_from(phrases, k, batch) == batches_from(phrases, k + 1, batch + seq![' '] + p));
        } else {
            lemma_batches_short(phrases, k + 1, p);
            assert(batches_from(phrases, k, batch) == batches_from(phrases, k + 1, p));
        }
    }
}

/// Phoneme batches stay under the model's limit wherever punctuation allows
/// a cut: a phoneme string of at most `MAX_PHONEME_LENGTH` characters is one
/// batch; from a longer one, every batch is shorter than the limit, or has
/// no `.`, `,`, `!`, `?` or `;` before its last character (a single phrase
/// that no cut could shorten).
pub proof fn lemma_phoneme_batches_within_limit(phonemes: Seq<char>)
    ensures
        phonemes.len() <= MAX_PHONEME_LENGTH ==> spec_split_phonemes(phonemes) == seq![phonemes],
        phonemes.len() > MAX_PHONEME_LENGTH ==> forall|m: int|
            0 <= m < spec_split_phonemes(phonemes).len() ==> (#[trigger] spec_split_phonemes(phonemes)[m]).len()
                < MAX_PHONEME_LENGTH || punctuation_only_at_end(spec_split_phonemes(phonemes)[m]),
{
    if phonemes.len() > MAX_PHONEME_LENGTH {
        let phrases = phrases_from(phonemes, 0, 0);
        lemma_phrases_punctuation(phonemes, 0, 0);
        assert(short_or_one_phrase(Seq::<char>::empty()));
        lemma_batches_short(phrases, 0, Seq::empty());
    }
}

fn is_break_char(c: char) -> (r: bool)
    ensures
        r == is_phrase_break(c),
{
    c == '.' || c == ',' || c == '!' || c == '?' || c == ';'
}

/// Bounds in `v` of the phrases of `v` (see `phrases_from`).
fn phrase_bounds(v: &Vec<char>) -> (r: Vec<(usize, usize)>)
    ensures
        r@.len() == phrases_from(v@, 0, 0).len(),
        forall|k: int|
            0 <= k < r@.len() ==> (#[trigger] r@[k]).0 <= r@[k].1 <= v@.len() && v@.subrange(
                r@[k].0 as int,
                r@[k].1 as int,
            ) == phrases_from(v@, 0, 0)[k],
{
    let ghost s = v@;
    let n = v.len();
    let mut r: Vec<(usize, usize)> = Vec::new();
    let ghost mut done: Seq<Seq<char>> = Seq::empty();
    let mut start: usize = 0;
    let mut i: usize = 0;
    while i < n
        invariant
            s == v@,
            n == v@.len(),
            start <= i <= n,
            done + phrases_from(s, i as int, start as int) == phrases_from(s, 0, 0),
            r@.len() == done.len(),
            forall|k: int|
                0 <= k < r@.len() ==> (#[trigger] r@[k]).0 <= r@[k].1 <= n && s.subrange(
                    r@[k].0 as int,
                    r@[k].1 as int,
                ) == done[k],
        decreases n - i,
    {
        if is_break_char(v[i]) {
            let (a, b) = trim_bounds(v, start, i + 1);
            proof {
                done = done + seq![s.subrange(a as int, b as int)];
            }
            r.push((a, b));
            start = i + 1;
        }
        i = i + 1;
    }
    let (a, b) = trim_bounds(v, start, n);
    if a < b {
        proof {
            done = done + seq![s.subrange(a as int, b as int)];
        }
        r.push((a, b));
    }
    assert(done =~= phrases_from(s, 0, 0));
    r
}

/// Whether `batch_len + part_len + 1` reaches the limit.
fn reaches_limit(batch_len: usize, part_len: usize) -> (r: bool)
    ensures
        r == (batch_len + part_len + 1 >= MAX_PHONEME_LENGTH),
{
    match batch_len.checked_add(part_len) {
        Some(total) => total >= MAX_PHONEME_LENGTH - 1,
        None => true,
    }
}

/// The trimmed `v` as a string.
fn trimmed(v: &Vec<char>) -> (r: String)
    ensures
        r@ == trim(v@),
{
    let (a, b) = trim_bounds(v, 0, v.len());
    assert(v@.subrange(0, v@.len() as int) =~= v@);
    string_of(v, a, b)
}

/// Splits a phoneme string into batches of fewer than `MAX_PHONEME_LENGTH`
/// characters where punctuation allows (see `spec_split_phonemes`).
pub fn split_phonemes(phonemes: &str) -> (r: Vec<String>)
    ensures
        views(r@) == spec_split_phonemes(phonemes@),
{
    let v = chars_of(phonemes);
    if v.len() <= MAX_PHONEME_LENGTH {
        let mut only: Vec<String> = Vec::new();
        only.push(string_of(&v, 0, v.len()));
        assert(v@.subrange(0, v@.len() as int) =~= v@);
        assert(views(only@) =~= seq![phonemes@]);
        return only;
    }
    let bounds = phrase_bounds(&v);
    let ghost phrases = phrases_from(v@, 0, 0);
    let mut batches: Vec<String> = Vec::new();
    let mut batch: Vec<char> = Vec::new();
    let mut k: usize = 0;
    while k < bounds.len()
        invariant
            0 <= k <= bounds@.len(),
            phrases == phrases_from(v@, 0, 0),
            bounds@.len() == phrases.len(),
            forall|m: int|
                0 <= m < bounds@.len() ==> (#[trigger] bounds@[m]).0 <= bounds@[m].1 <= v@.len()
                    && v@.subrange(bounds@[m].0 as int, bounds@[m].1 as int) == phrases[m],
            views(batches@) + batches_from(phrases, k as int, batch@) == batches_from(
                phrases,
                0,
                Seq::empty(),
            ),
        decreases bounds@.len() - k,
    {
        let (a, b) = bounds[k];
        let part = slice_of(&v, a, b);
        let ghost before = batches@;
        let ghost old_batch = batch@;
        assert(part@ == phrases[k as int]);
        if batch.len() > 0 && reaches_limit(batch.len(), part.len()) {
            batches.push(trimmed(&batch));
            assert(views(batches@) =~= views(before) + seq![trim(old_batch)]);
            batch = part;
        } else if batch.len() > 0 {
            batch.push(' ');
            push_all(&mut batch, &part);
            assert(batch@ == old_batch + seq![' '] + part@);
        } else {
            batch = part;
        }
        k = k + 1;
    }
    let ghost before = batches@;
    let (x, y) = trim_bounds(&batch, 0, batch.len());
    assert(batch@.subrange(0, batch@.len() as int) =~= batch@);
    if x < y {
        batches.push(string_of(&batch, x, y));
        assert(views(batches@) =~= views(before) + seq![trim(batch@)]);
    } else {
        assert(views(batches@) =~= views(before) + Seq::<Seq<char>>::empty());
    }
    batches
}

// ---------------------------------------------------------------------------
// Token ids
// ---------------------------------------------------------------------------

/// The id of phoneme `c` in `vocab` (symbol and id pairs, each symbol once).
pub open spec fn symbol_id(vocab: Seq<(String, i64)>, c: char) -> Option<i64>
    decreases vocab.len(),
{
    if vocab.len() == 0 {
        None
    } else if vocab[0].0@ == seq![c] {
        Some(vocab[0].1)
    } else {
        symbol_id(vocab.drop_first(), c)
    }
}

/// The phonemes of `s` that the vocabulary knows, in order.
pub open spec fn known_symbols(vocab: Seq<(String, i64)>, s: Seq<char>) -> Seq<char>
    decreases s.len(),
{
    if s.len() == 0 {
        Seq::empty()
    } else {
        known_symbols(vocab, s.drop_last()) + if symbol_id(vocab, s.last()) is Some {
            seq![s.last()]
        } else {
            Seq::empty()
        }
    }
}

/// The ids of the known phonemes of `s`, in order.
pub open spec fn symbol_ids(vocab: Seq<(String, i64)>, s: Seq<char>) -> Seq<i64>
    decreases s.len(),
{
    if s.len() == 0 {
        Seq::empty()
    } else {
        symbol_ids(vocab, s.drop_last()) + match symbol_id(vocab, s.last()) {
            Some(id) => seq![id],
            None => Seq::empty(),
        }
    }
}

/// The model input for a batch: the pad id 0, the phonemes' ids, and 0.
pub open spec fn spec_token_ids(vocab: Seq<(String, i64)>, batch: Seq<char>) -> Seq<i64> {
    seq![0i64] + symbol_ids(vocab, batch) + seq![0i64]
}

/// The id of phoneme `c`.
pub fn lookup_symbol(vocab: &Vec<(String, i64)>, c: char) -> (r: Option<i64>)
    ensures
        r == symbol_id(vocab@, c),
{
    let mut k: usize = 0;
    assert(vocab@.skip(0) =~= vocab@);
    while k < vocab.len()
        invariant
            0 <= k <= vocab@.len(),
            symbol_id(vocab@, c) == symbol_id(vocab@.skip(k as int), c),
        decreases vocab@.len() - k,
    {
        let key = chars_of(vocab[k].0.as_str());
        assert(vocab@.skip(k as int)[0] == vocab@[k as int]);
        assert(vocab@.skip(k as int).drop_first() =~= vocab@.skip(k + 1));
        if key.len() == 1 && key[0] == c {
            assert(vocab@[k as int].0@ =~= seq![c]);
            return Some(vocab[k].1);
        }
        assert(vocab@[k as int].0@ != seq![c]) by {
            if vocab@[k as int].0@ == seq![c] {
                assert(key@.len() == 1 && key@[0] == c);
            }
        }
        k = k + 1;
    }
    assert(vocab@.skip(k as int).len() == 0);
    None
}

/// The phonemes the vocabulary knows; the others are dropped.
pub fn known_phonemes(phonemes: &str, vocab: &Vec<(String, i64)>) -> (r: String)
    ensures
        r@ == known_symbols(vocab@, phonemes@),
{
    let v = chars_of(phonemes);
    let mut out: Vec<char> = Vec::new();
    let mut i: usize = 0;
    while i < v.len()
        invariant
            0 <= i <= v@.len(),
            v@ == phonemes@,
            out@ == known_symbols(vocab@, v@.take(i as int)),
        decreases v@.len() - i,
    {
        assert(v@.take(i + 1).drop_last() =~= v@.take(i as int));
        if lookup_symbol(vocab, v[i]).is_some() {
            out.push(v[i]);
        }
        assert(out@ =~= known_symbols(vocab@, v@.take(i + 1)));
        i = i + 1;
    }
    assert(v@.take(v@.len() as int) =~= v@);
    string_of(&out, 0, out.len())
}

/// A batch gives more tokens than the model takes in one run.
#[derive(Clone, Copy, Debug, PartialEq, Eq, Structural)]
pub struct TooManyTokens {
    pub count: usize,
}

/// The model input for a batch (see `spec_token_ids`), or the error when it
/// holds more than `MAX_PHONEME_LENGTH` tokens. The style row the model uses
/// is the one at the token count less two.
pub fn token_ids(batch: &str, vocab: &Vec<(String, i64)>) -> (r: Result<Vec<i64>, TooManyTokens>)
    ensures
        match r {
            Ok(t) => t@ == spec_token_ids(vocab@, batch@) && t@.len() <= MAX_PHONEME_LENGTH,
            Err(e) => e.count == spec_token_ids(vocab@, batch@).len() && e.count > MAX_PHONEME_LENGTH,
        },
{
    let v = chars_of(batch);
    let mut ids: Vec<i64> = Vec::new();
    let mut i: usize = 0;
    while i < v.len()
        invariant
            0 <= i <= v@.len(),
            v@ == batch@,
            ids@ == symbol_ids(vocab@, v@.take(i as int)),
            ids@.len() <= i,
        decreases v@.len() - i,
    {
        assert(v@.take(i + 1).drop_last() =~= v@.take(i as int));
        match lookup_symbol(vocab, v[i]) {
            Some(id) => ids.push(id),
            None => {},
        }
        assert(ids@ =~= symbol_ids(vocab@, v@.take(i + 1)));
        i = i + 1;
    }
    assert(v@.take(v@.len() as int) =~= v@);
    let mut out: Vec<i64> = Vec::new();
    out.push(0);
    let mut k: usize = 0;
    while k < ids.len()
        invariant
            0 <= k <= ids@.len(),
            out@ == seq![0i64] + ids@.take(k as int),
        decreases ids@.len() - k,
    {
        out.push(ids[k]);
        assert(out@ =~= seq![0i64] + ids@.take(k + 1));
        k = k + 1;
    }
    assert(ids@.take(ids@.len() as int) =~= ids@);
    out.push(0);
    assert(out@ =~= spec_token_ids(vocab@, batch@));
    if out.len() > MAX_PHONEME_LENGTH {
        return Err(TooManyTokens { count: out.len() });
    }
    Ok(out)
}

// ---------------------------------------------------------------------------
// From text to model input
// ---------------------------------------------------------------------------

/// The phoneme strings of the batches the model reads for the phonemizer's
/// output `raw`: the American spelling, the symbols the vocabulary knows,
/// split into batches.
pub open spec fn phoneme_batches_of(vocab: Seq<(String, i64)>, raw: Seq<char>) -> Seq<Seq<char>> {
    spec_split_phonemes(known_symbols(vocab, spec_normalize_phonemes(raw)))
}

/// The first batch, from `k` on, that gives more than `MAX_PHONEME_LENGTH`
/// tokens, if any.
pub open spec fn first_too_long(vocab: Seq<(String, i64)>, batches: Seq<Seq<char>>, k: int) -> Option<int>
    decreases batches.len() - k,
{
    if k < 0 || k >= batches.len() {
        None
    } else if spec_token_ids(vocab, batches[k]).len() > MAX_PHONEME_LENGTH {
        Some(k)
    } else {
        first_too_long(vocab, batches, k + 1)
    }
}

/// The model input of each batch of `raw`'s phonemes, or the token count of
/// the first batch that is too long (then nothing is synthesized).
pub fn phoneme_batches(raw: &str, vocab: &Vec<(String, i64)>) -> (r: Result<Vec<Vec<i64>>, TooManyTokens>)
    ensures
        ({
            let batches = phoneme_batches_of(vocab@, raw@);
            match r {
                Ok(ts) => first_too_long(vocab@, batches, 0) is None && ts@.len() == batches.len() && forall|k: int|
                    0 <= k < ts@.len() ==> (#[trigger] ts@[k])@ == spec_token_ids(vocab@, batches[k]),
                Err(e) => first_too_long(vocab@, batches, 0) matches Some(k) && e.count
                    == spec_token_ids(vocab@, batches[k]).len(),
            }
        }),
{
    let normalized = normalize_phonemes(raw);
    let known = known_phonemes(normalized.as_str(), vocab);
    let batches = split_phonemes(known.as_str());
    let ghost bs = views(batches@);
    assert(bs == phoneme_batches_of(vocab@, raw@));
    let mut out: Vec<Vec<i64>> = Vec::new();
    let mut k: usize = 0;
    while k < batches.len()
        invariant
            0 <= k <= batches@.len(),
            bs == views(batches@),
            bs == phoneme_batches_of(vocab@, raw@),
            bs.len() == batches@.len(),
            out@.len() == k,
            forall|m: int| 0 <= m < k ==> (#[trigger] out@[m])@ == spec_token_ids(vocab@, bs[m]),
            first_too_long(vocab@, bs, 0) == first_too_long(vocab@, bs, k as int),
        decreases batches@.len() - k,
    {
        assert(bs[k as int] == batches@[k as int]@);
        match token_ids(batches[k].as_str(), vocab) {
            Ok(t) => {
                out.push(t);
                assert(first_too_long(vocab@, bs, k as int) == first_too_long(vocab@, bs, k + 1));
            },
            Err(e) => {
                assert(first_too_long(vocab@, bs, k as int) == Some(k as int));
                return Err(e);
            },
        }
        k = k + 1;
    }
    Ok(out)
}

/// Number of symbols in Kokoro v1's phoneme vocabulary.
pub const KOKORO_VOCAB_SIZE: usize = 113;

/// Kokoro v1's phoneme vocabulary: each symbol with its token id.
pub open spec fn kokoro_vocab_table() -> Seq<(Seq<char>, i64)> {
    seq![
        (";"@, 1i64), (":"@, 2i64), (","@, 3i64), ("."@, 4i64), ("!"@, 5i64), ("?"@, 6i64), ("—"@, 9i64), ("…"@, 10i64), ("\""@, 11i64), ("("@, 12i64), (")"@, 13i64), ("“"@, 14i64), ("”"@, 15i64), (" "@, 16i64), ("̃"@, 17i64), ("ʣ"@, 18i64), ("ʥ"@, 19i64), ("ʦ"@, 20i64), ("ʨ"@, 21i64), ("ᵝ"@, 22i64), ("ꭧ"@, 23i64), ("A"@, 24i64), ("I"@, 25i64), ("O"@, 31i64), ("Q"@, 33i64), ("S"@, 35i64), ("T"@, 36i64), ("W"@, 39i64), ("Y"@, 41i64), ("ᵊ"@, 42i64), ("a"@, 43i64), ("b"@, 44i64), ("c"@, 45i64), ("d"@, 46i64), ("e"@, 47i64), ("f"@, 48i64), ("h"@, 50i64), ("i"@, 51i64), ("j"@, 52i64), ("k"@, 53i64), ("l"@, 54i64), ("m"@, 55i64), ("n"@, 56i64), ("o"@, 57i64), ("p"@, 58i64), ("q"@, 59i64), ("r"@, 60i64), ("s"@, 61i64), ("t"@, 62i64), ("u"@, 63i64), ("v"@, 64i64), ("w"@, 65i64), ("x"@, 66i64), ("y"@, 67i64), ("z"@, 68i64), ("ɑ"@, 69i64), ("ɐ"@, 70i64), ("ɒ"@, 71i64), ("æ"@, 72i64), ("β"@, 75i64), ("ɔ"@, 76i64), ("ɕ"@, 77i64), ("ç"@, 78i64), ("ɗ"@, 80i64), ("ð"@, 81i64), ("ʤ"@, 82i64), ("ə"@, 83i64), ("ɚ"@, 85i64), ("ɛ"@, 86i64), ("ɜ"@, 87i64), ("ɟ"@, 90i64), ("ɡ"@, 92i64), ("ɥ"@, 99i64), ("ɨ"@, 101i64), ("ɪ"@, 102i64), ("ʝ"@, 103i64), ("ɯ"@, 110i64), ("ɰ"@, 111i64), ("ŋ"@, 112i64), ("ɳ"@, 113i64), ("ɲ"@, 114i64), ("ɴ"@, 115i64), ("ø"@, 116i64), ("ɸ"@, 118i64), ("θ"@, 119i64), ("œ"@, 120i64), ("ɹ"@, 123i64), ("ɾ"@, 125i64), ("ɻ"@, 126i64), ("ʀ"@, 128i64), ("ɽ"@, 129i64), ("ʂ"@, 130i64), ("ʃ"@, 131i64), ("ʈ"@, 132i64), ("ʧ"@, 133i64), ("ʊ"@, 135i64), ("ʌ"@, 138i64), ("ɣ"@, 139i64), ("ɤ"@, 140i64), ("χ"@, 142i64), ("ʎ"@, 143i64), ("ʒ"@, 147i64), ("ʔ"@, 148i64), ("ˈ"@, 156i64), ("ˌ"@, 157i64), ("ː"@, 158i64), ("ʰ"@, 162i64), ("ʲ"@, 164i64), ("↓"@, 169i64), ("→"@, 171i64), ("↗"@, 172i64), ("↘"@, 173i64), ("ᵻ"@, 177i64)
    ]
}

/// Kokoro v1's phoneme vocabulary: each symbol with its token id.
pub fn kokoro_vocab() -> (r: Vec<(String, i64)>)
    ensures
        r@.len() == KOKORO_VOCAB_SIZE,
        forall|k: int| 0 <= k < KOKORO_VOCAB_SIZE ==> (#[trigger] r@[k]).0@ == kokoro_vocab_table()[k].0
            && r@[k].1 == kokoro_vocab_table()[k].1,
{
    let table: [(&str, i64); 113] = [
        (";", 1), (":", 2), (",", 3), (".", 4), ("!", 5), ("?", 6), ("—", 9), ("…", 10), ("\"", 11), ("(", 12), (")", 13), ("“", 14), ("”", 15), (" ", 16), ("̃", 17), ("ʣ", 18), ("ʥ", 19), ("ʦ", 20), ("ʨ", 21), ("ᵝ", 22), ("ꭧ", 23), ("A", 24), ("I", 25), ("O", 31), ("Q", 33), ("S", 35), ("T", 36), ("W", 39), ("Y", 41), ("ᵊ", 42), ("a", 43), ("b", 44), ("c", 45), ("d", 46), ("e", 47), ("f", 48), ("h", 50), ("i", 51), ("j", 52), ("k", 53), ("l", 54), ("m", 55), ("n", 56), ("o", 57), ("p", 58), ("q", 59), ("r", 60), ("s", 61), ("t", 62), ("u", 63), ("v", 64), ("w", 65), ("x", 66), ("y", 67), ("z", 68), ("ɑ", 69), ("ɐ", 70), ("ɒ", 71), ("æ", 72), ("β", 75), ("ɔ", 76), ("ɕ", 77), ("ç", 78), ("ɗ", 80), ("ð", 81), ("ʤ", 82), ("ə", 83), ("ɚ", 85), ("ɛ", 86), ("ɜ", 87), ("ɟ", 90), ("ɡ", 92), ("ɥ", 99), ("ɨ", 101), ("ɪ", 102), ("ʝ", 103), ("ɯ", 110), ("ɰ", 111), ("ŋ", 112), ("ɳ", 113), ("ɲ", 114), ("ɴ", 115), ("ø", 116), ("ɸ", 118), ("θ", 119), ("œ", 120), ("ɹ", 123), ("ɾ", 125), ("ɻ", 126), ("ʀ", 128), ("ɽ", 129), ("ʂ", 130), ("ʃ", 131), ("ʈ", 132), ("ʧ", 133), ("ʊ", 135), ("ʌ", 138), ("ɣ", 139), ("ɤ", 140), ("χ", 142), ("ʎ", 143), ("ʒ", 147), ("ʔ", 148), ("ˈ", 156), ("ˌ", 157), ("ː", 158), ("ʰ", 162), ("ʲ", 164), ("↓", 169), ("→", 171), ("↗", 172), ("↘", 173), ("ᵻ", 177)
    ];
    assert(table@.len() == kokoro_vocab_table().len());
    assert forall|k: int| 0 <= k < KOKORO_VOCAB_SIZE implies (#[trigger] table@[k]).0@ == kokoro_vocab_table()[k].0
        && table@[k].1 == kokoro_vocab_table()[k].1 by {}
    let mut out: Vec<(String, i64)> = Vec::new();
    let mut k: usize = 0;
    while k < KOKORO_VOCAB_SIZE
        invariant
            0 <= k <= KOKORO_VOCAB_SIZE,
            out@.len() == k,
            forall|m: int| 0 <= m < KOKORO_VOCAB_SIZE ==> (#[trigger] table@[m]).0@ == kokoro_vocab_table()[m].0
                && table@[m].1 == kokoro_vocab_table()[m].1,
            forall|m: int| 0 <= m < k ==> (#[trigger] out@[m]).0@ == kokoro_vocab_table()[m].0
                && out@[m].1 == kokoro_vocab_table()[m].1,
        decreases KOKORO_VOCAB_SIZE - k,
    {
        out.push((table[k].0.to_string(), table[k].1));
        k = k + 1;
    }
    out
}

#[verifier::external_type_specification]
#[verifier::external_body]
pub struct ExEspeakNg(espeak_ng::EspeakNg);

/// Calls `espeak_ng::EspeakNg::text_to_phonemes_phonemizer`, which reads
/// the engine's dictionaries from its data directory, so nothing is stated
/// of the phonemes it gives; its error comes back as its message. The call
/// runs the crate's whole text-to-phoneme translator, which its source does
/// not show to be free of panics on every text; this contract does not
/// claim it is, and names no input on which it would panic.
#[verifier::external_body]
fn phonemize(engine: &espeak_ng::EspeakNg, text: &str) -> (r: Result<String, String>) {
    match engine.text_to_phonemes_phonemizer(text) {
        Ok(p) => Ok(p),
        Err(e) => Err(format!("{e}")),
    }
}

/// Why a text could not be turned into model input.
#[derive(Clone, Debug, PartialEq, Eq)]
pub enum TextTokensError {
    /// The phonemizer failed, with its message.
    Phonemizer(String),
    /// A batch holds this many tokens, more than the model takes.
    TooManyTokens(usize),
}

/// Phonemizes `text` and gives the model input of each batch (see
/// `phoneme_batches`), or the length of the first batch that is too long,
/// for whatever phonemes the phonemizer returns; its failure comes back as
/// `Phonemizer` with its message.
pub fn text_token_batches(engine: &espeak_ng::EspeakNg, text: &str, vocab: &Vec<(String, i64)>) -> (r: Result<
    Vec<Vec<i64>>,
    TextTokensError,
>)
    ensures
        r matches Ok(ts) ==> exists|raw: Seq<char>|
            {
                let batches = #[trigger] phoneme_batches_of(vocab@, raw);
                &&& first_too_long(vocab@, batches, 0) is None
                &&& ts@.len() == batches.len()
                &&& forall|k: int| 0 <= k < ts@.len() ==> (#[trigger] ts@[k])@ == spec_token_ids(vocab@, batches[k])
            },
        r matches Err(TextTokensError::TooManyTokens(n)) ==> exists|raw: Seq<char>|
            {
                let batches = #[trigger] phoneme_batches_of(vocab@, raw);
                first_too_long(vocab@, batches, 0) matches Some(k) && n == spec_token_ids(vocab@, batches[k]).len()
            },
{
    let raw = match phonemize(engine, text) {
        Ok(p) => p,
        Err(m) => {
            return Err(TextTokensError::Phonemizer(m));
        },
    };
    match phoneme_batches(raw.as_str(), vocab) {
        Ok(ts) => {
            assert(phoneme_batches_of(vocab@, raw@) == phoneme_batches_of(vocab@, raw@));
            Ok(ts)
        },
        Err(e) => {
            assert(phoneme_batches_of(vocab@, raw@) == phoneme_batches_of(vocab@, raw@));
            Err(TextTokensError::TooManyTokens(e.count))
        },
    }
}

} // verus!
