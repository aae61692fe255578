//! The TTS engines the settings window offers and the voices each one has
//! installed: which listing holds an engine's voices, and how raw entry
//! names become sorted voice names.

use vstd::prelude::*;
use crate::sentences::views;
use vstd::utf8::char_u32_cast;
use crate::text::{chars_of, string_of};

verus! {

/// TTS engines supported by the speech service, in display order.
pub const ENGINES: [&'static str; 3] = ["kokoro", "pocket-tts", "supertonic-3"];

/// Where an engine keeps its voices.
#[derive(Debug, Clone, Copy, PartialEq, Eq, Structural)]
pub enum VoiceSource {
    /// Entry names of the Kokoro voice archive (`.npy` files).
    KokoroArchive,
    /// File names in the PocketTTS `voices` directory (`.safetensors`).
    PocketVoices,
    /// File names in the Supertonic `voice_styles` directory (`.json`).
    SupertonicStyles,
}

/// The listing that holds `engine`'s voices, if the engine is known.
pub open spec fn spec_voice_source(engine: Seq<char>) -> Option<VoiceSource> {
    if engine == "kokoro"@ {
        Some(VoiceSource::KokoroArchive)
    } else if engine == "pocket-tts"@ {
        Some(VoiceSource::PocketVoices)
    } else if engine == "supertonic-3"@ {
        Some(VoiceSource::SupertonicStyles)
    } else {
        None
    }
}

/// The listing that holds `engine`'s voices, if the engine is known.
pub fn voice_source(engine: &str) -> (r: Option<VoiceSource>)
    ensures
        r == spec_voice_source(engine@),
{
    let e = chars_of(engine);
    let kokoro = chars_of("kokoro");
    let pocket = chars_of("pocket-tts");
    let supertonic = chars_of("supertonic-3");
    if same_chars(&e, &kokoro) {
        Some(VoiceSource::KokoroArchive)
    } else if same_chars(&e, &pocket) {
        Some(VoiceSource::PocketVoices)
    } else if same_chars(&e, &supertonic) {
        Some(VoiceSource::SupertonicStyles)
    } else {
        None
    }
}

/// Whether two character vectors are equal.
pub fn same_chars(a: &Vec<char>, b: &Vec<char>) -> (r: bool)
    ensures
        r == (a@ == b@),
{
    if a.len() != b.len() {
        return false;
    }
    let mut k: usize = 0;
    while k < a.len()
        invariant
            0 <= k <= a@.len(),
            a@.len() == b@.len(),
            forall|m: int| 0 <= m < k ==> a@[m] == b@[m],
        decreases a@.len() - k,
    {
        if a[k] != b[k] {
            return false;
        }
        k = k + 1;
    }
    assert(a@ =~= b@);
    true
}

// ---------------------------------------------------------------------------
// Name suffixes
// ---------------------------------------------------------------------------

/// Whether `s` ends with `suffix`.
pub open spec fn has_suffix(s: Seq<char>, suffix: Seq<char>) -> bool {
    suffix.len() <= s.len() && s.subrange(s.len() - suffix.len(), s.len() as int) == suffix
}

/// `s` with every trailing repetition of `suffix` removed (what
/// `str::trim_end_matches` does with a string pattern).
pub open spec fn strip_suffixes(s: Seq<char>, suffix: Seq<char>) -> Seq<char>
    decreases s.len(),
{
    if suffix.len() > 0 && has_suffix(s, suffix) {
        strip_suffixes(s.subrange(0, s.len() - suffix.len()), suffix)
    } else {
        s
    }
}

/// Whether the first `len` characters of `s` end with `suffix`.
pub fn ends_with_chars(s: &Vec<char>, len: usize, suffix: &Vec<char>) -> (r: bool)
    requires
        len <= s@.len(),
    ensures
        r == has_suffix(s@.subrange(0, len as int), suffix@),
{
    if suffix.len() > len {
        return false;
    }
    let start = len - suffix.len();
    let mut k: usize = 0;
    while k < suffix.len()
        invariant
            0 <= k <= suffix@.len(),
            start + suffix@.len() == len,
            len <= s@.len(),
            forall|m: int| 0 <= m < k ==> s@[start + m] == suffix@[m],
        decreases suffix@.len() - k,
    {
        if s[start + k] != suffix[k] {
            assert(s@.subrange(0, len as int).subrange(start as int, len as int)[k as int] != suffix@[k as int]);
            return false;
        }
        k = k + 1;
    }
    assert(s@.subrange(0, len as int).subrange(start as int, len as int) =~= suffix@);
    true
}

/// Length of `strip_suffixes(s[..len], suffix)`.
fn stripped_len(s: &Vec<char>, suffix: &Vec<char>) -> (r: usize)
    requires
        suffix@.len() > 0,
    ensures
        r <= s@.len(),
        s@.subrange(0, r as int) == strip_suffixes(s@, suffix@),
{
    let mut len = s.len();
    assert(s@.subrange(0, len as int) =~= s@);
    while ends_with_chars(s, len, suffix)
        invariant
            len <= s@.len(),
            suffix@.len() > 0,
            strip_suffixes(s@.subrange(0, len as int), suffix@) == strip_suffixes(s@, suffix@),
        decreases len,
    {
        let next = len - suffix.len();
        assert(s@.subrange(0, len as int).subrange(0, next as int) =~= s@.subrange(0, next as int));
        len = next;
    }
    len
}

// ---------------------------------------------------------------------------
// Lexicographic order
// ---------------------------------------------------------------------------

/// Lexicographic order by code point, which is the byte order of UTF-8
/// strings that `String`'s `Ord` uses.
pub open spec fn lex_le(a: Seq<char>, b: Seq<char>) -> bool
    decreases a.len(),
{
    if a.len() == 0 {
        true
    } else if b.len() == 0 {
        false
    } else if a[0] == b[0] {
        lex_le(a.drop_first(), b.drop_first())
    } else {
        (a[0] as u32) < (b[0] as u32)
    }
}

/// Any two sequences are ordered one way or the other.
pub proof fn lemma_lex_total(a: Seq<char>, b: Seq<char>)
    ensures
        lex_le(a, b) || lex_le(b, a),
    decreases a.len(),
{
    if a.len() > 0 && b.len() > 0 {
        if a[0] == b[0] {
            lemma_lex_total(a.drop_first(), b.drop_first());
        } else {
            char_u32_cast(a[0], a[0] as u32);
            char_u32_cast(b[0], b[0] as u32);
        }
    }
}

/// The order is transitive.
pub proof fn lemma_lex_transitive(a: Seq<char>, b: Seq<char>, c: Seq<char>)
    requires
        lex_le(a, b),
        lex_le(b, c),
    ensures
        lex_le(a, c),
    decreases a.len(),
{
    if a.len() > 0 && b.len() > 0 && c.len() > 0 && a[0] == b[0] && b[0] == c[0] {
        lemma_lex_transitive(a.drop_first(), b.drop_first(), c.drop_first());
    }
}

/// Sequences ordered both ways are equal.
pub proof fn lemma_lex_antisymmetric(a: Seq<char>, b: Seq<char>)
    requires
        lex_le(a, b),
        lex_le(b, a),
    ensures
        a == b,
    decreases a.len(),
{
    if a.len() > 0 && b.len() > 0 {
        lemma_lex_antisymmetric(a.drop_first(), b.drop_first());
        assert(a =~= seq![a[0]] + a.drop_first());
        assert(b =~= seq![b[0]] + b.drop_first());
    }
}

fn lex_le_exec(a: &Vec<char>, b: &Vec<char>) -> (r: bool)
    ensures
        r == lex_le(a@, b@),
{
    let mut k: usize = 0;
    assert(a@.skip(0) =~= a@);
    assert(b@.skip(0) =~= b@);
    while k < a.len() && k < b.len() && a[k] == b[k]
        invariant
            0 <= k <= a@.len(),
            k <= b@.len(),
            lex_le(a@, b@) == lex_le(a@.skip(k as int), b@.skip(k as int)),
        decreases a@.len() - k,
    {
        assert(a@.skip(k as int).drop_first() =~= a@.skip(k + 1));
        assert(b@.skip(k as int).drop_first() =~= b@.skip(k + 1));
        k = k + 1;
    }
    assert(k < a@.len() ==> a@.skip(k as int)[0] == a@[k as int]);
    assert(k < b@.len() ==> b@.skip(k as int)[0] == b@[k as int]);
    if k == a.len() {
        true
    } else if k == b.len() {
        false
    } else {
        (a[k] as u32) < (b[k] as u32)
    }
}

/// Inserting an element adds it to the multiset of elements.
pub proof fn lemma_insert_to_multiset<A>(s: Seq<A>, p: int, x: A)
    requires
        0 <= p <= s.len(),
    ensures
        s.insert(p, x).to_multiset() == s.to_multiset().insert(x),
{
    broadcast use vstd::seq_lib::group_to_multiset_ensures, vstd::multiset::group_multiset_axioms;

    let t = s.insert(p, x);
    assert(t.remove(p) =~= s);
    assert(t[p] == x);
    assert(t.contains(x));
    assert(t.to_multiset() =~= s.to_multiset().insert(x));
}

/// Whether `s` is in nondecreasing lexicographic order.
pub open spec fn lex_sorted(s: Seq<Seq<char>>) -> bool {
    forall|i: int, j: int| 0 <= i < j < s.len() ==> lex_le(#[trigger] s[i], #[trigger] s[j])
}

/// Sorts names in lexicographic order (stable insertion sort).
pub fn sort_names(names: Vec<String>) -> (r: Vec<String>)
    ensures
        lex_sorted(views(r@)),
        views(r@).to_multiset() == views(names@).to_multiset(),
        r@.len() == names@.len(),
{
    let mut out: Vec<String> = Vec::new();
    let mut k: usize = 0;
    assert(views(out@) =~= views(names@.take(0)));
    while k < names.len()
        invariant
            0 <= k <= names@.len(),
            out@.len() == k,
            lex_sorted(views(out@)),
            views(out@).to_multiset() == views(names@.take(k as int)).to_multiset(),
        decreases names@.len() - k,
    {
        let item = names[k].clone();
        let x = chars_of(item.as_str());
        let mut p: usize = 0;
        while p < out.len() && lex_le_exec(&chars_of(out[p].as_str()), &x)
            invariant
                0 <= p <= out@.len(),
                forall|i: int| 0 <= i < p ==> lex_le(#[trigger] views(out@)[i], x@),
            decreases out@.len() - p,
        {
            p = p + 1;
        }
        let ghost before = views(out@);
        proof {
            assert forall|j: int| p <= j < before.len() implies lex_le(x@, #[trigger] before[j]) by {
                if j == p {
                    lemma_lex_total(before[j], x@);
                } else {
                    lemma_lex_total(before[p as int], x@);
                    lemma_lex_transitive(x@, before[p as int], before[j]);
                }
            }
        }
        out.insert(p, item);
        assert(views(out@) =~= before.insert(p as int, x@));
        proof {
            let after = views(out@);
            assert forall|i: int, j: int| 0 <= i < j < after.len() implies lex_le(#[trigger] after[i], #[trigger] after[j]) by {
                if i < p && j == p {
                } else if i == p {
                } else if i < p && j > p {
                    lemma_lex_transitive(before[i], x@, before[j - 1]);
                } else {
                }
            }
            broadcast use vstd::seq_lib::group_to_multiset_ensures;

            assert(views(names@.take(k + 1)) =~= views(names@.take(k as int)).push(x@));
            lemma_insert_to_multiset(before, p as int, x@);
        }
        k = k + 1;
    }
    assert(names@.take(names@.len() as int) =~= names@);
    out
}

// ---------------------------------------------------------------------------
// Voice names
// ---------------------------------------------------------------------------

/// The names of `entries` that end with `suffix`, with the suffix removed.
pub open spec fn suffixed_names(entries: Seq<Seq<char>>, suffix: Seq<char>) -> Seq<Seq<char>>
    decreases entries.len(),
{
    if entries.len() == 0 {
        Seq::empty()
    } else if has_suffix(entries.last(), suffix) {
        suffixed_names(entries.drop_last(), suffix).push(strip_suffixes(entries.last(), suffix))
    } else {
        suffixed_names(entries.drop_last(), suffix)
    }
}

/// The archive entry names with `.npy` removed, dropping the empty ones.
pub open spec fn archive_names(entries: Seq<Seq<char>>) -> Seq<Seq<char>>
    decreases entries.len(),
{
    if entries.len() == 0 {
        Seq::empty()
    } else if strip_suffixes(entries.last(), ".npy"@).len() > 0 {
        archive_names(entries.drop_last()).push(strip_suffixes(entries.last(), ".npy"@))
    } else {
        archive_names(entries.drop_last())
    }
}

/// The voice names, before sorting, found in the listing of `source`.
pub open spec fn unsorted_voices(source: VoiceSource, entries: Seq<Seq<char>>) -> Seq<Seq<char>> {
    match source {
        VoiceSource::KokoroArchive => archive_names(entries),
        VoiceSource::PocketVoices => suffixed_names(entries, ".safetensors"@),
        VoiceSource::SupertonicStyles => suffixed_names(entries, ".json"@),
    }
}

/// The voices of `engine` whose listing (see `voice_source`) has the entry
/// names `entries`: the names that carry the engine's file extension,
/// without it, in lexicographic order; none for an unknown engine.
pub fn list_voices(engine: &str, entries: &Vec<String>) -> (r: Vec<String>)
    ensures
        spec_voice_source(engine@) is None ==> r@.len() == 0,
        spec_voice_source(engine@) matches Some(source) ==> {
            &&& lex_sorted(views(r@))
            &&& views(r@).to_multiset() == unsorted_voices(source, views(entries@)).to_multiset()
        },
{
    let source = voice_source(engine);
    let (suffix_text, keep_all) = match source {
        None => {
            return Vec::new();
        },
        Some(VoiceSource::KokoroArchive) => (".npy", true),
        Some(VoiceSource::PocketVoices) => (".safetensors", false),
        Some(VoiceSource::SupertonicStyles) => (".json", false),
    };
    let suffix = chars_of(suffix_text);
    proof {
        reveal_strlit(".npy");
        reveal_strlit(".safetensors");
        reveal_strlit(".json");
    }
    let ghost src = source->0;
    let mut names: Vec<String> = Vec::new();
    let mut k: usize = 0;
    while k < entries.len()
        invariant
            0 <= k <= entries@.len(),
            suffix@.len() > 0,
            source == Some(src),
            keep_all == (src == VoiceSource::KokoroArchive),
            src == VoiceSource::KokoroArchive ==> suffix@ == ".npy"@,
            src == VoiceSource::PocketVoices ==> suffix@ == ".safetensors"@,
            src == VoiceSource::SupertonicStyles ==> suffix@ == ".json"@,
            views(names@) == unsorted_voices(src, views(entries@.take(k as int))),
        decreases entries@.len() - k,
    {
        let name = chars_of(entries[k].as_str());
        let ghost prefix = views(entries@.take(k as int));
        assert(views(entries@.take(k + 1)) =~= prefix.push(name@));
        assert(views(entries@.take(k + 1)).drop_last() =~= prefix);
        let ghost before = names@;
        if keep_all {
            let len = stripped_len(&name, &suffix);
            if len > 0 {
                names.push(string_of(&name, 0, len));
                assert(views(names@) =~= views(before).push(name@.subrange(0, len as int)));
            }
        } else if ends_with_chars(&name, name.len(), &suffix) {
            assert(name@.subrange(0, name@.len() as int) =~= name@);
            let len = stripped_len(&name, &suffix);
            names.push(string_of(&name, 0, len));
            assert(views(names@) =~= views(before).push(name@.subrange(0, len as int)));
        } else {
            assert(name@.subrange(0, name@.len() as int) =~= name@);
        }
        k = k + 1;
    }
    assert(entries@.take(entries@.len() as int) =~= entries@);
    sort_names(names)
}

} // verus!
