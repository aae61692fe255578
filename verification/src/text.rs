//! Character-level text utilities shared by the segmenters: character
//! classes, whitespace trimming and tokenizing, and conversion between
//! strings and character vectors.

use vstd::prelude::*;
use vstd::std_specs::iter::IteratorSpec;
use vstd::utf8::{char_is_scalar, encode_scalar, encode_utf8};

verus! {

broadcast use vstd::string::group_string_axioms;

// ---------------------------------------------------------------------------
// Character classes
// ---------------------------------------------------------------------------

/// The Unicode `White_Space` property, as `char::is_whitespace` reports it:
/// tab to carriage return, space, next line, no-break space, Ogham space
/// mark, the spaces from en quad to hair space, line and paragraph
/// separators, narrow no-break space, medium mathematical space and
/// ideographic space.
pub open spec fn unicode_whitespace(c: char) -> bool {
    ||| ('\u{9}' <= c && c <= '\u{d}')
    ||| c == ' '
    ||| c == '\u{85}'
    ||| c == '\u{a0}'
    ||| c == '\u{1680}'
    ||| ('\u{2000}' <= c && c <= '\u{200a}')
    ||| c == '\u{2028}'
    ||| c == '\u{2029}'
    ||| c == '\u{202f}'
    ||| c == '\u{205f}'
    ||| c == '\u{3000}'
}

/// The Unicode `Lowercase` property, as `char::is_lowercase` reports it.
pub uninterp spec fn unicode_lowercase(c: char) -> bool;

/// The Unicode `Alphabetic` or numeric property, as `char::is_alphanumeric` reports it.
pub uninterp spec fn unicode_alphanumeric(c: char) -> bool;

/// Calls `char::is_whitespace`; the result is the character's Unicode
/// `White_Space` property (see `unicode_whitespace`).
#[verifier::external_body]
pub(crate) fn is_whitespace(c: char) -> (r: bool)
    ensures
        r == unicode_whitespace(c),
{
    c.is_whitespace()
}

/// Calls `char::is_lowercase`; the result is the character's Unicode
/// `Lowercase` property, which this contract only names.
#[verifier::external_body]
pub(crate) fn is_lowercase(c: char) -> (r: bool)
    ensures
        r == unicode_lowercase(c),
{
    c.is_lowercase()
}

/// Calls `char::is_alphanumeric`; the result is whether the character is
/// Unicode alphabetic or numeric, which this contract only names.
#[verifier::external_body]
pub(crate) fn is_alphanumeric(c: char) -> (r: bool)
    ensures
        r == unicode_alphanumeric(c),
{
    c.is_alphanumeric()
}

/// Calls `String::push`, which appends one character.
#[verifier::external_body]
pub(crate) fn push_char(s: &mut String, c: char)
    ensures
        final(s)@ == old(s)@.push(c),
{
    s.push(c)
}

pub open spec fn ascii_digit(c: char) -> bool {
    '0' <= c && c <= '9'
}

pub open spec fn ascii_upper(c: char) -> bool {
    'A' <= c && c <= 'Z'
}

pub open spec fn ascii_lower(c: char) -> bool {
    'a' <= c && c <= 'z'
}

pub open spec fn ascii_alnum(c: char) -> bool {
    ascii_digit(c) || ascii_upper(c) || ascii_lower(c)
}

/// ASCII lower-casing of one character (other characters are unchanged).
pub open spec fn ascii_fold(c: char) -> char {
    if ascii_upper(c) {
        ((c as u32) + 32) as char
    } else {
        c
    }
}

pub fn is_ascii_digit(c: char) -> (r: bool)
    ensures
        r == ascii_digit(c),
{
    '0' <= c && c <= '9'
}

pub fn is_ascii_uppercase(c: char) -> (r: bool)
    ensures
        r == ascii_upper(c),
{
    'A' <= c && c <= 'Z'
}

pub fn is_ascii_alphanumeric(c: char) -> (r: bool)
    ensures
        r == ascii_alnum(c),
{
    ('0' <= c && c <= '9') || ('A' <= c && c <= 'Z') || ('a' <= c && c <= 'z')
}

pub fn ascii_fold_char(c: char) -> (r: char)
    ensures
        r == ascii_fold(c),
{
    if 'A' <= c && c <= 'Z' {
        let b: u8 = c as u8;
        assert(65 <= b <= 90);
        let lower: u8 = b + 32;
        (lower as char)
    } else {
        c
    }
}

// ---------------------------------------------------------------------------
// Trimming
// ---------------------------------------------------------------------------

/// The whitespace class used by `str::trim` and `str::split_whitespace`.
pub open spec fn ws() -> spec_fn(char) -> bool {
    |c: char| unicode_whitespace(c)
}

/// Characters that are not ASCII letters or digits.
pub open spec fn not_alnum() -> spec_fn(char) -> bool {
    |c: char| !ascii_alnum(c)
}

/// `s` without its trailing characters of class `p`.
pub open spec fn trim_end_by(s: Seq<char>, p: spec_fn(char) -> bool) -> Seq<char>
    decreases s.len(),
{
    if s.len() > 0 && p(s.last()) {
        trim_end_by(s.drop_last(), p)
    } else {
        s
    }
}

/// `s` without its leading characters of class `p`.
pub open spec fn trim_start_by(s: Seq<char>, p: spec_fn(char) -> bool) -> Seq<char>
    decreases s.len(),
{
    if s.len() > 0 && p(s[0]) {
        trim_start_by(s.drop_first(), p)
    } else {
        s
    }
}

/// `s` without its leading and trailing characters of class `p`
/// (what `str::trim_matches` leaves).
pub open spec fn trim_by(s: Seq<char>, p: spec_fn(char) -> bool) -> Seq<char> {
    trim_start_by(trim_end_by(s, p), p)
}

pub open spec fn trim_end(s: Seq<char>) -> Seq<char> {
    trim_end_by(s, ws())
}

pub open spec fn trim_start(s: Seq<char>) -> Seq<char> {
    trim_start_by(s, ws())
}

/// What `str::trim` leaves: leading and trailing whitespace removed.
pub open spec fn trim(s: Seq<char>) -> Seq<char> {
    trim_by(s, ws())
}

/// `trim_end_by(s, p)` is the prefix of `s` up to its last character outside `p`.
pub proof fn lemma_trim_end_shape(s: Seq<char>, p: spec_fn(char) -> bool)
    ensures
        trim_end_by(s, p) =~= s.subrange(0, trim_end_by(s, p).len() as int),
        trim_end_by(s, p).len() <= s.len(),
        trim_end_by(s, p).len() > 0 ==> !p(trim_end_by(s, p).last()),
        forall|k: int| trim_end_by(s, p).len() <= k < s.len() ==> p(#[trigger] s[k]),
    decreases s.len(),
{
    if s.len() > 0 && p(s.last()) {
        lemma_trim_end_shape(s.drop_last(), p);
        assert forall|k: int| trim_end_by(s, p).len() <= k < s.len() implies p(#[trigger] s[k]) by {
            if k < s.len() - 1 {
                assert(s[k] == s.drop_last()[k]);
            }
        }
    }
}

/// `trim_start_by(s, p)` is the suffix of `s` from its first character outside `p`.
pub proof fn lemma_trim_start_shape(s: Seq<char>, p: spec_fn(char) -> bool)
    ensures
        trim_start_by(s, p) =~= s.subrange(s.len() - trim_start_by(s, p).len(), s.len() as int),
        trim_start_by(s, p).len() <= s.len(),
        trim_start_by(s, p).len() > 0 ==> !p(trim_start_by(s, p)[0]),
        forall|k: int| 0 <= k < s.len() - trim_start_by(s, p).len() ==> p(#[trigger] s[k]),
    decreases s.len(),
{
    if s.len() > 0 && p(s[0]) {
        lemma_trim_start_shape(s.drop_first(), p);
        assert forall|k: int| 0 <= k < s.len() - trim_start_by(s, p).len() implies p(
            #[trigger] s[k],
        ) by {
            if k > 0 {
                assert(s[k] == s.drop_first()[k - 1]);
            }
        }
    }
}

/// A trimmed sequence neither starts nor ends with a character of the class.
pub proof fn lemma_trim_edges(s: Seq<char>, p: spec_fn(char) -> bool)
    ensures
        trim_by(s, p).len() > 0 ==> !p(trim_by(s, p)[0]) && !p(trim_by(s, p).last()),
        trim_by(s, p).len() <= s.len(),
{
    lemma_trim_end_shape(s, p);
    lemma_trim_start_shape(trim_end_by(s, p), p);
    let e = trim_end_by(s, p);
    let t = trim_by(s, p);
    if t.len() > 0 {
        assert(t.last() == e.last());
    }
}

/// Whether `c` is in the class that `alnum_class` selects: characters that are
/// not ASCII alphanumeric when it is set, whitespace otherwise.
pub open spec fn class_of(alnum_class: bool) -> spec_fn(char) -> bool {
    if alnum_class {
        not_alnum()
    } else {
        ws()
    }
}

fn in_class(c: char, alnum_class: bool) -> (r: bool)
    ensures
        r == class_of(alnum_class)(c),
{
    if alnum_class {
        !is_ascii_alphanumeric(c)
    } else {
        is_whitespace(c)
    }
}

/// End index `j` in `lo..=hi` such that `v[lo..j]` is `v[lo..hi]` with its
/// trailing characters of the class removed.
pub fn trim_end_index(v: &Vec<char>, lo: usize, hi: usize, alnum_class: bool) -> (j: usize)
    requires
        lo <= hi <= v@.len(),
    ensures
        lo <= j <= hi,
        v@.subrange(lo as int, j as int) == trim_end_by(
            v@.subrange(lo as int, hi as int),
            class_of(alnum_class),
        ),
{
    let ghost p = class_of(alnum_class);
    let mut j: usize = hi;
    while j > lo && in_class(v[j - 1], alnum_class)
        invariant
            lo <= j <= hi <= v@.len(),
            p == class_of(alnum_class),
            trim_end_by(v@.subrange(lo as int, hi as int), p) == trim_end_by(
                v@.subrange(lo as int, j as int),
                p,
            ),
        decreases j,
    {
        let ghost s = v@.subrange(lo as int, j as int);
        assert(s.drop_last() =~= v@.subrange(lo as int, j - 1));
        j = j - 1;
    }
    j
}

/// Start index `i` in `lo..=hi` such that `v[i..hi]` is `v[lo..hi]` with its
/// leading characters of the class removed.
pub fn trim_start_index(v: &Vec<char>, lo: usize, hi: usize, alnum_class: bool) -> (i: usize)
    requires
        lo <= hi <= v@.len(),
    ensures
        lo <= i <= hi,
        v@.subrange(i as int, hi as int) == trim_start_by(
            v@.subrange(lo as int, hi as int),
            class_of(alnum_class),
        ),
{
    let ghost p = class_of(alnum_class);
    let mut i: usize = lo;
    while i < hi && in_class(v[i], alnum_class)
        invariant
            lo <= i <= hi <= v@.len(),
            p == class_of(alnum_class),
            trim_start_by(v@.subrange(lo as int, hi as int), p) == trim_start_by(
                v@.subrange(i as int, hi as int),
                p,
            ),
        decreases hi - i,
    {
        let ghost s = v@.subrange(i as int, hi as int);
        assert(s.drop_first() =~= v@.subrange(i + 1, hi as int));
        i = i + 1;
    }
    i
}

/// Bounds `(a, b)` inside `lo..hi` whose slice is the trimmed slice `lo..hi`
/// (class as in `class_of`).
pub fn trim_bounds_by(v: &Vec<char>, lo: usize, hi: usize, alnum_class: bool) -> (r: (usize, usize))
    requires
        lo <= hi <= v@.len(),
    ensures
        lo <= r.0 <= r.1 <= hi,
        v@.subrange(r.0 as int, r.1 as int) == trim_by(
            v@.subrange(lo as int, hi as int),
            class_of(alnum_class),
        ),
{
    let j = trim_end_index(v, lo, hi, alnum_class);
    let i = trim_start_index(v, lo, j, alnum_class);
    (i, j)
}

/// Bounds `(a, b)` inside `lo..hi` whose slice is `trim` of the slice `lo..hi`.
pub fn trim_bounds(v: &Vec<char>, lo: usize, hi: usize) -> (r: (usize, usize))
    requires
        lo <= hi <= v@.len(),
    ensures
        lo <= r.0 <= r.1 <= hi,
        v@.subrange(r.0 as int, r.1 as int) == trim(v@.subrange(lo as int, hi as int)),
{
    trim_bounds_by(v, lo, hi, false)
}

// ---------------------------------------------------------------------------
// Whitespace-separated words
// ---------------------------------------------------------------------------

/// End of the run of non-whitespace characters that starts at `i`.
pub open spec fn word_end(s: Seq<char>, i: int) -> int
    decreases s.len() - i,
{
    if 0 <= i < s.len() && !unicode_whitespace(s[i]) {
        word_end(s, i + 1)
    } else {
        i
    }
}

pub proof fn lemma_word_end(s: Seq<char>, i: int)
    requires
        0 <= i <= s.len(),
    ensures
        i <= word_end(s, i) <= s.len(),
        forall|k: int| i <= k < word_end(s, i) ==> !unicode_whitespace(#[trigger] s[k]),
        word_end(s, i) < s.len() ==> unicode_whitespace(s[word_end(s, i)]),
    decreases s.len() - i,
{
    if i < s.len() && !unicode_whitespace(s[i]) {
        lemma_word_end(s, i + 1);
    }
}

/// The whitespace-separated words of `s` from index `i` on.
pub open spec fn words_from(s: Seq<char>, i: int) -> Seq<Seq<char>>
    decreases s.len() - i,
{
    if i < 0 || i >= s.len() {
        Seq::empty()
    } else if unicode_whitespace(s[i]) {
        words_from(s, i + 1)
    } else {
        let e = word_end(s, i);
        proof {
            lemma_word_end(s, i + 1);
        }
        seq![s.subrange(i, e)] + words_from(s, e)
    }
}

/// What `str::split_whitespace` yields: the maximal runs of non-whitespace
/// characters, in order.
pub open spec fn words(s: Seq<char>) -> Seq<Seq<char>> {
    words_from(s, 0)
}

/// When `s` ends with a non-empty run `s[k..]` of non-whitespace characters
/// preceded by whitespace (or the start), that run is the last word.
pub proof fn lemma_last_word(s: Seq<char>, k: int, j: int)
    requires
        0 <= j <= k < s.len(),
        k == 0 || unicode_whitespace(s[k - 1]),
        forall|m: int| k <= m < s.len() ==> !unicode_whitespace(#[trigger] s[m]),
    ensures
        words_from(s, j).len() > 0,
        words_from(s, j).last() == s.subrange(k, s.len() as int),
    decreases k - j,
{
    if j == k {
        lemma_word_end(s, k);
        assert(word_end(s, k) == s.len());
        assert(words_from(s, s.len() as int) == Seq::<Seq<char>>::empty());
    } else if unicode_whitespace(s[j]) {
        lemma_last_word(s, k, j + 1);
    } else {
        lemma_word_end(s, j);
        let e = word_end(s, j);
        assert(e <= k) by {
            if e > k {
                assert(!unicode_whitespace(s[k - 1]));
            }
        }
        lemma_last_word(s, k, e);
    }
}

/// Bounds of the words of `v[lo..hi]`, in order.
pub fn word_bounds(v: &Vec<char>, lo: usize, hi: usize) -> (r: Vec<(usize, usize)>)
    requires
        lo <= hi <= v@.len(),
    ensures
        r@.len() == words(v@.subrange(lo as int, hi as int)).len(),
        forall|k: int|
            0 <= k < r@.len() ==> {
                &&& lo <= (#[trigger] r@[k]).0 <= r@[k].1 <= hi
                &&& v@.subrange(r@[k].0 as int, r@[k].1 as int) == words(
                    v@.subrange(lo as int, hi as int),
                )[k]
            },
{
    let ghost s = v@.subrange(lo as int, hi as int);
    let mut r: Vec<(usize, usize)> = Vec::new();
    let ghost mut done: Seq<Seq<char>> = Seq::empty();
    let mut i: usize = lo;
    while i < hi
        invariant
            lo <= i <= hi <= v@.len(),
            s == v@.subrange(lo as int, hi as int),
            done + words_from(s, i - lo) == words(s),
            r@.len() == done.len(),
            forall|k: int|
                0 <= k < r@.len() ==> {
                    &&& lo <= (#[trigger] r@[k]).0 <= r@[k].1 <= hi
                    &&& v@.subrange(r@[k].0 as int, r@[k].1 as int) == done[k]
                },
        decreases hi - i,
    {
        if is_whitespace(v[i]) {
            i = i + 1;
        } else {
            let start = i;
            let mut e: usize = i;
            while e < hi && !is_whitespace(v[e])
                invariant
                    start <= e <= hi <= v@.len(),
                    lo <= start < hi,
                    s == v@.subrange(lo as int, hi as int),
                    word_end(s, start - lo) == word_end(s, e - lo),
                decreases hi - e,
            {
                e = e + 1;
            }
            proof {
                lemma_word_end(s, start - lo);
                assert(s.subrange(start - lo, e - lo) =~= v@.subrange(start as int, e as int));
                done = done + seq![v@.subrange(start as int, e as int)];
            }
            r.push((start, e));
            i = e;
        }
    }
    proof {
        assert(words_from(s, i - lo) == Seq::<Seq<char>>::empty());
        assert(done =~= words(s));
    }
    r
}

/// `words` joined by `sep` (what `join` on a list of strings gives).
pub open spec fn join(parts: Seq<Seq<char>>, sep: Seq<char>) -> Seq<char>
    decreases parts.len(),
{
    if parts.len() == 0 {
        Seq::empty()
    } else if parts.len() == 1 {
        parts[0]
    } else {
        join(parts.drop_last(), sep) + sep + parts.last()
    }
}

// ---------------------------------------------------------------------------
// ASCII case-insensitive comparison
// ---------------------------------------------------------------------------

/// What `str::eq_ignore_ascii_case` decides.
pub open spec fn eq_ignore_ascii_case(a: Seq<char>, b: Seq<char>) -> bool {
    a.len() == b.len() && forall|k: int| 0 <= k < a.len() ==> ascii_fold(#[trigger] a[k]) == ascii_fold(b[k])
}

/// Whether `v[lo..hi]` equals `w` ignoring ASCII case.
pub fn slice_eq_ignore_ascii_case(v: &Vec<char>, lo: usize, hi: usize, w: &Vec<char>) -> (r: bool)
    requires
        lo <= hi <= v@.len(),
    ensures
        r == eq_ignore_ascii_case(v@.subrange(lo as int, hi as int), w@),
{
    if hi - lo != w.len() {
        return false;
    }
    let mut k: usize = 0;
    while k < w.len()
        invariant
            lo <= hi <= v@.len(),
            hi - lo == w@.len(),
            0 <= k <= w@.len(),
            forall|m: int| 0 <= m < k ==> ascii_fold(#[trigger] v@[lo + m]) == ascii_fold(w@[m]),
        decreases w@.len() - k,
    {
        if ascii_fold_char(v[lo + k]) != ascii_fold_char(w[k]) {
            assert(v@.subrange(lo as int, hi as int)[k as int] == v@[lo + k]);
            return false;
        }
        k = k + 1;
    }
    assert forall|m: int| 0 <= m < w@.len() implies ascii_fold(
        #[trigger] v@.subrange(lo as int, hi as int)[m],
    ) == ascii_fold(w@[m]) by {
        assert(v@.subrange(lo as int, hi as int)[m] == v@[lo + m]);
    }
    true
}

/// Whether `v[lo..hi]` equals `w` exactly.
pub fn slice_eq(v: &Vec<char>, lo: usize, hi: usize, w: &Vec<char>) -> (r: bool)
    requires
        lo <= hi <= v@.len(),
    ensures
        r == (v@.subrange(lo as int, hi as int) == w@),
{
    if hi - lo != w.len() {
        return false;
    }
    let mut k: usize = 0;
    while k < w.len()
        invariant
            lo <= hi <= v@.len(),
            hi - lo == w@.len(),
            0 <= k <= w@.len(),
            forall|m: int| 0 <= m < k ==> #[trigger] v@[lo + m] == w@[m],
        decreases w@.len() - k,
    {
        if v[lo + k] != w[k] {
            assert(v@.subrange(lo as int, hi as int)[k as int] != w@[k as int]);
            return false;
        }
        k = k + 1;
    }
    assert forall|m: int| 0 <= m < w@.len() implies #[trigger] v@.subrange(
        lo as int,
        hi as int,
    )[m] == w@[m] by {
        assert(v@[lo + m] == w@[m]);
    }
    assert(v@.subrange(lo as int, hi as int) =~= w@);
    true
}

// ---------------------------------------------------------------------------
// Filtering and replacing
// ---------------------------------------------------------------------------

/// The characters of `s` that satisfy `p`, in order.
pub open spec fn keep(s: Seq<char>, p: spec_fn(char) -> bool) -> Seq<char>
    decreases s.len(),
{
    if s.len() == 0 {
        s
    } else if p(s.last()) {
        keep(s.drop_last(), p).push(s.last())
    } else {
        keep(s.drop_last(), p)
    }
}

/// What `str::replace` gives: every non-overlapping occurrence of `from`,
/// scanning left to right, replaced by `to`.
pub open spec fn replace_all(s: Seq<char>, from: Seq<char>, to: Seq<char>) -> Seq<char>
    decreases s.len(),
{
    if from.len() == 0 || s.len() == 0 {
        s
    } else if s.len() >= from.len() && s.subrange(0, from.len() as int) == from {
        to + replace_all(s.skip(from.len() as int), from, to)
    } else {
        seq![s[0]] + replace_all(s.drop_first(), from, to)
    }
}

/// `v` with every occurrence of `from` replaced by `to` (see `replace_all`).
pub fn replace_chars(v: &Vec<char>, from: &Vec<char>, to: &Vec<char>) -> (r: Vec<char>)
    requires
        from@.len() > 0,
    ensures
        r@ == replace_all(v@, from@, to@),
{
    let mut out: Vec<char> = Vec::new();
    let n = v.len();
    let f = from.len();
    let mut i: usize = 0;
    assert(v@.skip(0) =~= v@);
    assert(out@ + replace_all(v@.skip(0), from@, to@) =~= replace_all(v@, from@, to@));
    while i < n
        invariant
            n == v@.len(),
            f == from@.len(),
            f > 0,
            0 <= i <= n,
            out@ + replace_all(v@.skip(i as int), from@, to@) == replace_all(v@, from@, to@),
        decreases n - i,
    {
        let ghost rest = v@.skip(i as int);
        if f <= n - i && slice_eq(v, i, i + f, from) {
            assert(rest.subrange(0, f as int) =~= v@.subrange(i as int, i + f));
            assert(rest.skip(f as int) =~= v@.skip(i + f));
            let ghost before = out@;
            let mut k: usize = 0;
            while k < to.len()
                invariant
                    0 <= k <= to@.len(),
                    out@ == before + to@.subrange(0, k as int),
                decreases to@.len() - k,
            {
                out.push(to[k]);
                assert(to@.subrange(0, k + 1) =~= to@.subrange(0, k as int).push(to@[k as int]));
                k = k + 1;
            }
            assert(to@.subrange(0, to@.len() as int) =~= to@);
            assert(out@ + replace_all(v@.skip(i + f), from@, to@) =~= before + (to@ + replace_all(
                rest.skip(f as int),
                from@,
                to@,
            )));
            i = i + f;
        } else {
            if f <= n - i {
                assert(rest.subrange(0, f as int) =~= v@.subrange(i as int, i + f));
            }
            assert(rest.drop_first() =~= v@.skip(i + 1));
            assert(rest[0] == v@[i as int]);
            let ghost before = out@;
            out.push(v[i]);
            assert(out@ + replace_all(v@.skip(i + 1), from@, to@) =~= before + (seq![rest[0]]
                + replace_all(rest.drop_first(), from@, to@)));
            i = i + 1;
        }
    }
    assert(v@.skip(n as int) =~= Seq::<char>::empty());
    assert(out@ =~= replace_all(v@, from@, to@));
    out
}

// ---------------------------------------------------------------------------
// UTF-8 byte lengths
// ---------------------------------------------------------------------------

/// Number of bytes of the UTF-8 encoding of `s`, which is what `str::len`
/// reports.
pub open spec fn byte_len(s: Seq<char>) -> nat {
    encode_utf8(s).len()
}

/// `byte_len(s)`, capped at `usize::MAX`.
pub open spec fn capped_byte_len(s: Seq<char>) -> nat {
    if byte_len(s) < usize::MAX {
        byte_len(s)
    } else {
        usize::MAX as nat
    }
}

/// The encoding of a concatenation is the concatenation of the encodings.
pub proof fn lemma_encode_concat(a: Seq<char>, b: Seq<char>)
    ensures
        encode_utf8(a + b) == encode_utf8(a) + encode_utf8(b),
    decreases a.len(),
{
    if a.len() == 0 {
        assert(a + b =~= b);
        assert(encode_utf8(a) + encode_utf8(b) =~= encode_utf8(b));
    } else {
        assert((a + b).drop_first() =~= a.drop_first() + b);
        lemma_encode_concat(a.drop_first(), b);
        assert(encode_utf8(a + b) =~= encode_scalar(a[0] as u32) + (encode_utf8(a.drop_first())
            + encode_utf8(b)));
    }
}

/// A single character is encoded by itself.
pub proof fn lemma_byte_len_single(c: char)
    ensures
        byte_len(seq![c]) == encode_scalar(c as u32).len(),
{
    let s = seq![c];
    assert(s.drop_first() =~= Seq::<char>::empty());
    assert(encode_utf8(s.drop_first()) =~= Seq::<u8>::empty());
    assert(encode_utf8(s) =~= encode_scalar(s[0] as u32) + encode_utf8(s.drop_first()));
}

/// Byte length of a single character.
pub fn utf8_width(c: char) -> (r: usize)
    ensures
        r == byte_len(seq![c]),
        1 <= r <= 4,
{
    proof {
        char_is_scalar(c);
        lemma_byte_len_single(c);
    }
    let u: u32 = c as u32;
    if u <= 0x7F {
        1
    } else if u <= 0x7FF {
        2
    } else if u <= 0xFFFF {
        3
    } else {
        4
    }
}

/// Byte length of `v`, capped at `usize::MAX`.
pub fn capped_byte_len_of(v: &Vec<char>) -> (r: usize)
    ensures
        r == capped_byte_len(v@),
{
    let mut total: usize = 0;
    let mut i: usize = 0;
    while i < v.len()
        invariant
            0 <= i <= v@.len(),
            total == capped_byte_len(v@.take(i as int)),
        decreases v@.len() - i,
    {
        let w = utf8_width(v[i]);
        proof {
            assert(v@.take(i + 1) =~= v@.take(i as int) + seq![v@[i as int]]);
            lemma_encode_concat(v@.take(i as int), seq![v@[i as int]]);
        }
        total = total.saturating_add(w);
        i = i + 1;
    }
    assert(v@.take(v@.len() as int) =~= v@);
    total
}

// ---------------------------------------------------------------------------
// Strings and character vectors
// ---------------------------------------------------------------------------

/// The characters of `s`, in order.
pub fn chars_of(s: &str) -> (v: Vec<char>)
    ensures
        v@ == s@,
{
    let mut v: Vec<char> = Vec::new();
    for c in iter: s.chars()
        invariant
            v@ == iter.seq().take(iter.index() as int),
    {
        v.push(c);
    }
    assert(v@ =~= s@);
    v
}

/// The characters `v[lo..hi]` as a vector of their own.
pub fn slice_of(v: &Vec<char>, lo: usize, hi: usize) -> (r: Vec<char>)
    requires
        lo <= hi <= v@.len(),
    ensures
        r@ == v@.subrange(lo as int, hi as int),
{
    let mut r: Vec<char> = Vec::new();
    let mut i: usize = lo;
    while i < hi
        invariant
            lo <= i <= hi <= v@.len(),
            r@ == v@.subrange(lo as int, i as int),
        decreases hi - i,
    {
        r.push(v[i]);
        assert(v@.subrange(lo as int, i + 1) =~= v@.subrange(lo as int, i as int).push(v@[i as int]));
        i = i + 1;
    }
    r
}

/// Appends the characters of `w` to `out`.
pub fn push_all(out: &mut Vec<char>, w: &Vec<char>)
    ensures
        final(out)@ == old(out)@ + w@,
{
    let mut k: usize = 0;
    while k < w.len()
        invariant
            0 <= k <= w@.len(),
            out@ == old(out)@ + w@.subrange(0, k as int),
        decreases w@.len() - k,
    {
        out.push(w[k]);
        assert(w@.subrange(0, k + 1) =~= w@.subrange(0, k as int).push(w@[k as int]));
        k = k + 1;
    }
    assert(w@.subrange(0, w@.len() as int) =~= w@);
}

/// Appends the characters of `s` to `out`.
pub fn append_str(out: &mut String, s: &str)
    ensures
        final(out)@ == old(out)@ + s@,
{
    let v = chars_of(s);
    let mut k: usize = 0;
    while k < v.len()
        invariant
            0 <= k <= v@.len(),
            v@ == s@,
            out@ == old(out)@ + v@.subrange(0, k as int),
        decreases v@.len() - k,
    {
        push_char(out, v[k]);
        assert(v@.subrange(0, k + 1) =~= v@.subrange(0, k as int).push(v@[k as int]));
        k = k + 1;
    }
    assert(v@.subrange(0, v@.len() as int) =~= v@);
}

/// The string made of `v[lo..hi]`.
pub fn string_of(v: &Vec<char>, lo: usize, hi: usize) -> (s: String)
    requires
        lo <= hi <= v@.len(),
    ensures
        s@ == v@.subrange(lo as int, hi as int),
{
    let mut s = String::new();
    let mut i: usize = lo;
    while i < hi
        invariant
            lo <= i <= hi <= v@.len(),
            s@ == v@.subrange(lo as int, i as int),
        decreases hi - i,
    {
        push_char(&mut s, v[i]);
        assert(v@.subrange(lo as int, i + 1) =~= v@.subrange(lo as int, i as int).push(v@[i as int]));
        i = i + 1;
    }
    s
}

} // verus!
