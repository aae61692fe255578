//! Host-side logic of the PocketTTS engine: the weight precision for each
//! quality, the copy of a stored state tensor into a tensor of another
//! shape, the greedy sentencepiece tokenizer, and the split of text into
//! chunks of a bounded number of tokens.

use vstd::prelude::*;
use crate::sentences::{views, Quality};
use crate::text::{
    chars_of, lemma_word_end, push_all, slice_eq, slice_of, string_of, trim, trim_bounds, unicode_whitespace, word_bounds, word_end,
    words, words_from,
};

verus! {

/// Weight precision of the PocketTTS model files.
#[derive(Clone, Copy, Debug, PartialEq, Eq, Structural)]
pub enum Precision {
    Int8,
    Fp32,
}

/// The precision that serves each quality.
pub open spec fn spec_precision_for(quality: Quality) -> Precision {
    match quality {
        Quality::Low => Precision::Int8,
        Quality::High => Precision::Fp32,
    }
}

impl From<Quality> for Precision {
    fn from(quality: Quality) -> (r: Self) {
        match quality {
            Quality::Low => Precision::Int8,
            Quality::High => Precision::Fp32,
        }
    }
}

impl vstd::std_specs::convert::FromSpecImpl<Quality> for Precision {
    open spec fn obeys_from_spec() -> bool {
        true
    }

    open spec fn from_spec(quality: Quality) -> Precision {
        spec_precision_for(quality)
    }
}

// ---------------------------------------------------------------------------
// Copying a tensor into another shape
// ---------------------------------------------------------------------------

/// Product of `dims[lo..hi]`.
pub open spec fn range_product(dims: Seq<usize>, lo: int, hi: int) -> int
    decreases hi - lo,
{
    if lo >= hi {
        1
    } else {
        dims[lo] * range_product(dims, lo + 1, hi)
    }
}

/// Every product `dims[lo..n]` fits in a `usize`.
pub open spec fn suffix_products_fit(dims: Seq<usize>, n: int) -> bool {
    forall|lo: int| 0 <= lo <= n ==> #[trigger] range_product(dims, lo, n) <= usize::MAX
}

/// Row-major position in a source tensor of shape `source` of the element
/// whose flat index over the first `m` axes of a tensor of shape `target`
/// is `rem`; `None` when one of its coordinates lies outside the source.
pub open spec fn source_position(target: Seq<usize>, source: Seq<usize>, rem: int, m: int) -> Option<int>
    decreases m,
{
    if m <= 0 {
        Some(0)
    } else {
        let axis = m - 1;
        let c = rem % (target[axis] as int);
        if axis >= source.len() || c >= source[axis] {
            None
        } else {
            match source_position(target, source, rem / (target[axis] as int), m - 1) {
                Some(x) => Some(c + source[axis] * x),
                None => None,
            }
        }
    }
}

/// `x` scaled by `stride` and moved by `base`.
pub open spec fn offset_by(x: Option<int>, base: int, stride: int) -> Option<int> {
    match x {
        Some(v) => Some(base + stride * v),
        None => None,
    }
}

/// The tensor of shape `target` whose elements are those of `source` at the
/// same coordinates, and `fill` where the coordinates lie outside `source`;
/// `source` itself when the shapes agree.
pub open spec fn spec_copy_prefix<T>(source: Seq<T>, source_shape: Seq<usize>, target_shape: Seq<usize>, fill: T) -> Seq<T> {
    if source_shape == target_shape {
        source
    } else {
        let n = target_shape.len() as int;
        Seq::new(
            range_product(target_shape, 0, n) as nat,
            |j: int| copied_element(source, source_shape, target_shape, fill, j),
        )
    }
}

/// Element `j` of the copy into a tensor of another shape.
pub open spec fn copied_element<T>(source: Seq<T>, source_shape: Seq<usize>, target_shape: Seq<usize>, fill: T, j: int) -> T {
    match source_position(target_shape, source_shape, j, target_shape.len() as int) {
        Some(i) => source[i],
        None => fill,
    }
}

/// What `copy_prefix` needs to stay within `usize` and inside `source`.
pub open spec fn copy_prefix_fits(source_len: int, source_shape: Seq<usize>, target_shape: Seq<usize>) -> bool {
    let n = target_shape.len() as int;
    source_shape != target_shape ==> {
        &&& suffix_products_fit(target_shape, n)
        &&& source_shape.len() >= n ==> suffix_products_fit(source_shape, n) && range_product(
            source_shape,
            0,
            n,
        ) <= source_len
    }
}

proof fn lemma_product_nonnegative(dims: Seq<usize>, lo: int, hi: int)
    ensures
        range_product(dims, lo, hi) >= 0,
    decreases hi - lo,
{
    if lo < hi {
        lemma_product_nonnegative(dims, lo + 1, hi);
        let p = range_product(dims, lo + 1, hi);
        let d = dims[lo] as int;
        assert(d * p >= 0) by (nonlinear_arith)
            requires
                d >= 0,
                p >= 0,
        ;
    }
}

/// A non-zero product has no zero factor.
proof fn lemma_product_factors(dims: Seq<usize>, lo: int, hi: int)
    requires
        range_product(dims, lo, hi) != 0,
    ensures
        forall|a: int| lo <= a < hi ==> #[trigger] dims[a] > 0,
    decreases hi - lo,
{
    if lo < hi {
        let p = range_product(dims, lo + 1, hi);
        let d = dims[lo] as int;
        assert(d != 0 && p != 0) by (nonlinear_arith)
            requires
                d * p != 0,
        ;
        lemma_product_factors(dims, lo + 1, hi);
    }
}

/// One step of the row-major walk: the offset and stride absorb axis `c`.
proof fn lemma_walk_step(base: int, stride: int, c: int, dim: int, x: int)
    requires
        0 <= base < stride,
        0 <= c < dim,
    ensures
        base + stride * (c + dim * x) == (base + c * stride) + (stride * dim) * x,
        0 <= base + c * stride < stride * dim,
        stride * dim == dim * stride,
{
    assert(base + stride * (c + dim * x) == (base + c * stride) + (stride * dim) * x) by (nonlinear_arith);
    assert(base + c * stride < stride * dim) by (nonlinear_arith)
        requires
            0 <= base < stride,
            0 <= c < dim,
    ;
    assert(0 <= c * stride) by (nonlinear_arith)
        requires
            0 <= c,
            0 <= stride,
    ;
    assert(stride * dim == dim * stride) by (nonlinear_arith);
}

/// Whether two shapes are the same.
fn same_shape(a: &[usize], b: &[usize]) -> (r: bool)
    ensures
        r == (a@ == b@),
{
    if a.len() != b.len() {
        return false;
    }
    let mut k: usize = 0;
    while k < a.len()
        invariant
            0 <= k <= a@.len(),
            a@.len() == b@.len(),
            forall|m: int| 0 <= m < k ==> a@[m] == b@[m],
        decreases a@.len() - k,
    {
        if a[k] != b[k] {
            return false;
        }
        k = k + 1;
    }
    assert(a@ =~= b@);
    true
}

/// Copies the leading part of a row-major tensor of shape `source_shape`
/// into a tensor of shape `target_shape`, filling positions that the source
/// does not have with `fill` (see `spec_copy_prefix`).
pub fn copy_prefix<T: Copy>(source: &[T], source_shape: &[usize], target_shape: &[usize], fill: T) -> (r: Vec<T>)
    requires
        copy_prefix_fits(source@.len() as int, source_shape@, target_shape@),
    ensures
        r@ == spec_copy_prefix(source@, source_shape@, target_shape@, fill),
{
    if same_shape(source_shape, target_shape) {
        let mut out: Vec<T> = Vec::new();
        let mut i: usize = 0;
        while i < source.len()
            invariant
                0 <= i <= source@.len(),
                out@ == source@.take(i as int),
            decreases source@.len() - i,
        {
            out.push(source[i]);
            assert(source@.take(i + 1) =~= source@.take(i as int).push(source@[i as int]));
            i = i + 1;
        }
        assert(source@.take(source@.len() as int) =~= source@);
        return out;
    }
    let ghost ts = target_shape@;
    let ghost ss = source_shape@;
    let n = target_shape.len();
    let mut total: usize = 1;
    let mut a: usize = n;
    while a > 0
        invariant
            a <= n,
            n == ts.len(),
            ts == target_shape@,
            suffix_products_fit(ts, n as int),
            total == range_product(ts, a as int, n as int),
        decreases a,
    {
        a = a - 1;
        assert(range_product(ts, a as int, n as int) <= usize::MAX);
        total = target_shape[a] * total;
    }
    let mut out: Vec<T> = Vec::new();
    let mut j: usize = 0;
    while j < total
        invariant
            0 <= j <= total,
            total == range_product(ts, 0, n as int),
            n == ts.len(),
            ts == target_shape@,
            ss == source_shape@,
            ss != ts,
            copy_prefix_fits(source@.len() as int, ss, ts),
            out@.len() == j,
            forall|k: int| 0 <= k < j ==> out@[k] == copied_element(source@, ss, ts, fill, k),
        decreases total - j,
    {
        proof {
            lemma_product_factors(ts, 0, n as int);
        }
        let mut rem: usize = j;
        let mut base: usize = 0;
        let mut stride: usize = 1;
        let mut valid = true;
        let mut m: usize = n;
        while m > 0 && valid
            invariant
                m <= n,
                n == ts.len(),
                ts == target_shape@,
                ss == source_shape@,
                ss != ts,
                copy_prefix_fits(source@.len() as int, ss, ts),
                forall|x: int| 0 <= x < n ==> #[trigger] ts[x] > 0,
                valid ==> offset_by(source_position(ts, ss, rem as int, m as int), base as int, stride as int)
                    == source_position(ts, ss, j as int, n as int),
                valid ==> stride == range_product(ss, m as int, n as int),
                valid ==> base < stride,
                valid && m < n ==> n <= ss.len(),
                !valid ==> source_position(ts, ss, j as int, n as int) is None,
            decreases m + (if valid {
                1int
            } else {
                0int
            }),
        {
            let axis = m - 1;
            let c = rem % target_shape[axis];
            let dim: usize = if axis < source_shape.len() {
                source_shape[axis]
            } else {
                0
            };
            if c >= dim {
                valid = false;
            } else {
                let next = rem / target_shape[axis];
                proof {
                    assert(n <= ss.len());
                    lemma_walk_step(base as int, stride as int, c as int, dim as int, 0);
                    assert(range_product(ss, axis as int, n as int) <= usize::MAX);
                    match source_position(ts, ss, next as int, axis as int) {
                        Some(x) => {
                            lemma_walk_step(base as int, stride as int, c as int, dim as int, x);
                        },
                        None => {},
                    }
                }
                base = base + c * stride;
                stride = stride * dim;
                rem = next;
                m = axis;
            }
        }
        proof {
            if valid {
                lemma_product_nonnegative(ss, 0, n as int);
                assert(m == 0);
                assert(source_position(ts, ss, rem as int, 0) == Some(0int));
                assert(offset_by(Some(0int), base as int, stride as int) == Some(base as int + stride as int * 0));
                assert(source_position(ts, ss, j as int, n as int) == Some(base as int));
            }
        }
        let ghost before = out@;
        if valid {
            out.push(source[base]);
        } else {
            out.push(fill);
        }
        assert(out@[j as int] == copied_element(source@, ss, ts, fill, j as int));
        assert(forall|k: int| 0 <= k < j ==> out@[k] == before[k]);
        j = j + 1;
    }
    assert(out@ =~= spec_copy_prefix(source@, source_shape@, target_shape@, fill));
    out
}

/// Little-endian value of the bytes `b`.
pub open spec fn le_value(b: Seq<u8>) -> nat
    decreases b.len(),
{
    if b.len() == 0 {
        0
    } else {
        (b[0] as nat) + 256 * le_value(b.drop_first())
    }
}

/// `256` to the power `k`.
pub open spec fn pow256(k: nat) -> nat
    decreases k,
{
    if k == 0 {
        1
    } else {
        256 * pow256((k - 1) as nat)
    }
}

proof fn lemma_le_value_bound(b: Seq<u8>)
    ensures
        le_value(b) < pow256(b.len()),
    decreases b.len(),
{
    if b.len() > 0 {
        lemma_le_value_bound(b.drop_first());
    }
}

/// The `i64` stored little-endian in 8 bytes.
pub open spec fn le_i64(b: Seq<u8>) -> i64 {
    (le_value(b) as u64) as i64
}

/// The `i64` values stored little-endian in `data`, 8 bytes each; a
/// trailing part shorter than 8 bytes is ignored.
pub open spec fn le_i64_words(data: Seq<u8>) -> Seq<i64> {
    Seq::new(data.len() / 8, |k: int| le_i64(data.subrange(8 * k, 8 * k + 8)))
}

/// The bytes of `data` read as booleans (non-zero is `true`).
pub open spec fn byte_flags(data: Seq<u8>) -> Seq<bool> {
    data.map_values(|b: u8| b != 0)
}

/// Reads the `i64` at `data[start..start + 8]`.
fn read_le_i64(data: &[u8], start: usize) -> (r: i64)
    requires
        start + 8 <= data@.len(),
    ensures
        r == le_i64(data@.subrange(start as int, start + 8)),
{
    let n = data.len();
    let mut acc: u64 = 0;
    let mut t: usize = 8;
    proof {
        reveal_with_fuel(pow256, 8);
        assert(pow256(7) == 0x100000000000000nat);
    }
    while t > 0
        invariant
            t <= 8,
            n == data@.len(),
            start + 8 <= n,
            acc == le_value(data@.subrange(start + t, start + 8)),
            pow256(7) == 0x100000000000000nat,
        decreases t,
    {
        t = t - 1;
        let ghost rest = data@.subrange(start + t + 1, start + 8);
        proof {
            lemma_le_value_bound(rest);
            assert(data@.subrange(start + t, start + 8).drop_first() =~= rest);
            assert(rest.len() <= 7);
            lemma_pow256_monotone(rest.len(), 7);
        }
        acc = acc * 256 + data[start + t] as u64;
    }
    acc as i64
}

proof fn lemma_pow256_monotone(a: nat, b: nat)
    requires
        a <= b,
    ensures
        pow256(a) <= pow256(b),
    decreases b,
{
    if a < b {
        lemma_pow256_monotone(a, (b - 1) as nat);
    }
}

/// `range_product(dims, 0, n)` when every product `dims[lo..n]` fits in a
/// `usize`, else `None`.
fn checked_suffix_products(dims: &[usize], n: usize) -> (r: Option<usize>)
    requires
        n <= dims@.len(),
    ensures
        r is Some <==> suffix_products_fit(dims@, n as int),
        r matches Some(p) ==> p == range_product(dims@, 0, n as int),
{
    let mut acc: usize = 1;
    let mut lo: usize = n;
    while lo > 0
        invariant
            lo <= n <= dims@.len(),
            acc == range_product(dims@, lo as int, n as int),
            forall|m: int| lo <= m <= n ==> #[trigger] range_product(dims@, m, n as int) <= usize::MAX,
        decreases lo,
    {
        assert(range_product(dims@, lo - 1, n as int) == dims@[lo - 1] * range_product(dims@, lo as int, n as int));
        match dims[lo - 1].checked_mul(acc) {
            Some(p) => {
                acc = p;
                lo = lo - 1;
            },
            None => {
                assert(!(range_product(dims@, lo - 1, n as int) <= usize::MAX));
                return None;
            },
        }
    }
    Some(acc)
}

/// Whether `copy_prefix` may be given a source of `source_len` elements and
/// these shapes (see `copy_prefix_fits`).
pub fn copy_prefix_allowed(source_len: usize, source_shape: &[usize], target_shape: &[usize]) -> (r: bool)
    ensures
        r == copy_prefix_fits(source_len as int, source_shape@, target_shape@),
{
    if same_shape(source_shape, target_shape) {
        return true;
    }
    let n = target_shape.len();
    if checked_suffix_products(target_shape, n).is_none() {
        return false;
    }
    if source_shape.len() >= n {
        match checked_suffix_products(source_shape, n) {
            Some(p) => p <= source_len,
            None => false,
        }
    } else {
        true
    }
}

/// `copy_prefix` over the `i64` values stored little-endian in `data`.
pub fn copy_prefix_i64(data: &[u8], source_shape: &[usize], target_shape: &[usize]) -> (r: Vec<i64>)
    requires
        copy_prefix_fits((data@.len() / 8) as int, source_shape@, target_shape@),
    ensures
        r@ == spec_copy_prefix(le_i64_words(data@), source_shape@, target_shape@, 0i64),
{
    let n = data.len();
    let count = n / 8;
    let mut source: Vec<i64> = Vec::new();
    let mut k: usize = 0;
    while k < count
        invariant
            0 <= k <= count,
            n == data@.len(),
            count == n / 8,
            source@ =~= le_i64_words(data@).take(k as int),
        decreases count - k,
    {
        assert(8 * k + 8 <= n) by (nonlinear_arith)
            requires
                k < count,
                count == n / 8,
        ;
        let value = read_le_i64(data, 8 * k);
        source.push(value);
        k = k + 1;
    }
    assert(source@ =~= le_i64_words(data@));
    copy_prefix(source.as_slice(), source_shape, target_shape, 0)
}

/// `copy_prefix` over the bytes of `data` read as booleans.
pub fn copy_prefix_bool(data: &[u8], source_shape: &[usize], target_shape: &[usize]) -> (r: Vec<bool>)
    requires
        copy_prefix_fits(data@.len() as int, source_shape@, target_shape@),
    ensures
        r@ == spec_copy_prefix(byte_flags(data@), source_shape@, target_shape@, false),
{
    let mut source: Vec<bool> = Vec::new();
    let mut k: usize = 0;
    while k < data.len()
        invariant
            0 <= k <= data@.len(),
            source@ =~= byte_flags(data@).take(k as int),
        decreases data@.len() - k,
    {
        source.push(data[k] != 0);
        k = k + 1;
    }
    assert(source@ =~= byte_flags(data@));
    copy_prefix(source.as_slice(), source_shape, target_shape, false)
}

// ---------------------------------------------------------------------------
// Sentencepiece tokenizer
// ---------------------------------------------------------------------------

/// Longest text chunk, in tokens, that the model conditions on at once.
pub const MAX_TOKEN_PER_CHUNK: usize = 50;

/// A vocabulary entry: its text and its token id.
pub struct Piece {
    pub piece: String,
    pub id: i64,
}

/// A greedy longest-match tokenizer over a sentencepiece vocabulary.
pub struct Tokenizer {
    pub pieces: Vec<Piece>,
}

impl View for Tokenizer {
    type V = Seq<(Seq<char>, i64)>;

    open spec fn view(&self) -> Seq<(Seq<char>, i64)> {
        self.pieces@.map_values(|p: Piece| (p.piece@, p.id))
    }
}

/// The word-boundary marker of sentencepiece.
pub open spec fn boundary_mark() -> char {
    '\u{2581}'
}

/// `text` as the tokenizer sees it: a leading boundary marker, and each
/// space replaced by one.
pub open spec fn spiece_normalize(text: Seq<char>) -> Seq<char> {
    seq![boundary_mark()] + text.map_values(|c: char| if c == ' ' { boundary_mark() } else { c })
}

/// Whether the non-empty piece `p` occurs in `s` at `i`.
pub open spec fn piece_matches(s: Seq<char>, i: int, p: Seq<char>) -> bool {
    p.len() > 0 && i + p.len() <= s.len() && s.subrange(i, i + p.len()) == p
}

/// Among `pieces[..k]`, the first of the longest that match at `i`, as its
/// id and length.
pub open spec fn longest_match(pieces: Seq<(Seq<char>, i64)>, s: Seq<char>, i: int, k: int) -> Option<(i64, nat)>
    decreases k,
{
    if k <= 0 {
        None
    } else {
        let best = longest_match(pieces, s, i, k - 1);
        let p = pieces[k - 1];
        let longer = match best {
            Some(b) => p.0.len() > b.1,
            None => true,
        };
        if piece_matches(s, i, p.0) && longer {
            Some((p.1, p.0.len()))
        } else {
            best
        }
    }
}

/// A match found is never empty.
pub proof fn lemma_longest_match_len(pieces: Seq<(Seq<char>, i64)>, s: Seq<char>, i: int, k: int)
    ensures
        longest_match(pieces, s, i, k) matches Some(m) ==> m.1 > 0 && i + m.1 <= s.len(),
    decreases k,
{
    if k > 0 {
        lemma_longest_match_len(pieces, s, i, k - 1);
    }
}

/// Token ids of `s[i..]`: at each position the longest matching piece is
/// taken, and a position that no piece matches is skipped.
pub open spec fn encode_from(pieces: Seq<(Seq<char>, i64)>, s: Seq<char>, i: int) -> Seq<i64>
    decreases s.len() - i,
{
    if i < 0 || i >= s.len() {
        Seq::empty()
    } else {
        match longest_match(pieces, s, i, pieces.len() as int) {
            Some(m) => {
                proof {
                    lemma_longest_match_len(pieces, s, i, pieces.len() as int);
                }
                seq![m.0] + encode_from(pieces, s, i + m.1)
            },
            None => encode_from(pieces, s, i + 1),
        }
    }
}

/// Token ids of `text`.
pub open spec fn spec_encode(pieces: Seq<(Seq<char>, i64)>, text: Seq<char>) -> Seq<i64> {
    encode_from(pieces, spiece_normalize(text), 0)
}

impl Tokenizer {
    /// Tokenizes `text` greedily, longest piece first (see `spec_encode`).
    pub fn encode(&self, text: &str) -> (r: Vec<i64>)
        ensures
            r@ == spec_encode(self@, text@),
    {
        let raw = chars_of(text);
        let mut chars: Vec<char> = Vec::new();
        chars.push('\u{2581}');
        let mut k: usize = 0;
        while k < raw.len()
            invariant
                0 <= k <= raw@.len(),
                raw@ == text@,
                chars@ == spiece_normalize(text@.take(k as int)),
            decreases raw@.len() - k,
        {
            let c = raw[k];
            chars.push(if c == ' ' {
                '\u{2581}'
            } else {
                c
            });
            assert(spiece_normalize(text@.take(k + 1)) =~= spiece_normalize(text@.take(k as int)).push(
                if c == ' ' {
                    boundary_mark()
                } else {
                    c
                },
            ));
            k = k + 1;
        }
        assert(text@.take(text@.len() as int) =~= text@);
        let ghost s = chars@;
        let ghost ps = self@;
        let n = chars.len();
        let mut result: Vec<i64> = Vec::new();
        let mut index: usize = 0;
        while index < n
            invariant
                n == s.len(),
                s == chars@,
                ps == self@,
                index <= n,
                result@ + encode_from(ps, s, index as int) == encode_from(ps, s, 0),
            decreases n - index,
        {
            let mut best_id: i64 = 0;
            let mut best_len: usize = 0;
            let mut found = false;
            let mut p: usize = 0;
            while p < self.pieces.len()
                invariant
                    n == s.len(),
                    s == chars@,
                    ps == self@,
                    index < n,
                    p <= self.pieces@.len(),
                    longest_match(ps, s, index as int, p as int) == (if found {
                        Some((best_id, best_len as nat))
                    } else {
                        None
                    }),
                decreases self.pieces@.len() - p,
            {
                let piece_chars = chars_of(self.pieces[p].piece.as_str());
                let len = piece_chars.len();
                assert(ps[p as int] == (self.pieces@[p as int].piece@, self.pieces@[p as int].id));
                if len > 0 && len <= n - index && slice_eq(&chars, index, index + len, &piece_chars) {
                    if !found || len > best_len {
                        best_id = self.pieces[p].id;
                        best_len = len;
                        found = true;
                    }
                }
                p = p + 1;
            }
            if found {
                proof {
                    lemma_longest_match_len(ps, s, index as int, ps.len() as int);
                }
                let ghost before = result@;
                result.push(best_id);
                assert(result@ + encode_from(ps, s, index + best_len) =~= before + encode_from(ps, s, index as int));
                index = index + best_len;
            } else {
                index = index + 1;
            }
        }
        assert(result@ =~= encode_from(ps, s, 0));
        result
    }
}

/// Chunks made by adding the words `words[k..]` one at a time to `current`,
/// separated by single spaces, and starting a new chunk when the candidate
/// would take more than `MAX_TOKEN_PER_CHUNK` tokens.
pub open spec fn token_chunks_from(pieces: Seq<(Seq<char>, i64)>, words: Seq<Seq<char>>, k: int, current: Seq<char>) -> Seq<Seq<char>>
    decreases words.len() - k,
{
    if k < 0 || k >= words.len() {
        if current.len() > 0 {
            seq![current]
        } else {
            Seq::empty()
        }
    } else {
        let w = words[k];
        let candidate = if current.len() == 0 {
            w
        } else {
            current + seq![' '] + w
        };
        if spec_encode(pieces, candidate).len() > MAX_TOKEN_PER_CHUNK && current.len() > 0 {
            seq![current] + token_chunks_from(pieces, words, k + 1, w)
        } else {
            token_chunks_from(pieces, words, k + 1, candidate)
        }
    }
}

/// The chunks of `text`, or its trimmed self when it has no words.
pub open spec fn spec_split_text(pieces: Seq<(Seq<char>, i64)>, text: Seq<char>) -> Seq<Seq<char>> {
    let c = token_chunks_from(pieces, words(text), 0, Seq::empty());
    if c.len() == 0 {
        seq![trim(text)]
    } else {
        c
    }
}

/// A chunk fits the limit, or is one word of `words`.
pub open spec fn fits_or_single_word(pieces: Seq<(Seq<char>, i64)>, words: Seq<Seq<char>>, c: Seq<char>) -> bool {
    spec_encode(pieces, c).len() <= MAX_TOKEN_PER_CHUNK || words.contains(c)
}

proof fn lemma_token_chunks_fit(pieces: Seq<(Seq<char>, i64)>, words: Seq<Seq<char>>, k: int, current: Seq<char>)
    requires
        0 <= k,
        current.len() == 0 || fits_or_single_word(pieces, words, current),
    ensures
        forall|m: int|
            0 <= m < token_chunks_from(pieces, words, k, current).len() ==> fits_or_single_word(
                pieces,
                words,
                #[trigger] token_chunks_from(pieces, words, k, current)[m],
            ),
    decreases words.len() - k,
{
    if k >= words.len() {
        if current.len() > 0 {
            assert(token_chunks_from(pieces, words, k, current) == seq![current]);
        } else {
            assert(token_chunks_from(pieces, words, k, current).len() == 0);
        }
    } else {
        let w = words[k];
        assert(words.contains(w));
        let candidate = if current.len() == 0 {
            w
        } else {
            current + seq![' '] + w
        };
        if spec_encode(pieces, candidate).len() > MAX_TOKEN_PER_CHUNK && current.len() > 0 {
            lemma_token_chunks_fit(pieces, words, k + 1, w);
            let head = seq![current];
            let rest = token_chunks_from(pieces, words, k + 1, w);
            assert(token_chunks_from(pieces, words, k, current) == head + rest);
            assert forall|m: int| 0 <= m < (head + rest).len() implies fits_or_single_word(
                pieces,
                words,
                #[trigger] (head + rest)[m],
            ) by {
                if m >= 1 {
                    assert((head + rest)[m] == rest[m - 1]);
                }
            }
        } else {
            lemma_token_chunks_fit(pieces, words, k + 1, candidate);
            assert(token_chunks_from(pieces, words, k, current) == token_chunks_from(pieces, words, k + 1, candidate));
        }
    }
}

/// Text chunks stay within the model's token limit: of a text with at
/// least one word, every chunk `split_text` gives encodes to at most
/// `MAX_TOKEN_PER_CHUNK` tokens, or is a single word of the text (which no
/// split at whitespace could shorten).
pub proof fn lemma_chunks_within_token_limit(pieces: Seq<(Seq<char>, i64)>, text: Seq<char>)
    requires
        words(text).len() > 0,
    ensures
        forall|m: int|
            0 <= m < spec_split_text(pieces, text).len() ==> spec_encode(
                pieces,
                #[trigger] spec_split_text(pieces, text)[m],
            ).len() <= MAX_TOKEN_PER_CHUNK || words(text).contains(spec_split_text(pieces, text)[m]),
{
    let ws = words(text);
    lemma_token_chunks_fit(pieces, ws, 0, Seq::empty());
    let c = token_chunks_from(pieces, ws, 0, Seq::empty());
    lemma_words_nonempty(text, 0);
    lemma_token_chunks_nonempty(pieces, ws, 0, Seq::empty());
    assert(spec_split_text(pieces, text) == c);
    assert forall|m: int| 0 <= m < c.len() implies spec_encode(pieces, #[trigger] c[m]).len() <= MAX_TOKEN_PER_CHUNK
        || ws.contains(c[m]) by {
        assert(fits_or_single_word(pieces, ws, c[m]));
    }
}

/// Words are never empty.
proof fn lemma_words_nonempty(s: Seq<char>, i: int)
    requires
        0 <= i,
    ensures
        forall|m: int| 0 <= m < words_from(s, i).len() ==> (#[trigger] words_from(s, i)[m]).len() > 0,
    decreases s.len() - i,
{
    if i < s.len() {
        if unicode_whitespace(s[i]) {
            lemma_words_nonempty(s, i + 1);
            assert(words_from(s, i) == words_from(s, i + 1));
        } else {
            lemma_word_end(s, i + 1);
            let e = word_end(s, i);
            assert(e == word_end(s, i + 1));
            assert(s.subrange(i, e).len() > 0);
            lemma_words_nonempty(s, e);
            let head = seq![s.subrange(i, e)];
            let rest = words_from(s, e);
            assert(words_from(s, i) == head + rest);
            assert forall|m: int| 0 <= m < (head + rest).len() implies (#[trigger] (head + rest)[m]).len() > 0 by {
                if m >= 1 {
                    assert((head + rest)[m] == rest[m - 1]);
                }
            }
        }
    }
}

/// With a word left to add, chunking gives at least one chunk.
proof fn lemma_token_chunks_nonempty(pieces: Seq<(Seq<char>, i64)>, words: Seq<Seq<char>>, k: int, current: Seq<char>)
    requires
        0 <= k,
        k < words.len() || current.len() > 0,
        forall|m: int| 0 <= m < words.len() ==> (#[trigger] words[m]).len() > 0,
    ensures
        token_chunks_from(pieces, words, k, current).len() > 0,
    decreases words.len() - k,
{
    if k < words.len() {
        let w = words[k];
        let candidate = if current.len() == 0 {
            w
        } else {
            current + seq![' '] + w
        };
        if spec_encode(pieces, candidate).len() > MAX_TOKEN_PER_CHUNK && current.len() > 0 {
        } else {
            lemma_token_chunks_nonempty(pieces, words, k + 1, candidate);
        }
    }
}

/// Splits `text` at whitespace into chunks of at most
/// `MAX_TOKEN_PER_CHUNK` tokens, a single longer word being a chunk of its
/// own (see `spec_split_text`).
pub fn split_text(tokenizer: &Tokenizer, text: &str) -> (r: Vec<String>)
    ensures
        views(r@) == spec_split_text(tokenizer@, text@),
{
    let v = chars_of(text);
    let bounds = word_bounds(&v, 0, v.len());
    assert(v@.subrange(0, v@.len() as int) =~= v@);
    let ghost ws = words(v@);
    let ghost ps = tokenizer@;
    let mut chunks: Vec<String> = Vec::new();
    let mut current: Vec<char> = Vec::new();
    let mut k: usize = 0;
    while k < bounds.len()
        invariant
            0 <= k <= bounds@.len(),
            v@ == text@,
            ws == words(v@),
            ps == tokenizer@,
            bounds@.len() == ws.len(),
            forall|m: int|
                0 <= m < bounds@.len() ==> (#[trigger] bounds@[m]).0 <= bounds@[m].1 <= v@.len()
                    && v@.subrange(bounds@[m].0 as int, bounds@[m].1 as int) == ws[m],
            views(chunks@) + token_chunks_from(ps, ws, k as int, current@) == token_chunks_from(
                ps,
                ws,
                0,
                Seq::empty(),
            ),
        decreases bounds@.len() - k,
    {
        let (a, b) = bounds[k];
        let word = slice_of(&v, a, b);
        assert(word@ == ws[k as int]);
        let ghost old_current = current@;
        let mut candidate: Vec<char> = Vec::new();
        if current.len() > 0 {
            push_all(&mut candidate, &current);
            candidate.push(' ');
        }
        push_all(&mut candidate, &word);
        assert(candidate@ =~= (if old_current.len() == 0 {
            word@
        } else {
            old_current + seq![' '] + word@
        }));
        let candidate_text = string_of(&candidate, 0, candidate.len());
        assert(candidate@.subrange(0, candidate@.len() as int) =~= candidate@);
        let tokens = tokenizer.encode(candidate_text.as_str());
        if tokens.len() > MAX_TOKEN_PER_CHUNK && current.len() > 0 {
            let ghost before = chunks@;
            let ghost cur = current@;
            chunks.push(string_of(&current, 0, current.len()));
            assert(current@.subrange(0, current@.len() as int) =~= current@);
            assert(views(chunks@) =~= views(before) + seq![cur]);
            current = word;
        } else {
            current = candidate;
        }
        k = k + 1;
    }
    if current.len() > 0 {
        let ghost before = chunks@;
        let ghost cur = current@;
        chunks.push(string_of(&current, 0, current.len()));
        assert(current@.subrange(0, current@.len() as int) =~= current@);
        assert(views(chunks@) =~= views(before) + seq![cur]);
    }
    if chunks.len() == 0 {
        let (a, b) = trim_bounds(&v, 0, v.len());
        let mut only: Vec<String> = Vec::new();
        only.push(string_of(&v, a, b));
        assert(views(only@) =~= seq![trim(text@)]);
        return only;
    }
    chunks
}

} // verus!
