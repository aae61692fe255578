//! Speech-to-text bookkeeping: the recording of one utterance (pre-roll,
//! recorded chunks, the tail handed to the turn-end detector, the silence
//! run), the decision whether a pause ends the turn, the greedy decoding
//! cursor of the transducer, the vocabulary file and the text made from
//! decoded tokens, and the commands of the service.
//!
//! Samples are opaque to this logic, which only moves them around, so the
//! recording is generic over the sample type.

use vstd::prelude::*;
use crate::sentences::views;
use crate::text::{chars_of, join, push_all, string_of, word_bounds, words};

verus! {

broadcast use vstd::string::group_string_axioms;

/// Sample rate of the microphone stream.
pub const SAMPLE_RATE: u64 = 16000;

/// Samples in one microphone frame.
pub const WINDOW_SIZE: usize = 512;

/// Frames kept from before speech starts (500 ms of 32 ms frames).
pub const PRE_RECORD_CHUNKS: usize = 15;

/// Longest recording, in frames (15 s).
pub const MAX_RECORDING_CHUNKS: usize = 468;

/// Duration of one frame in milliseconds.
pub const CHUNK_MS: u64 = 32;

/// Samples in the rolling window handed to the turn-end detector (1.8 s).
pub const TAIL_SAMPLES: usize = 28800;

/// The recording of the current (or next) utterance.
pub struct Recording<S> {
    pub pre_speech: Vec<Vec<S>>,
    pub recorded: Vec<Vec<S>>,
    pub tail: Vec<S>,
    pub is_recording: bool,
    pub silence_ms: u64,
    pub last_scored_ms: u64,
}

/// Total number of samples in `chunks`.
pub open spec fn total_samples<S>(chunks: Seq<Vec<S>>) -> int
    decreases chunks.len(),
{
    if chunks.len() == 0 {
        0
    } else {
        total_samples(chunks.drop_last()) + chunks.last()@.len()
    }
}

/// The samples of `chunks`, one chunk after the other.
pub open spec fn concat_chunks<S>(chunks: Seq<Vec<S>>) -> Seq<S>
    decreases chunks.len(),
{
    if chunks.len() == 0 {
        Seq::empty()
    } else {
        concat_chunks(chunks.drop_last()) + chunks.last()@
    }
}

/// The last `n` elements of `s` (all of them when there are fewer).
pub open spec fn last_n<S>(s: Seq<S>, n: int) -> Seq<S> {
    if s.len() <= n {
        s
    } else {
        s.skip(s.len() - n)
    }
}

/// What the turn-end logic needs to know about a silent frame.
#[derive(Clone, Copy, Debug, PartialEq, Eq, Structural)]
pub enum TurnCheck {
    /// The pause ends the turn.
    End,
    /// Keep recording.
    Hold,
    /// Ask the turn-end detector; its score decides.
    Score,
}

/// The turn-end settings, with times in milliseconds.
#[derive(Clone, Copy, Debug)]
pub struct TurnPolicy {
    pub turn_end_enabled: bool,
    pub turn_hard_ceiling_ms: u64,
    pub turn_hold_ms: u64,
    pub turn_score_cadence_ms: u64,
    /// The fixed silence timeout used when turn-end detection is disabled.
    pub max_silence_ms: u64,
}

impl<S: Copy> Recording<S> {
    /// Nothing recorded, not recording.
    pub fn new() -> (r: Self)
        ensures
            r.pre_speech@.len() == 0,
            r.recorded@.len() == 0,
            r.tail@.len() == 0,
            !r.is_recording,
            r.silence_ms == 0,
            r.last_scored_ms == 0,
    {
        Recording {
            pre_speech: Vec::new(),
            recorded: Vec::new(),
            tail: Vec::new(),
            is_recording: false,
            silence_ms: 0,
            last_scored_ms: 0,
        }
    }

    /// Buffers a frame while idle, dropping the oldest when the pre-roll
    /// holds `PRE_RECORD_CHUNKS` frames already.
    pub fn buffer_pre(&mut self, chunk: Vec<S>)
        ensures
            final(self).pre_speech@ == if old(self).pre_speech@.len() == PRE_RECORD_CHUNKS {
                old(self).pre_speech@.drop_first().push(chunk)
            } else {
                old(self).pre_speech@.push(chunk)
            },
            old(self).pre_speech@.len() <= PRE_RECORD_CHUNKS ==> final(self).pre_speech@.len() <= PRE_RECORD_CHUNKS,
            final(self).recorded == old(self).recorded,
            final(self).tail == old(self).tail,
            final(self).is_recording == old(self).is_recording,
            final(self).silence_ms == old(self).silence_ms,
            final(self).last_scored_ms == old(self).last_scored_ms,
    {
        if self.pre_speech.len() == PRE_RECORD_CHUNKS {
            self.pre_speech.remove(0);
        }
        self.pre_speech.push(chunk);
    }

    /// Starts recording with the pre-roll as its beginning.
    pub fn start(&mut self)
        ensures
            final(self).recorded@ == old(self).recorded@ + old(self).pre_speech@,
            final(self).pre_speech@.len() == 0,
            final(self).silence_ms == 0,
            final(self).last_scored_ms == 0,
            final(self).is_recording,
            final(self).tail == old(self).tail,
    {
        let ghost before = self.recorded@;
        let ghost moved = self.pre_speech@;
        let ghost tail0 = self.tail;
        let mut k: usize = 0;
        let n = self.pre_speech.len();
        while k < n
            invariant
                0 <= k <= n,
                n == moved.len(),
                self.pre_speech@ == moved.skip(k as int),
                self.recorded@ == before + moved.take(k as int),
                self.tail == tail0,
            decreases n - k,
        {
            let chunk = self.pre_speech.remove(0);
            assert(chunk == moved[k as int]);
            self.recorded.push(chunk);
            assert(self.pre_speech@ =~= moved.skip(k + 1));
            assert(self.recorded@ =~= before + moved.take(k + 1));
            k = k + 1;
        }
        assert(moved.take(n as int) =~= moved);
        self.silence_ms = 0;
        self.last_scored_ms = 0;
        self.is_recording = true;
    }

    /// Appends a frame while recording and keeps the last `TAIL_SAMPLES`
    /// samples as the tail.
    pub fn push(&mut self, chunk: &[S])
        ensures
            final(self).recorded@.len() == old(self).recorded@.len() + 1,
            final(self).recorded@.drop_last() == old(self).recorded@,
            final(self).recorded@.last()@ == chunk@,
            final(self).tail@ == last_n(old(self).tail@ + chunk@, TAIL_SAMPLES as int),
            final(self).tail@.len() <= TAIL_SAMPLES,
            final(self).pre_speech == old(self).pre_speech,
            final(self).is_recording == old(self).is_recording,
            final(self).silence_ms == old(self).silence_ms,
            final(self).last_scored_ms == old(self).last_scored_ms,
    {
        let mut copy: Vec<S> = Vec::new();
        let mut i: usize = 0;
        while i < chunk.len()
            invariant
                0 <= i <= chunk@.len(),
                copy@ == chunk@.take(i as int),
            decreases chunk@.len() - i,
        {
            copy.push(chunk[i]);
            assert(copy@ =~= chunk@.take(i + 1));
            i = i + 1;
        }
        assert(chunk@.take(chunk@.len() as int) =~= chunk@);
        let ghost before = self.recorded@;
        self.recorded.push(copy);
        assert(self.recorded@.drop_last() =~= before);
        let ghost all = self.tail@ + chunk@;
        let mut joined: Vec<S> = Vec::new();
        let mut k: usize = 0;
        while k < self.tail.len()
            invariant
                0 <= k <= self.tail@.len(),
                joined@ == self.tail@.take(k as int),
            decreases self.tail@.len() - k,
        {
            joined.push(self.tail[k]);
            assert(joined@ =~= self.tail@.take(k + 1));
            k = k + 1;
        }
        assert(self.tail@.take(self.tail@.len() as int) =~= self.tail@);
        let mut j: usize = 0;
        while j < chunk.len()
            invariant
                0 <= j <= chunk@.len(),
                joined@ == self.tail@ + chunk@.take(j as int),
            decreases chunk@.len() - j,
        {
            joined.push(chunk[j]);
            assert(joined@ =~= self.tail@ + chunk@.take(j + 1));
            j = j + 1;
        }
        assert(joined@ =~= all);
        let total = joined.len();
        let start = if total > TAIL_SAMPLES {
            total - TAIL_SAMPLES
        } else {
            0
        };
        let mut tail: Vec<S> = Vec::new();
        let mut m: usize = start;
        while m < total
            invariant
                start <= m <= total,
                total == joined@.len(),
                tail@ == joined@.subrange(start as int, m as int),
            decreases total - m,
        {
            tail.push(joined[m]);
            assert(tail@ =~= joined@.subrange(start as int, m + 1));
            m = m + 1;
        }
        assert(tail@ =~= last_n(all, TAIL_SAMPLES as int));
        self.tail = tail;
    }

    /// A speech frame ends the silence run.
    pub fn on_speech(&mut self)
        ensures
            final(self).silence_ms == 0,
            final(self).last_scored_ms == 0,
            final(self).pre_speech == old(self).pre_speech,
            final(self).recorded == old(self).recorded,
            final(self).tail == old(self).tail,
            final(self).is_recording == old(self).is_recording,
    {
        self.silence_ms = 0;
        self.last_scored_ms = 0;
    }

    /// Length of the recorded audio in milliseconds.
    pub fn utterance_ms(&self) -> (r: u64)
        requires
            total_samples(self.recorded@) * 1000 <= u64::MAX,
        ensures
            r == total_samples(self.recorded@) * 1000 / (SAMPLE_RATE as int),
    {
        let mut total: u64 = 0;
        let mut k: usize = 0;
        while k < self.recorded.len()
            invariant
                0 <= k <= self.recorded@.len(),
                total == total_samples(self.recorded@.take(k as int)),
                total_samples(self.recorded@) * 1000 <= u64::MAX,
            decreases self.recorded@.len() - k,
        {
            proof {
                assert(self.recorded@.take(k + 1).drop_last() =~= self.recorded@.take(k as int));
                lemma_total_prefix(self.recorded@, k + 1);
            }
            total = total + self.recorded[k].len() as u64;
            k = k + 1;
        }
        assert(self.recorded@.take(self.recorded@.len() as int) =~= self.recorded@);
        total * 1000 / 16000
    }

    /// The tail window, oldest sample first.
    pub fn tail_samples(&self) -> (r: Vec<S>)
        ensures
            r@ == self.tail@,
    {
        let mut out: Vec<S> = Vec::new();
        let mut k: usize = 0;
        while k < self.tail.len()
            invariant
                0 <= k <= self.tail@.len(),
                out@ == self.tail@.take(k as int),
            decreases self.tail@.len() - k,
        {
            out.push(self.tail[k]);
            assert(out@ =~= self.tail@.take(k + 1));
            k = k + 1;
        }
        assert(self.tail@.take(self.tail@.len() as int) =~= self.tail@);
        out
    }

    /// All recorded samples, in order.
    pub fn take_recorded(&self) -> (r: Vec<S>)
        ensures
            r@ == concat_chunks(self.recorded@),
    {
        let mut out: Vec<S> = Vec::new();
        let mut k: usize = 0;
        while k < self.recorded.len()
            invariant
                0 <= k <= self.recorded@.len(),
                out@ == concat_chunks(self.recorded@.take(k as int)),
            decreases self.recorded@.len() - k,
        {
            assert(self.recorded@.take(k + 1).drop_last() =~= self.recorded@.take(k as int));
            let chunk = &self.recorded[k];
            let ghost before = out@;
            let mut i: usize = 0;
            while i < chunk.len()
                invariant
                    0 <= i <= chunk@.len(),
                    out@ == before + chunk@.take(i as int),
                decreases chunk@.len() - i,
            {
                out.push(chunk[i]);
                assert(out@ =~= before + chunk@.take(i + 1));
                i = i + 1;
            }
            assert(chunk@.take(chunk@.len() as int) =~= chunk@);
            k = k + 1;
        }
        assert(self.recorded@.take(self.recorded@.len() as int) =~= self.recorded@);
        out
    }

    /// Back to idle with nothing buffered.
    pub fn reset(&mut self)
        ensures
            final(self).pre_speech@.len() == 0,
            final(self).recorded@.len() == 0,
            final(self).tail@.len() == 0,
            !final(self).is_recording,
            final(self).silence_ms == 0,
            final(self).last_scored_ms == 0,
    {
        self.pre_speech = Vec::new();
        self.recorded = Vec::new();
        self.tail = Vec::new();
        self.is_recording = false;
        self.silence_ms = 0;
        self.last_scored_ms = 0;
    }

    /// A silent frame while recording: the silence run grows by one frame,
    /// and the recording ends when it is too long or the pause ends the
    /// turn, or the detector is to be asked (see `spec_turn_check`).
    pub fn silent_frame(&mut self, policy: &TurnPolicy) -> (r: TurnCheck)
        requires
            old(self).last_scored_ms <= old(self).silence_ms,
            old(self).silence_ms + CHUNK_MS <= u64::MAX,
        ensures
            final(self).silence_ms == old(self).silence_ms + CHUNK_MS,
            old(self).recorded@.len() > MAX_RECORDING_CHUNKS ==> (r matches TurnCheck::End)
                && final(self).last_scored_ms == old(self).last_scored_ms,
            old(self).recorded@.len() <= MAX_RECORDING_CHUNKS ==> turn_checked(
                *policy,
                final(self).silence_ms,
                old(self).last_scored_ms,
                r,
                final(self).last_scored_ms,
            ),
            final(self).last_scored_ms <= final(self).silence_ms,
            final(self).pre_speech == old(self).pre_speech,
            final(self).recorded == old(self).recorded,
            final(self).tail == old(self).tail,
            final(self).is_recording == old(self).is_recording,
    {
        self.silence_ms = self.silence_ms + CHUNK_MS;
        if self.recorded.len() > MAX_RECORDING_CHUNKS {
            return TurnCheck::End;
        }
        self.should_end_turn(policy)
    }

    /// Whether the current pause ends the turn (see `turn_checked`); when
    /// the detector is to be asked, the pause is marked as scored.
    pub fn should_end_turn(&mut self, policy: &TurnPolicy) -> (r: TurnCheck)
        requires
            old(self).last_scored_ms <= old(self).silence_ms,
        ensures
            turn_checked(*policy, old(self).silence_ms, old(self).last_scored_ms, r, final(self).last_scored_ms),
            final(self).last_scored_ms <= final(self).silence_ms,
            final(self).silence_ms == old(self).silence_ms,
            final(self).pre_speech == old(self).pre_speech,
            final(self).recorded == old(self).recorded,
            final(self).tail == old(self).tail,
            final(self).is_recording == old(self).is_recording,
    {
        if policy.turn_end_enabled {
            if self.silence_ms >= policy.turn_hard_ceiling_ms {
                return TurnCheck::End;
            }
            if self.silence_ms >= policy.turn_hold_ms && self.silence_ms - self.last_scored_ms
                >= policy.turn_score_cadence_ms {
                self.last_scored_ms = self.silence_ms;
                return TurnCheck::Score;
            }
            TurnCheck::Hold
        } else if self.silence_ms >= policy.max_silence_ms {
            TurnCheck::End
        } else {
            TurnCheck::Hold
        }
    }
}

/// The turn-end decision for a pause of `silence` ms, the last score
/// having been taken at `last_scored` ms: with detection enabled, the hard
/// ceiling ends the turn, and past the hold window the detector is asked at
/// most once per cadence; otherwise the fixed timeout decides. `scored` is
/// the mark left for the next decision.
pub open spec fn turn_checked(p: TurnPolicy, silence: u64, last_scored: u64, r: TurnCheck, scored: u64) -> bool {
    if p.turn_end_enabled {
        if silence >= p.turn_hard_ceiling_ms {
            r matches TurnCheck::End && scored == last_scored
        } else if silence >= p.turn_hold_ms && silence - last_scored >= p.turn_score_cadence_ms {
            r matches TurnCheck::Score && scored == silence
        } else {
            r matches TurnCheck::Hold && scored == last_scored
        }
    } else if silence >= p.max_silence_ms {
        r matches TurnCheck::End && scored == last_scored
    } else {
        r matches TurnCheck::Hold && scored == last_scored
    }
}

proof fn lemma_total_prefix<S>(chunks: Seq<Vec<S>>, k: int)
    requires
        0 <= k <= chunks.len(),
    ensures
        0 <= total_samples(chunks.take(k)) <= total_samples(chunks),
    decreases chunks.len(),
{
    if chunks.len() > 0 {
        if k == chunks.len() {
            assert(chunks.take(k) =~= chunks);
            lemma_total_prefix(chunks.drop_last(), k - 1);
            assert(chunks.drop_last().take(k - 1) =~= chunks.drop_last());
        } else {
            assert(chunks.take(k) =~= chunks.drop_last().take(k));
            lemma_total_prefix(chunks.drop_last(), k);
        }
    }
}

// ---------------------------------------------------------------------------
// Decoded text
// ---------------------------------------------------------------------------

/// The vocabulary entries of `tokens` one after the other; ids outside the
/// vocabulary contribute nothing.
pub open spec fn joined_tokens(tokens: Seq<usize>, vocab: Seq<Seq<char>>) -> Seq<char>
    decreases tokens.len(),
{
    if tokens.len() == 0 {
        Seq::empty()
    } else {
        joined_tokens(tokens.drop_last(), vocab) + if tokens.last() < vocab.len() {
            vocab[tokens.last() as int]
        } else {
            Seq::empty()
        }
    }
}

/// The transcript of `tokens`: their vocabulary entries joined, with runs
/// of whitespace collapsed to single spaces and none at either end.
pub open spec fn spec_decode_text(tokens: Seq<usize>, vocab: Seq<Seq<char>>) -> Seq<char> {
    join(words(joined_tokens(tokens, vocab)), " "@)
}

/// Joins the vocabulary entries of the tokens and collapses whitespace
/// (see `spec_decode_text`).
pub fn decode_text(tokens: &[usize], vocab: &[String]) -> (r: String)
    ensures
        r@ == spec_decode_text(tokens@, vocab@.map_values(|s: String| s@)),
{
    let ghost voc = vocab@.map_values(|s: String| s@);
    let mut joined: Vec<char> = Vec::new();
    let mut k: usize = 0;
    while k < tokens.len()
        invariant
            0 <= k <= tokens@.len(),
            voc == vocab@.map_values(|s: String| s@),
            joined@ == joined_tokens(tokens@.take(k as int), voc),
        decreases tokens@.len() - k,
    {
        assert(tokens@.take(k + 1).drop_last() =~= tokens@.take(k as int));
        let id = tokens[k];
        if id < vocab.len() {
            let piece = chars_of(vocab[id].as_str());
            assert(voc[id as int] == vocab@[id as int]@);
            push_all(&mut joined, &piece);
        } else {
            assert(joined@ =~= joined@ + Seq::<char>::empty());
        }
        k = k + 1;
    }
    assert(tokens@.take(tokens@.len() as int) =~= tokens@);
    let bounds = word_bounds(&joined, 0, joined.len());
    assert(joined@.subrange(0, joined@.len() as int) =~= joined@);
    let ghost ws = words(joined@);
    let mut out: Vec<char> = Vec::new();
    let mut w: usize = 0;
    while w < bounds.len()
        invariant
            0 <= w <= bounds@.len(),
            bounds@.len() == ws.len(),
            ws == words(joined@),
            forall|m: int|
                0 <= m < bounds@.len() ==> {
                    &&& 0 <= (#[trigger] bounds@[m]).0 <= bounds@[m].1 <= joined@.len()
                    &&& joined@.subrange(bounds@[m].0 as int, bounds@[m].1 as int) == ws[m]
                },
            out@ == join(ws.take(w as int), " "@),
        decreases bounds@.len() - w,
    {
        let (a, b) = bounds[w];
        assert(ws.take(w + 1).drop_last() =~= ws.take(w as int));
        if w > 0 {
            out.push(' ');
        }
        let piece = crate::text::slice_of(&joined, a, b);
        push_all(&mut out, &piece);
        proof {
            if w > 0 {
                assert(out@ =~= join(ws.take(w as int), " "@) + " "@ + ws[w as int]) by {
                    reveal_strlit(" ");
                }
            } else {
                assert(out@ =~= ws[0]);
            }
        }
        w = w + 1;
    }
    assert(ws.take(ws.len() as int) =~= ws);
    string_of(&out, 0, out.len())
}

// ---------------------------------------------------------------------------
// Greedy transducer decoding
// ---------------------------------------------------------------------------

/// Where the greedy transducer decoder stands: the encoder frame and the
/// tokens emitted at it.
#[derive(Clone, Copy, Debug, PartialEq, Eq, Structural)]
pub struct DecodeCursor {
    pub frame: usize,
    pub emitted: usize,
}

/// One decoding step: a non-blank `token` is emitted; a predicted
/// duration `step` moves that many frames on, else a blank token or the
/// per-frame limit moves one frame on; moving on resets the count.
pub open spec fn spec_advance(c: DecodeCursor, token: usize, step: usize, blank: usize, max_per_step: usize) -> (DecodeCursor, bool) {
    let emit = token != blank;
    let emitted = if emit {
        c.emitted + 1
    } else {
        c.emitted as int
    };
    if step > 0 {
        (DecodeCursor { frame: (c.frame + step) as usize, emitted: 0 }, emit)
    } else if token == blank || emitted == max_per_step {
        (DecodeCursor { frame: (c.frame + 1) as usize, emitted: 0 }, emit)
    } else {
        (DecodeCursor { frame: c.frame, emitted: emitted as usize }, emit)
    }
}

impl DecodeCursor {
    /// The first frame, nothing emitted.
    pub fn start() -> (r: Self)
        ensures
            r.frame == 0 && r.emitted == 0,
    {
        DecodeCursor { frame: 0, emitted: 0 }
    }

    /// Applies one decoder step; returns whether `token` is emitted (see
    /// `spec_advance`).
    pub fn advance(&mut self, token: usize, step: usize, blank: usize, max_per_step: usize) -> (emit: bool)
        requires
            old(self).frame + step + 1 <= usize::MAX,
            old(self).emitted + 1 <= usize::MAX,
        ensures
            (*final(self), emit) == spec_advance(*old(self), token, step, blank, max_per_step),
    {
        let emit = token != blank;
        if emit {
            self.emitted = self.emitted + 1;
        }
        if step > 0 {
            self.frame = self.frame + step;
            self.emitted = 0;
        } else if token == blank || self.emitted == max_per_step {
            self.frame = self.frame + 1;
            self.emitted = 0;
        }
        emit
    }
}

// ---------------------------------------------------------------------------
// WAV files
// ---------------------------------------------------------------------------

/// Little-endian unsigned value of `b`.
pub open spec fn le_unsigned(b: Seq<u8>) -> nat
    decreases b.len(),
{
    if b.len() == 0 {
        0
    } else {
        (b[0] as nat) + 256 * le_unsigned(b.drop_first())
    }
}

/// The signed 16-bit value stored little-endian in two bytes.
pub open spec fn le_i16(lo: u8, hi: u8) -> int {
    let u = lo + 256 * hi;
    if u >= 32768 {
        u - 65536
    } else {
        u
    }
}

/// The format fields of a WAV file: tag, sample rate, bits per sample and
/// channel count.
#[derive(Clone, Copy, Debug, PartialEq, Eq, Structural)]
pub struct WavFormat {
    pub tag: u16,
    pub rate: u32,
    pub bits: u16,
    pub channels: u16,
}

/// The samples of a PCM data chunk: pairs of bytes, a trailing odd byte
/// ignored.
pub open spec fn pcm_samples(body: Seq<u8>) -> Seq<int> {
    Seq::new(body.len() / 2, |k: int| le_i16(body[2 * k], body[2 * k + 1]))
}

/// What the walk over the chunks from `offset` finds: the last `fmt `
/// chunk, and the samples of the first `data` chunk that has any, given
/// what was found before `offset` (`fmt`, `pcm`). A chunk that runs past
/// the end stops the walk; chunks are padded to even lengths.
pub open spec fn wav_walk(data: Seq<u8>, offset: int, fmt: Option<WavFormat>, pcm: Seq<int>) -> (Option<WavFormat>, Seq<int>)
    decreases data.len() + 1 - offset,
{
    if offset < 0 || offset + 8 > data.len() {
        (fmt, pcm)
    } else {
        let size = le_unsigned(data.subrange(offset + 4, offset + 8)) as int;
        let body = offset + 8;
        if body + size > data.len() {
            (fmt, pcm)
        } else {
            let id = data.subrange(offset, offset + 4);
            let fmt2 = if id == seq![0x66u8, 0x6du8, 0x74u8, 0x20u8] {
                Some(
                    WavFormat {
                        tag: le_unsigned(data.subrange(body, body + 2)) as u16,
                        rate: le_unsigned(data.subrange(body + 4, body + 8)) as u32,
                        bits: le_unsigned(data.subrange(body + 14, body + 16)) as u16,
                        channels: le_unsigned(data.subrange(body + 2, body + 4)) as u16,
                    },
                )
            } else {
                fmt
            };
            let pcm2 = if id == seq![0x64u8, 0x61u8, 0x74u8, 0x61u8] && pcm.len() == 0 {
                pcm_samples(data.subrange(body, body + size))
            } else {
                pcm
            };
            wav_walk(data, body + size + size % 2, fmt2, pcm2)
        }
    }
}

/// Whether every `fmt ` chunk that the walk reaches holds its 16 bytes of
/// fields inside the file (the fields are read whatever the chunk's size).
pub open spec fn wav_fields_inside(data: Seq<u8>, offset: int) -> bool
    decreases data.len() + 1 - offset,
{
    if offset < 0 || offset + 8 > data.len() {
        true
    } else {
        let size = le_unsigned(data.subrange(offset + 4, offset + 8)) as int;
        let body = offset + 8;
        if body + size > data.len() {
            true
        } else {
            (data.subrange(offset, offset + 4) == seq![0x66u8, 0x6du8, 0x74u8, 0x20u8] ==> body + 16
                <= data.len()) && wav_fields_inside(data, body + size + size % 2)
        }
    }
}

/// The mono samples of interleaved `pcm` from `i` on: each frame of
/// `channels` samples (the last one possibly shorter) averaged, rounding
/// toward zero.
pub open spec fn mono_from(pcm: Seq<int>, channels: int, i: int) -> Seq<int>
    decreases (if i < pcm.len() {
        pcm.len() - i
    } else {
        0
    }),
{
    if channels <= 0 || i < 0 || i >= pcm.len() {
        Seq::empty()
    } else {
        let end = if i + channels < pcm.len() {
            i + channels
        } else {
            pcm.len() as int
        };
        seq![trunc_div(range_sum(pcm, i, end), end - i)] + mono_from(pcm, channels, i + channels)
    }
}

/// Sum of `s[lo..hi]`.
pub open spec fn range_sum(s: Seq<int>, lo: int, hi: int) -> int
    decreases hi - lo,
{
    if lo >= hi {
        0
    } else {
        range_sum(s, lo, hi - 1) + s[hi - 1]
    }
}

/// Integer division rounding toward zero.
pub open spec fn trunc_div(a: int, b: int) -> int {
    if a >= 0 {
        a / b
    } else {
        -((-a) / b)
    }
}

/// A decoded 16-bit PCM WAV file: its sample rate and its mono samples.
#[derive(Clone, Debug)]
pub struct WavAudio {
    pub rate: u32,
    pub samples: Vec<i32>,
}

/// The file starts with `RIFF`.
pub open spec fn riff_tag(data: Seq<u8>) -> bool {
    data.subrange(0, 4) == seq![0x52u8, 0x49u8, 0x46u8, 0x46u8]
}

/// Bytes 8 to 12 read `WAVE`.
pub open spec fn wave_tag(data: Seq<u8>) -> bool {
    data.subrange(8, 12) == seq![0x57u8, 0x41u8, 0x56u8, 0x45u8]
}

/// The inputs `read_wav` reads without going past the data: at least the
/// four bytes it first compares; the twelve of the header when they start
/// with `RIFF`; and, when the header is `RIFF`/`WAVE`, the sixteen bytes of
/// format fields in every complete `fmt ` chunk.
pub open spec fn wav_in_bounds(data: Seq<u8>) -> bool {
    &&& data.len() >= 4
    &&& riff_tag(data) ==> data.len() >= 12
    &&& riff_tag(data) && wave_tag(data) ==> wav_fields_inside(data, 12)
}

/// The mono samples and rate of a RIFF/WAVE file holding 16-bit PCM, or the
/// reason it cannot be read.
pub open spec fn spec_read_wav(data: Seq<u8>) -> Result<(u32, Seq<int>), Seq<char>> {
    if !riff_tag(data) || !wave_tag(data) {
        Err("not a RIFF/WAVE file"@)
    } else {
        let (fmt, pcm) = wav_walk(data, 12, None, Seq::empty());
        match fmt {
            None => Err("no fmt chunk"@),
            Some(f) => if f.tag != 1 || f.bits != 16 {
                Err(
                    "only PCM_16 supported (tag="@ + crate::toml_doc::decimal(f.tag as nat) + ", bits="@
                        + crate::toml_doc::decimal(f.bits as nat) + ")"@,
                )
            } else if f.channels == 0 {
                Err("no channels"@)
            } else {
                Ok((f.rate, mono_from(pcm, f.channels as int, 0)))
            },
        }
    }
}

/// Little-endian value of `data[start..start + n]`.
fn read_le(data: &[u8], start: usize, n: usize) -> (r: u64)
    requires
        n <= 4,
        start + n <= data@.len(),
    ensures
        r == le_unsigned(data@.subrange(start as int, start + n)),
        r < 0x1_0000_0000,
{
    let len = data.len();
    let mut acc: u64 = 0;
    let mut t: usize = n;
    while t > 0
        invariant
            len == data@.len(),
            t <= n <= 4,
            start + n <= data@.len(),
            acc == le_unsigned(data@.subrange(start + t, start + n)),
            acc < pow256_upto(n - t),
        decreases t,
    {
        t = t - 1;
        assert(data@.subrange(start + t, start + n).drop_first() =~= data@.subrange(start + t + 1, start + n));
        acc = acc * 256 + data[start + t] as u64;
    }
    acc
}

/// `256^k` for `k <= 4`.
pub open spec fn pow256_upto(k: int) -> int {
    if k <= 0 {
        1
    } else if k == 1 {
        256
    } else if k == 2 {
        65536
    } else if k == 3 {
        16777216
    } else {
        0x1_0000_0000
    }
}

fn sample_at(data: &[u8], at: usize) -> (r: i32)
    requires
        at + 2 <= data@.len(),
    ensures
        r as int == le_i16(data@[at as int], data@[at + 1]),
{
    let u: i32 = data[at] as i32 + 256 * (data[at + 1] as i32);
    if u >= 32768 {
        u - 65536
    } else {
        u
    }
}

/// The samples of `data[body..body + size]`.
fn read_pcm(data: &[u8], body: usize, size: usize) -> (r: Vec<i32>)
    requires
        body + size <= data@.len(),
    ensures
        r@.map_values(|x: i32| x as int) == pcm_samples(data@.subrange(body as int, body + size)),
{
    let ghost chunk = data@.subrange(body as int, body + size);
    let count = size / 2;
    let len = data.len();
    let mut out: Vec<i32> = Vec::new();
    let mut k: usize = 0;
    while k < count
        invariant
            len == data@.len(),
            0 <= k <= count,
            count == size / 2,
            body + size <= data@.len(),
            chunk == data@.subrange(body as int, body + size),
            out@.map_values(|x: i32| x as int) == pcm_samples(chunk).take(k as int),
        decreases count - k,
    {
        assert(2 * k + 2 <= size) by (nonlinear_arith)
            requires
                k < count,
                count == size / 2,
        ;
        let v = sample_at(data, body + 2 * k);
        let ghost before = out@;
        out.push(v);
        assert(out@.map_values(|x: i32| x as int) =~= before.map_values(|x: i32| x as int).push(v as int));
        assert(pcm_samples(chunk).take(k + 1) =~= pcm_samples(chunk).take(k as int).push(pcm_samples(chunk)[k as int]));
        assert(chunk[2 * k as int] == data@[body + 2 * k]);
        assert(chunk[2 * k + 1] == data@[body + 2 * k + 1]);
        assert(chunk.len() == size);
        assert(pcm_samples(chunk)[k as int] == le_i16(chunk[2 * k as int], chunk[2 * k + 1]));
        assert(out@.map_values(|x: i32| x as int) =~= pcm_samples(chunk).take(k + 1));
        k = k + 1;
    }
    assert(pcm_samples(chunk).take(count as int) =~= pcm_samples(chunk));
    out
}

fn bytes_are(data: &[u8], at: usize, a: u8, b: u8, c: u8, d: u8) -> (r: bool)
    requires
        at + 4 <= data@.len(),
    ensures
        r == (data@.subrange(at as int, at + 4) == seq![a, b, c, d]),
{
    let r = data[at] == a && data[at + 1] == b && data[at + 2] == c && data[at + 3] == d;
    if r {
        assert(data@.subrange(at as int, at + 4) =~= seq![a, b, c, d]);
    } else {
        proof {
            if data@.subrange(at as int, at + 4) == seq![a, b, c, d] {
                assert(data@.subrange(at as int, at + 4)[0] == a);
                assert(data@.subrange(at as int, at + 4)[1] == b);
                assert(data@.subrange(at as int, at + 4)[2] == c);
                assert(data@.subrange(at as int, at + 4)[3] == d);
            }
        }
    }
    r
}

/// Averages each frame of `channels` interleaved samples (see `mono_from`).
fn mono(pcm: &Vec<i32>, channels: usize) -> (r: Vec<i32>)
    requires
        0 < channels <= 65535,
        forall|k: int| 0 <= k < pcm@.len() ==> -32768 <= #[trigger] pcm@[k] <= 32767,
    ensures
        r@.map_values(|x: i32| x as int) == mono_from(pcm@.map_values(|x: i32| x as int), channels as int, 0),
{
    let ghost p = pcm@.map_values(|x: i32| x as int);
    let n = pcm.len();
    let mut out: Vec<i32> = Vec::new();
    let mut i: usize = 0;
    while i < n
        invariant
            n == pcm@.len(),
            0 < channels <= 65535,
            p == pcm@.map_values(|x: i32| x as int),
            forall|k: int| 0 <= k < pcm@.len() ==> -32768 <= #[trigger] pcm@[k] <= 32767,
            i <= n,
            i < n ==> out@.map_values(|x: i32| x as int) + mono_from(p, channels as int, i as int)
                == mono_from(p, channels as int, 0),
            i >= n ==> out@.map_values(|x: i32| x as int) == mono_from(p, channels as int, 0),
        decreases n - i,
    {
        let end = if channels < n - i {
            i + channels
        } else {
            n
        };
        let mut sum: i64 = 0;
        let mut j: usize = i;
        while j < end
            invariant
                i <= j <= end <= n,
                n == pcm@.len(),
                end - i <= 65535,
                p == pcm@.map_values(|x: i32| x as int),
                forall|k: int| 0 <= k < pcm@.len() ==> -32768 <= #[trigger] pcm@[k] <= 32767,
                sum == range_sum(p, i as int, j as int),
                -32768 * (j - i) <= sum <= 32767 * (j - i),
            decreases end - j,
        {
            sum = sum + pcm[j] as i64;
            j = j + 1;
        }
        let cnt: i64 = (end - i) as i64;
        let avg: i64 = if sum >= 0 {
            sum / cnt
        } else {
            -((-sum) / cnt)
        };
        proof {
            let si = sum as int;
            let ci = cnt as int;
            if si >= 0 {
                assert(0 <= si / ci <= 32767) by (nonlinear_arith)
                    requires
                        ci >= 1,
                        0 <= si <= 32767 * ci,
                ;
            } else {
                assert(0 <= (-si) / ci <= 32768) by (nonlinear_arith)
                    requires
                        ci >= 1,
                        0 < -si <= 32768 * ci,
                ;
            }
        }
        let ghost before = out@.map_values(|x: i32| x as int);
        out.push(avg as i32);
        assert(out@.map_values(|x: i32| x as int) =~= before.push(avg as int));
        proof {
            assert(mono_from(p, channels as int, i as int) == seq![trunc_div(range_sum(p, i as int, end as int), end - i)]
                + mono_from(p, channels as int, i + channels));
            if i + channels < n {
                assert(before + mono_from(p, channels as int, i as int) =~= before.push(avg as int) + mono_from(
                    p,
                    channels as int,
                    i + channels,
                ));
            } else {
                assert(mono_from(p, channels as int, i + channels) == Seq::<int>::empty());
                assert(before + mono_from(p, channels as int, i as int) =~= before.push(avg as int));
            }
        }
        i = end;
    }
    if n == 0 {
        assert(out@.map_values(|x: i32| x as int) =~= Seq::<int>::empty());
    }
    out
}

/// Reads a RIFF/WAVE file holding 16-bit PCM into its sample rate and mono
/// samples (see `spec_read_wav`).
pub fn read_wav(data: &[u8]) -> (r: Result<WavAudio, String>)
    requires
        wav_in_bounds(data@),
    ensures
        match r {
            Ok(a) => spec_read_wav(data@) == Ok::<(u32, Seq<int>), Seq<char>>(
                (a.rate, a.samples@.map_values(|x: i32| x as int)),
            ),
            Err(m) => spec_read_wav(data@) == Err::<(u32, Seq<int>), Seq<char>>(m@),
        },
{
    if !bytes_are(data, 0, 0x52, 0x49, 0x46, 0x46) || !bytes_are(data, 8, 0x57, 0x41, 0x56, 0x45) {
        return Err("not a RIFF/WAVE file".to_string());
    }
    assert(wav_fields_inside(data@, 12));
    let n = data.len();
    let mut offset: usize = 12;
    let mut fmt: Option<WavFormat> = None;
    let mut pcm: Vec<i32> = Vec::new();
    let mut done = false;
    assert(pcm@.map_values(|x: i32| x as int) =~= Seq::<int>::empty());
    while !done && offset <= n && n - offset >= 8
        invariant
            n == data@.len(),
            offset <= n + 1,
            !done ==> wav_walk(data@, 12, None, Seq::empty()) == wav_walk(
                data@,
                offset as int,
                fmt,
                pcm@.map_values(|x: i32| x as int),
            ),
            !done ==> wav_fields_inside(data@, offset as int),
            done ==> wav_walk(data@, 12, None, Seq::empty()) == (fmt, pcm@.map_values(|x: i32| x as int)),
            forall|k: int| 0 <= k < pcm@.len() ==> -32768 <= #[trigger] pcm@[k] <= 32767,
        decreases (if done {
            0
        } else {
            n + 2 - offset
        }),
    {
        let size64 = read_le(data, offset + 4, 4);
        let size = size64 as usize;
        assert(size as int == le_unsigned(data@.subrange(offset + 4, offset + 8)) as int);
        let body = offset + 8;
        let ghost pcm_before = pcm@.map_values(|x: i32| x as int);
        let ghost fmt_before = fmt;
        if size > n - body {
            done = true;
        } else {
            let ghost id = data@.subrange(offset as int, offset + 4);
            let is_fmt = bytes_are(data, offset, 0x66, 0x6d, 0x74, 0x20);
            proof {
                assert(wav_fields_inside(data@, offset as int) == ((id == seq![0x66u8, 0x6du8, 0x74u8, 0x20u8] ==> body + 16
                    <= data@.len()) && wav_fields_inside(data@, body + size + size % 2)));
            }
            if is_fmt {
                assert(body + 16 <= n);
                let tag = read_le(data, body, 2) as u16;
                let rate = read_le(data, body + 4, 4) as u32;
                let bits = read_le(data, body + 14, 2) as u16;
                let channels = read_le(data, body + 2, 2) as u16;
                fmt = Some(WavFormat { tag, rate, bits, channels });
            }
            if bytes_are(data, offset, 0x64, 0x61, 0x74, 0x61) && pcm.len() == 0 {
                pcm = read_pcm(data, body, size);
                proof {
                    let chunk = data@.subrange(body as int, body + size);
                    assert forall|k: int| 0 <= k < pcm@.len() implies -32768 <= #[trigger] pcm@[k] <= 32767 by {
                        assert(pcm@.map_values(|x: i32| x as int)[k] == pcm@[k] as int);
                        assert(pcm@.len() == pcm_samples(chunk).len());
                        assert(pcm_samples(chunk)[k] == le_i16(chunk[2 * k], chunk[2 * k + 1]));
                    }
                }
            } else {
                assert(pcm@.len() == 0 ==> !(id == seq![0x64u8, 0x61u8, 0x74u8, 0x61u8]));
            }
            let next = body + size;
            let ghost step_result = wav_walk(data@, offset as int, fmt_before, pcm_before);
            if size % 2 == 1 {
                if next == n {
                    done = true;
                    assert(wav_walk(data@, n + 1, fmt, pcm@.map_values(|x: i32| x as int)) == (
                        fmt,
                        pcm@.map_values(|x: i32| x as int),
                    ));
                } else {
                    offset = next + 1;
                }
            } else {
                offset = next;
            }
        }
    }
    let f = match fmt {
        None => {
            return Err("no fmt chunk".to_string());
        },
        Some(f) => f,
    };
    if f.tag != 1 || f.bits != 16 {
        let tag = crate::toml_doc::decimal_string(f.tag as usize);
        let bits = crate::toml_doc::decimal_string(f.bits as usize);
        let head = crate::toml_doc::concat4("only PCM_16 supported (tag=", tag.as_str(), ", bits=", bits.as_str());
        return Err(crate::toml_doc::concat2(head.as_str(), ")"));
    }
    if f.channels == 0 {
        return Err("no channels".to_string());
    }
    let samples = mono(&pcm, f.channels as usize);
    Ok(WavAudio { rate: f.rate, samples })
}

/// Whether `read_wav` may be given `data` (see `wav_in_bounds`).
pub fn wav_readable(data: &[u8]) -> (r: bool)
    ensures
        r == wav_in_bounds(data@),
{
    let n = data.len();
    if n < 4 {
        return false;
    }
    if !bytes_are(data, 0, 0x52, 0x49, 0x46, 0x46) {
        return true;
    }
    if n < 12 {
        return false;
    }
    if !bytes_are(data, 8, 0x57, 0x41, 0x56, 0x45) {
        return true;
    }
    let mut offset: usize = 12;
    while offset <= n && n - offset >= 8
        invariant
            n == data@.len(),
            12 <= offset <= n + 1,
            riff_tag(data@) && wave_tag(data@),
            wav_fields_inside(data@, 12) == wav_fields_inside(data@, offset as int),
        decreases n + 1 - offset,
    {
        let size64 = read_le(data, offset + 4, 4);
        let size = size64 as usize;
        assert(size as int == le_unsigned(data@.subrange(offset + 4, offset + 8)) as int);
        let body = offset + 8;
        if size > n - body {
            return true;
        }
        let ghost id = data@.subrange(offset as int, offset + 4);
        proof {
            assert(wav_fields_inside(data@, offset as int) == ((id == seq![0x66u8, 0x6du8, 0x74u8, 0x20u8] ==> body + 16
                <= data@.len()) && wav_fields_inside(data@, body + size + size % 2)));
        }
        if bytes_are(data, offset, 0x66, 0x6d, 0x74, 0x20) && n - body < 16 {
            return false;
        }
        let next = body + size;
        if size % 2 == 1 {
            if next == n {
                assert(wav_fields_inside(data@, n + 1));
                return true;
            }
            offset = next + 1;
        } else {
            offset = next;
        }
    }
    true
}

// ---------------------------------------------------------------------------
// Vocabulary file
// ---------------------------------------------------------------------------

/// `line` without one trailing carriage return.
pub open spec fn strip_cr(line: Seq<char>) -> Seq<char> {
    if line.len() > 0 && line.last() == '\r' {
        line.drop_last()
    } else {
        line
    }
}

/// The lines of `s[start..]` as `str::lines` gives them, scanning from `i`:
/// cut at each newline (a carriage return before it dropped), the last line
/// kept when it is not empty.
pub open spec fn lines_from(s: Seq<char>, start: int, i: int) -> Seq<Seq<char>>
    decreases s.len() - i,
{
    if i < start || i >= s.len() {
        if 0 <= start < s.len() {
            seq![s.subrange(start, s.len() as int)]
        } else {
            Seq::empty()
        }
    } else if s[i] == '\n' {
        seq![strip_cr(s.subrange(start, i))] + lines_from(s, i + 1, i + 1)
    } else {
        lines_from(s, start, i + 1)
    }
}

/// Value of the decimal digits `d`.
pub open spec fn digits_value(d: Seq<char>) -> nat
    decreases d.len(),
{
    if d.len() == 0 {
        0
    } else {
        digits_value(d.drop_last()) * 10 + (d.last() as nat - '0' as nat) as nat
    }
}

/// `d` is a non-empty run of ASCII digits whose value fits in a `usize`.
pub open spec fn digits_ok(d: Seq<char>) -> bool {
    d.len() > 0 && (forall|k: int| 0 <= k < d.len() ==> crate::text::ascii_digit(#[trigger] d[k])) && digits_value(d)
        <= usize::MAX
}

/// `s` without one leading `+`.
pub open spec fn without_plus(s: Seq<char>) -> Seq<char> {
    if s.len() > 0 && s[0] == '+' {
        s.drop_first()
    } else {
        s
    }
}

/// What `usize::from_str` accepts: an optional `+` and at least one ASCII
/// digit, with a value that fits.
pub open spec fn parse_usize(s: Seq<char>) -> Option<nat> {
    if digits_ok(without_plus(s)) {
        Some(digits_value(without_plus(s)))
    } else {
        None
    }
}

/// Index of the first space of `line` from `i`, if any.
pub open spec fn first_space_from(line: Seq<char>, i: int) -> Option<int>
    decreases line.len() - i,
{
    if i < 0 || i >= line.len() {
        None
    } else if line[i] == ' ' {
        Some(i)
    } else {
        first_space_from(line, i + 1)
    }
}

/// `s` with every `▁` (the sentencepiece word mark) made a space.
pub open spec fn marks_to_spaces(s: Seq<char>) -> Seq<char> {
    s.map_values(|c: char| if c == '\u{2581}' { ' ' } else { c })
}

/// The entry a vocabulary line holds: the token before the first space,
/// with word marks made spaces, and the id that the rest gives once
/// trimmed; `None` when the line has no space or no valid id.
pub open spec fn vocab_entry(line: Seq<char>) -> Option<(nat, Seq<char>)> {
    match first_space_from(line, 0) {
        None => None,
        Some(p) => match parse_usize(crate::text::trim(line.subrange(p + 1, line.len() as int))) {
            Some(id) => Some((id, marks_to_spaces(line.subrange(0, p)))),
            None => None,
        },
    }
}

/// The entries of `lines`, in order.
pub open spec fn vocab_entries(lines: Seq<Seq<char>>) -> Seq<(nat, Seq<char>)>
    decreases lines.len(),
{
    if lines.len() == 0 {
        Seq::empty()
    } else {
        vocab_entries(lines.drop_last()) + match vocab_entry(lines.last()) {
            Some(e) => seq![e],
            None => Seq::empty(),
        }
    }
}

/// The largest id of `entries`, 0 when there is none.
pub open spec fn max_id(entries: Seq<(nat, Seq<char>)>) -> nat
    decreases entries.len(),
{
    if entries.len() == 0 {
        0
    } else {
        let m = max_id(entries.drop_last());
        if entries.last().0 > m {
            entries.last().0
        } else {
            m
        }
    }
}

/// The token of the last entry with id `i`, empty when there is none.
pub open spec fn token_at(entries: Seq<(nat, Seq<char>)>, i: nat) -> Seq<char>
    decreases entries.len(),
{
    if entries.len() == 0 {
        Seq::empty()
    } else if entries.last().0 == i {
        entries.last().1
    } else {
        token_at(entries.drop_last(), i)
    }
}

proof fn lemma_max_id_bounds(entries: Seq<(nat, Seq<char>)>, k: int)
    requires
        0 <= k < entries.len(),
    ensures
        entries[k].0 <= max_id(entries),
    decreases entries.len(),
{
    if k < entries.len() - 1 {
        lemma_max_id_bounds(entries.drop_last(), k);
    }
}

/// The entries of one line (see `vocab_entry`), computed.
fn line_entry(v: &Vec<char>, lo: usize, hi: usize) -> (r: Option<(usize, String)>)
    requires
        lo <= hi <= v@.len(),
    ensures
        match vocab_entry(v@.subrange(lo as int, hi as int)) {
            Some((id, tok)) => r matches Some((i, t)) && i == id && t@ == tok,
            None => r is None,
        },
{
    let ghost line = v@.subrange(lo as int, hi as int);
    let mut p: usize = lo;
    while p < hi && v[p] != ' '
        invariant
            lo <= p <= hi <= v@.len(),
            line == v@.subrange(lo as int, hi as int),
            first_space_from(line, 0) == first_space_from(line, p - lo),
        decreases hi - p,
    {
        p = p + 1;
    }
    if p == hi {
        assert(first_space_from(line, p - lo) is None);
        return None;
    }
    assert(first_space_from(line, p - lo) == Some((p - lo) as int));
    let (a, b) = crate::text::trim_bounds(v, p + 1, hi);
    assert(line.subrange(p - lo + 1, line.len() as int) =~= v@.subrange(p + 1, hi as int));
    let ghost rest = crate::text::trim(v@.subrange(p + 1, hi as int));
    assert(rest == v@.subrange(a as int, b as int));
    let mut d: usize = a;
    if d < b && v[d] == '+' {
        d = d + 1;
    }
    let ghost digits = v@.subrange(d as int, b as int);
    let ghost tok = marks_to_spaces(v@.subrange(lo as int, p as int));
    assert(digits =~= without_plus(rest));
    assert(line.subrange(0, p - lo) =~= v@.subrange(lo as int, p as int));
    assert(vocab_entry(line) == (if digits_ok(digits) {
        Some((digits_value(digits), tok))
    } else {
        None::<(nat, Seq<char>)>
    }));
    if d == b {
        return None;
    }
    let mut value: usize = 0;
    let mut k: usize = d;
    while k < b
        invariant
            a <= d < b <= hi <= v@.len(),
            d <= k <= b,
            digits == v@.subrange(d as int, b as int),
            vocab_entry(v@.subrange(lo as int, hi as int)) == (if digits_ok(digits) {
                Some((digits_value(digits), tok))
            } else {
                None::<(nat, Seq<char>)>
            }),
            forall|m: int| d <= m < k ==> crate::text::ascii_digit(#[trigger] v@[m]),
            value == digits_value(v@.subrange(d as int, k as int)),
        decreases b - k,
    {
        assert(v@.subrange(d as int, k + 1).drop_last() =~= v@.subrange(d as int, k as int));
        if !crate::text::is_ascii_digit(v[k]) {
            assert(!crate::text::ascii_digit(digits[k - d]));
            return None;
        }
        let digit = (v[k] as u32 - '0' as u32) as usize;
        assert(digits_value(v@.subrange(d as int, k + 1)) == value * 10 + digit);
        if value > (usize::MAX - digit) / 10 {
            assert(value * 10 + digit > usize::MAX) by (nonlinear_arith)
                requires
                    value > (usize::MAX - digit) / 10,
                    digit <= 9,
            ;
            proof {
                if forall|m: int| 0 <= m < digits.len() ==> crate::text::ascii_digit(#[trigger] digits[m]) {
                    lemma_digits_value_grows(digits, (k - d) as int);
                    assert(digits.subrange(0, k + 1 - d) =~= v@.subrange(d as int, k + 1));
                }
            }
            return None;
        }
        value = value * 10 + digit;
        k = k + 1;
    }
    assert(v@.subrange(d as int, k as int) =~= digits);
    assert forall|m: int| 0 <= m < digits.len() implies crate::text::ascii_digit(#[trigger] digits[m]) by {
        assert(digits[m] == v@[d + m]);
    }
    let tok_chars = crate::text::slice_of(v, lo, p);
    let mut out: Vec<char> = Vec::new();
    let mut j: usize = 0;
    while j < tok_chars.len()
        invariant
            0 <= j <= tok_chars@.len(),
            out@ == marks_to_spaces(tok_chars@.take(j as int)),
        decreases tok_chars@.len() - j,
    {
        let c = tok_chars[j];
        out.push(if c == '\u{2581}' {
            ' '
        } else {
            c
        });
        assert(out@ =~= marks_to_spaces(tok_chars@.take(j + 1)));
        j = j + 1;
    }
    assert(tok_chars@.take(tok_chars@.len() as int) =~= tok_chars@);
    Some((value, string_of(&out, 0, out.len())))
}

proof fn lemma_digits_value_grows(d: Seq<char>, k: int)
    requires
        0 <= k < d.len(),
        forall|m: int| 0 <= m < d.len() ==> crate::text::ascii_digit(#[trigger] d[m]),
    ensures
        digits_value(d) >= digits_value(d.subrange(0, k + 1)),
    decreases d.len() - k,
{
    if k + 1 < d.len() {
        lemma_digits_value_grows(d, k + 1);
        assert(d.subrange(0, k + 2).drop_last() =~= d.subrange(0, k + 1));
    } else {
        assert(d.subrange(0, k + 1) =~= d);
    }
}

/// The vocabulary a `vocab.txt` file describes: one token per id from 0 to
/// the largest id, each the token of the last line with that id (empty when
/// no line has it). `None` when an id is `usize::MAX`, for which no such
/// vector can be made.
pub fn vocab_from_text(text: &str) -> (r: Option<Vec<String>>)
    ensures
        ({
            let entries = vocab_entries(lines_from(text@, 0, 0));
            match r {
                Some(vocab) => {
                    &&& forall|k: int| 0 <= k < entries.len() ==> (#[trigger] entries[k]).0 < usize::MAX
                    &&& vocab@.len() == max_id(entries) + 1
                    &&& forall|i: int| 0 <= i < vocab@.len() ==> (#[trigger] vocab@[i])@ == token_at(entries, i as nat)
                },
                None => exists|k: int| 0 <= k < entries.len() && (#[trigger] entries[k]).0 == usize::MAX,
            }
        }),
{
    let v = chars_of(text);
    let n = v.len();
    let ghost s = v@;
    let ghost mut done: Seq<Seq<char>> = Seq::empty();
    let mut entries: Vec<(usize, String)> = Vec::new();
    let mut start: usize = 0;
    let mut i: usize = 0;
    while i < n
        invariant
            n == s.len(),
            s == v@,
            s == text@,
            start <= i <= n,
            lines_from(s, 0, 0) == done + lines_from(s, start as int, i as int),
            entry_views(entries@) == vocab_entries(done),
        decreases n - i,
    {
        if v[i] == '\n' {
            let hi = if i > start && v[i - 1] == '\r' {
                i - 1
            } else {
                i
            };
            assert(v@.subrange(start as int, hi as int) == strip_cr(s.subrange(start as int, i as int)));
            let ghost line = strip_cr(s.subrange(start as int, i as int));
            assert(lines_from(s, start as int, i as int) == seq![line] + lines_from(s, i + 1, i + 1));
            let e = line_entry(&v, start, hi);
            proof {
                assert(done.push(line).drop_last() =~= done);
                assert(seq![line] + lines_from(s, i + 1, i + 1) == seq![line].add(lines_from(s, i + 1, i + 1)));
                assert(done + (seq![line] + lines_from(s, i + 1, i + 1)) =~= done.push(line) + lines_from(s, i + 1, i + 1));
                done = done.push(line);
            }
            match e {
                Some(pair) => {
                    let ghost before = entries@;
                    entries.push(pair);
                    assert(entry_views(entries@) =~= entry_views(before).push((entries@.last().0 as nat, entries@.last().1@)));
                },
                None => {},
            }
            start = i + 1;
        } else {
            assert(lines_from(s, start as int, i as int) == lines_from(s, start as int, i + 1));
        }
        i = i + 1;
    }
    if start < n {
        let ghost line = s.subrange(start as int, n as int);
        assert(lines_from(s, start as int, n as int) == seq![line]);
        let e = line_entry(&v, start, n);
        proof {
            assert(done.push(line).drop_last() =~= done);
            assert(done + seq![line] =~= done.push(line));
            done = done.push(line);
        }
        match e {
            Some(pair) => {
                let ghost before = entries@;
                entries.push(pair);
                assert(entry_views(entries@) =~= entry_views(before).push((entries@.last().0 as nat, entries@.last().1@)));
            },
            None => {},
        }
    } else {
        assert(lines_from(s, start as int, n as int) =~= Seq::<Seq<char>>::empty());
        assert(done + Seq::<Seq<char>>::empty() =~= done);
    }
    let ghost ev = entry_views(entries@);
    assert(ev == vocab_entries(lines_from(text@, 0, 0)));
    let mut top: usize = 0;
    let mut k: usize = 0;
    while k < entries.len()
        invariant
            0 <= k <= entries@.len(),
            ev == entry_views(entries@),
            ev == vocab_entries(lines_from(text@, 0, 0)),
            top == max_id(ev.take(k as int)),
            top < usize::MAX,
            forall|m: int| 0 <= m < k ==> (#[trigger] ev[m]).0 < usize::MAX,
        decreases entries@.len() - k,
    {
        assert(ev.take(k + 1).drop_last() =~= ev.take(k as int));
        assert(ev[k as int].0 == entries@[k as int].0);
        if entries[k].0 == usize::MAX {
            assert(ev[k as int].0 == usize::MAX);
            return None;
        }
        if entries[k].0 > top {
            top = entries[k].0;
        }
        k = k + 1;
    }
    assert(ev.take(k as int) =~= ev);
    proof {
        assert forall|m: int| 0 <= m < ev.len() implies (#[trigger] ev[m]).0 <= top by {
            lemma_max_id_bounds(ev, m);
        }
    }
    let mut vocab: Vec<String> = Vec::new();
    let mut j: usize = 0;
    while j < top + 1
        invariant
            top < usize::MAX,
            j <= top + 1,
            vocab@.len() == j,
            forall|m: int| 0 <= m < j ==> (#[trigger] vocab@[m])@ == Seq::<char>::empty(),
        decreases top + 1 - j,
    {
        vocab.push(String::new());
        j = j + 1;
    }
    let mut k: usize = 0;
    while k < entries.len()
        invariant
            0 <= k <= entries@.len(),
            ev == entry_views(entries@),
            vocab@.len() == top + 1,
            forall|m: int| 0 <= m < ev.len() ==> (#[trigger] ev[m]).0 <= top,
            forall|i: int| 0 <= i < vocab@.len() ==> (#[trigger] vocab@[i])@ == token_at(ev.take(k as int), i as nat),
        decreases entries@.len() - k,
    {
        let id = entries[k].0;
        let t = entries[k].1.clone();
        assert(ev[k as int] == (id as nat, t@));
        vocab.set(id, t);
        proof {
            assert(ev.take(k + 1).drop_last() =~= ev.take(k as int));
            assert(ev.take(k + 1).last() == ev[k as int]);
        }
        k = k + 1;
    }
    assert(ev.take(entries@.len() as int) =~= ev);
    Some(vocab)
}

/// The entries with their ids widened.
pub open spec fn entry_views(entries: Seq<(usize, String)>) -> Seq<(nat, Seq<char>)> {
    entries.map_values(|e: (usize, String)| (e.0 as nat, e.1@))
}

// ---------------------------------------------------------------------------
// Commands
// ---------------------------------------------------------------------------

/// The commands the listening service answers.
#[derive(Clone, Copy, Debug, PartialEq, Eq, Structural)]
pub enum SttCommand {
    GetState,
    SetMode,
    ManualStop,
    /// A command name the service does not know.
    Unknown,
    /// A request without a command name.
    Missing,
}

/// The command a request names.
pub open spec fn spec_stt_command(name: Option<Seq<char>>) -> SttCommand {
    match name {
        None => SttCommand::Missing,
        Some(n) => if n == "get_state"@ {
            SttCommand::GetState
        } else if n == "set_mode"@ {
            SttCommand::SetMode
        } else if n == "manual_stop"@ {
            SttCommand::ManualStop
        } else {
            SttCommand::Unknown
        },
    }
}

/// The command named by a request's `command` field, if it has one.
pub fn stt_command(name: Option<&str>) -> (r: SttCommand)
    ensures
        r == spec_stt_command(
            match name {
                Some(n) => Some(n@),
                None => None,
            },
        ),
{
    match name {
        None => SttCommand::Missing,
        Some(n) => if crate::cli_config::str_eq(n, "get_state") {
            SttCommand::GetState
        } else if crate::cli_config::str_eq(n, "set_mode") {
            SttCommand::SetMode
        } else if crate::cli_config::str_eq(n, "manual_stop") {
            SttCommand::ManualStop
        } else {
            SttCommand::Unknown
        },
    }
}

/// The mode a `set_mode` request selects: the one it names, else `IDLE`.
pub fn requested_mode(mode: Option<&str>) -> (r: String)
    ensures
        r@ == match mode {
            Some(m) => m@,
            None => "IDLE"@,
        },
{
    match mode {
        Some(m) => m.to_string(),
        None => "IDLE".to_string(),
    }
}

} // verus!
