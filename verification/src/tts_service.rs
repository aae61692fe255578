//! Request handling of the speech service: which command a request names,
//! when a speak or state request is accepted and with which settings, how a
//! voice is checked, when the loaded engine can be kept, and the counters
//! that let a stop silence speech that is already queued.
//!
//! Speeds are carried as the bits of a double; the service compares them
//! at single precision, so callers round them through `f32` first.

use vstd::prelude::*;
use crate::cli_config::str_eq;
use crate::sentences::Quality;
use crate::text::{chars_of, trim};
use crate::toml_doc::{float_le, float_le_bits, is_blank, FLOAT_HALF, FLOAT_TWO};
use crate::voices::{ends_with_chars, has_suffix};

verus! {

broadcast use vstd::string::group_string_axioms;

// ---------------------------------------------------------------------------
// Commands
// ---------------------------------------------------------------------------

/// The commands the service answers.
#[derive(Clone, Copy, Debug, PartialEq, Eq, Structural)]
pub enum Command {
    Speak,
    Stop,
    Warm,
    GetState,
    ListVoices,
    SetState,
    /// Re-read the configuration file and take its defaults.
    ReloadConfig,
    /// A command name the service does not know.
    Unknown,
    /// A request without a command name.
    Missing,
}

/// The command a request names.
pub open spec fn spec_command(name: Option<Seq<char>>) -> Command {
    match name {
        None => Command::Missing,
        Some(n) => if n == "speak"@ {
            Command::Speak
        } else if n == "stop"@ {
            Command::Stop
        } else if n == "warm"@ {
            Command::Warm
        } else if n == "get_state"@ {
            Command::GetState
        } else if n == "list_voices"@ {
            Command::ListVoices
        } else if n == "set_state"@ {
            Command::SetState
        } else if n == "reload_config"@ {
            Command::ReloadConfig
        } else {
            Command::Unknown
        },
    }
}

/// The command named by a request's `command` field, if it has one.
pub fn command_of(name: Option<&str>) -> (r: Command)
    ensures
        r == spec_command(
            match name {
                Some(n) => Some(n@),
                None => None,
            },
        ),
{
    match name {
        None => Command::Missing,
        Some(n) => if str_eq(n, "speak") {
            Command::Speak
        } else if str_eq(n, "stop") {
            Command::Stop
        } else if str_eq(n, "warm") {
            Command::Warm
        } else if str_eq(n, "get_state") {
            Command::GetState
        } else if str_eq(n, "list_voices") {
            Command::ListVoices
        } else if str_eq(n, "set_state") {
            Command::SetState
        } else if str_eq(n, "reload_config") {
            Command::ReloadConfig
        } else {
            Command::Unknown
        },
    }
}

// ---------------------------------------------------------------------------
// Settings of a request
// ---------------------------------------------------------------------------

/// The service's current defaults, used for every field a request leaves out.
#[derive(Clone, Debug)]
pub struct TtsDefaults {
    pub engine: String,
    pub voice: String,
    /// Bits of the speed.
    pub speed: u64,
    pub quality: String,
}

/// Why a speak or state request is refused.
#[derive(Clone, Copy, Debug, PartialEq, Eq, Structural)]
pub enum RequestError {
    UnsupportedEngine,
    MissingText,
    InvalidQuality,
    InvalidSpeed,
}

pub open spec fn spec_request_message(e: RequestError) -> Seq<char> {
    match e {
        RequestError::UnsupportedEngine => "Unsupported Rust TTS engine"@,
        RequestError::MissingText => "Missing text"@,
        RequestError::InvalidQuality => "Invalid quality"@,
        RequestError::InvalidSpeed => "Invalid speed"@,
    }
}

impl RequestError {
    /// The message the service answers with.
    pub fn message(&self) -> (r: &'static str)
        ensures
            r@ == spec_request_message(*self),
    {
        match self {
            RequestError::UnsupportedEngine => "Unsupported Rust TTS engine",
            RequestError::MissingText => "Missing text",
            RequestError::InvalidQuality => "Invalid quality",
            RequestError::InvalidSpeed => "Invalid speed",
        }
    }
}

/// The engines this service runs.
pub open spec fn supported_engine(e: Seq<char>) -> bool {
    e == "kokoro"@ || e == "pocket-tts"@
}

/// The quality a name stands for.
pub open spec fn quality_named(q: Seq<char>) -> Option<Quality> {
    if q == "low"@ {
        Some(Quality::Low)
    } else if q == "high"@ {
        Some(Quality::High)
    } else {
        None
    }
}

/// `0.5 <= speed <= 2.0`.
pub open spec fn speed_ok(bits: u64) -> bool {
    float_le(FLOAT_HALF, bits) && float_le(bits, FLOAT_TWO)
}

/// A field of the request, or the default where it is missing.
pub open spec fn or_default(v: Option<Seq<char>>, d: Seq<char>) -> Seq<char> {
    match v {
        Some(x) => x,
        None => d,
    }
}

pub open spec fn view_opt(v: Option<&str>) -> Option<Seq<char>> {
    match v {
        Some(x) => Some(x@),
        None => None,
    }
}

/// The first check a speak request fails: engine, text, quality, speed.
pub open spec fn speak_rejection(engine: Seq<char>, text: Option<Seq<char>>, quality: Seq<char>, speed: u64) -> Option<
    RequestError,
> {
    if !supported_engine(engine) {
        Some(RequestError::UnsupportedEngine)
    } else if text is None || trim(text.unwrap()).len() == 0 {
        Some(RequestError::MissingText)
    } else if quality_named(quality) is None {
        Some(RequestError::InvalidQuality)
    } else if !speed_ok(speed) {
        Some(RequestError::InvalidSpeed)
    } else {
        None
    }
}

/// The first check a state request fails: quality, engine, speed.
pub open spec fn state_rejection(engine: Seq<char>, quality: Seq<char>, speed: u64) -> Option<RequestError> {
    if quality_named(quality) is None {
        Some(RequestError::InvalidQuality)
    } else if !supported_engine(engine) {
        Some(RequestError::UnsupportedEngine)
    } else if !speed_ok(speed) {
        Some(RequestError::InvalidSpeed)
    } else {
        None
    }
}

/// An accepted request to speak.
#[derive(Clone, Debug)]
pub struct SpeakRequest {
    pub engine: String,
    pub text: String,
    pub voice: String,
    /// Bits of the speed.
    pub speed: u64,
    pub quality: Quality,
}

fn or_default_string(v: Option<&str>, d: &String) -> (r: String)
    ensures
        r@ == or_default(view_opt(v), d@),
{
    match v {
        Some(x) => x.to_string(),
        None => d.clone(),
    }
}

fn engine_supported(e: &str) -> (r: bool)
    ensures
        r == supported_engine(e@),
{
    str_eq(e, "kokoro") || str_eq(e, "pocket-tts")
}

fn quality_of(q: &str) -> (r: Option<Quality>)
    ensures
        r == quality_named(q@),
{
    if str_eq(q, "low") {
        Some(Quality::Low)
    } else if str_eq(q, "high") {
        Some(Quality::High)
    } else {
        None
    }
}

fn speed_in_range(bits: u64) -> (r: bool)
    ensures
        r == speed_ok(bits),
{
    float_le_bits(FLOAT_HALF, bits) && float_le_bits(bits, FLOAT_TWO)
}

/// Accepts or refuses a request to speak. Each field the request leaves out
/// is taken from `defaults`; the checks run in the order engine, text,
/// quality, speed, and the first that fails is the answer.
pub fn speak_request(
    defaults: &TtsDefaults,
    engine: Option<&str>,
    text: Option<&str>,
    voice: Option<&str>,
    speed: Option<u64>,
    quality: Option<&str>,
) -> (r: Result<SpeakRequest, RequestError>)
    ensures
        ({
            let e = or_default(view_opt(engine), defaults.engine@);
            let q = or_default(view_opt(quality), defaults.quality@);
            let s = match speed {
                Some(b) => b,
                None => defaults.speed,
            };
            match r {
                Ok(req) => {
                    &&& speak_rejection(e, view_opt(text), q, s) is None
                    &&& req.engine@ == e
                    &&& req.text@ == text.unwrap()@
                    &&& req.voice@ == or_default(view_opt(voice), defaults.voice@)
                    &&& req.speed == s
                    &&& Some(req.quality) == quality_named(q)
                },
                Err(err) => speak_rejection(e, view_opt(text), q, s) == Some(err),
            }
        }),
{
    let e = or_default_string(engine, &defaults.engine);
    if !engine_supported(e.as_str()) {
        return Err(RequestError::UnsupportedEngine);
    }
    let t = match text {
        Some(t) => {
            if is_blank(t) {
                return Err(RequestError::MissingText);
            }
            t.to_string()
        },
        None => return Err(RequestError::MissingText),
    };
    let v = or_default_string(voice, &defaults.voice);
    let s = match speed {
        Some(b) => b,
        None => defaults.speed,
    };
    let q = or_default_string(quality, &defaults.quality);
    let qual = match quality_of(q.as_str()) {
        Some(x) => x,
        None => return Err(RequestError::InvalidQuality),
    };
    if !speed_in_range(s) {
        return Err(RequestError::InvalidSpeed);
    }
    Ok(SpeakRequest { engine: e, text: t, voice: v, speed: s, quality: qual })
}

/// Accepts or refuses a request to change the defaults. Each field the
/// request leaves out keeps its current value; the checks run in the order
/// quality, engine, speed. An accepted request gives the new defaults (the
/// voice is still to be checked against the engine).
pub fn state_request(
    defaults: &TtsDefaults,
    engine: Option<&str>,
    voice: Option<&str>,
    speed: Option<u64>,
    quality: Option<&str>,
) -> (r: Result<TtsDefaults, RequestError>)
    ensures
        ({
            let e = or_default(view_opt(engine), defaults.engine@);
            let q = or_default(view_opt(quality), defaults.quality@);
            let s = match speed {
                Some(b) => b,
                None => defaults.speed,
            };
            match r {
                Ok(d) => {
                    &&& state_rejection(e, q, s) is None
                    &&& d.engine@ == e
                    &&& d.voice@ == or_default(view_opt(voice), defaults.voice@)
                    &&& d.speed == s
                    &&& d.quality@ == q
                },
                Err(err) => state_rejection(e, q, s) == Some(err),
            }
        }),
{
    let e = or_default_string(engine, &defaults.engine);
    let v = or_default_string(voice, &defaults.voice);
    let s = match speed {
        Some(b) => b,
        None => defaults.speed,
    };
    let q = or_default_string(quality, &defaults.quality);
    if quality_of(q.as_str()).is_none() {
        return Err(RequestError::InvalidQuality);
    }
    if !engine_supported(e.as_str()) {
        return Err(RequestError::UnsupportedEngine);
    }
    if !speed_in_range(s) {
        return Err(RequestError::InvalidSpeed);
    }
    Ok(TtsDefaults { engine: e, voice: v, speed: s, quality: q })
}

/// The quality a warm request asks for, or `None` when its name is neither
/// `low` nor `high`.
pub fn warm_quality(defaults: &TtsDefaults, quality: Option<&str>) -> (r: Option<Quality>)
    ensures
        r == quality_named(or_default(view_opt(quality), defaults.quality@)),
{
    let q = or_default_string(quality, &defaults.quality);
    quality_of(q.as_str())
}

// ---------------------------------------------------------------------------
// Voices
// ---------------------------------------------------------------------------

/// A voice given as a file of voice weights rather than by name.
pub open spec fn spec_is_custom_voice(voice: Seq<char>) -> bool {
    has_suffix(voice, ".safetensors"@)
}

/// Whether the voice is a file of voice weights rather than a name.
pub fn is_custom_voice(voice: &str) -> (r: bool)
    ensures
        r == spec_is_custom_voice(voice@),
{
    let v = chars_of(voice);
    let suffix = chars_of(".safetensors");
    assert(v@.subrange(0, v@.len() as int) =~= v@);
    ends_with_chars(&v, v.len(), &suffix)
}

/// Why a voice is refused.
#[derive(Clone, Copy, Debug, PartialEq, Eq, Structural)]
pub enum VoiceError {
    /// A file of voice weights was given for an engine other than pocket-tts.
    CustomNeedsPocket,
    /// The file of voice weights does not exist.
    FileNotFound,
    /// The engine does not offer the named voice.
    NotAvailable,
}

/// The verdict on a voice: a file of voice weights is accepted for
/// pocket-tts when the file exists; a named voice when the engine lists it.
pub open spec fn spec_voice_verdict(engine: Seq<char>, voice: Seq<char>, file_exists: bool, available: Seq<Seq<char>>) -> Result<
    (),
    VoiceError,
> {
    if spec_is_custom_voice(voice) {
        if engine != "pocket-tts"@ {
            Err(VoiceError::CustomNeedsPocket)
        } else if !file_exists {
            Err(VoiceError::FileNotFound)
        } else {
            Ok(())
        }
    } else if available.contains(voice) {
        Ok(())
    } else {
        Err(VoiceError::NotAvailable)
    }
}

/// Checks a voice for an engine. `file_exists` tells whether a file of
/// voice weights exists at the voice's path; `available` holds the voices
/// the engine lists. Each is read only for its kind of voice.
pub fn voice_verdict(engine: &str, voice: &str, file_exists: bool, available: &Vec<String>) -> (r: Result<
    (),
    VoiceError,
>)
    ensures
        r == spec_voice_verdict(engine@, voice@, file_exists, available@.map_values(|s: String| s@)),
{
    let ghost names = available@.map_values(|s: String| s@);
    if is_custom_voice(voice) {
        if !str_eq(engine, "pocket-tts") {
            return Err(VoiceError::CustomNeedsPocket);
        }
        if !file_exists {
            return Err(VoiceError::FileNotFound);
        }
        return Ok(());
    }
    let mut k: usize = 0;
    while k < available.len()
        invariant
            0 <= k <= available@.len(),
            names == available@.map_values(|s: String| s@),
            !spec_is_custom_voice(voice@),
            forall|m: int| 0 <= m < k ==> names[m] != voice@,
        decreases available@.len() - k,
    {
        if str_eq(available[k].as_str(), voice) {
            assert(names[k as int] == voice@);
            assert(names.contains(voice@));
            return Ok(());
        }
        k = k + 1;
    }
    assert(!names.contains(voice@));
    Err(VoiceError::NotAvailable)
}

// ---------------------------------------------------------------------------
// Engines
// ---------------------------------------------------------------------------

/// What it takes to have the requested engine ready.
#[derive(Clone, Copy, Debug, PartialEq, Eq, Structural)]
pub enum EnginePlan {
    /// The loaded engine already has this name and quality.
    Ready,
    /// The loaded engine has this name: load it again, after setting the
    /// quality when `set_quality` says so.
    Reload { set_quality: bool },
    /// Build the engine anew (dropping any other that is loaded).
    Create,
    /// No engine of this name exists.
    Unsupported,
}

/// The plan for `engine` at `quality`, given the name and quality the
/// service last loaded and whether an engine is held now.
pub open spec fn spec_engine_plan(
    current: Option<Seq<char>>,
    current_quality: Option<Quality>,
    held: bool,
    engine: Seq<char>,
    quality: Quality,
) -> EnginePlan {
    if current == Some(engine) && current_quality == Some(quality) {
        EnginePlan::Ready
    } else if held && current == Some(engine) {
        EnginePlan::Reload { set_quality: current_quality != Some(quality) }
    } else if supported_engine(engine) {
        EnginePlan::Create
    } else {
        EnginePlan::Unsupported
    }
}

/// Decides how to make the requested engine ready.
pub fn engine_plan(current: Option<&str>, current_quality: Option<Quality>, held: bool, engine: &str, quality: Quality) -> (r:
    EnginePlan)
    ensures
        r == spec_engine_plan(view_opt(current), current_quality, held, engine@, quality),
{
    let same_name = match current {
        Some(c) => str_eq(c, engine),
        None => false,
    };
    let same_quality = match current_quality {
        Some(q) => q == quality,
        None => false,
    };
    if same_name && same_quality {
        EnginePlan::Ready
    } else if held && same_name {
        EnginePlan::Reload { set_quality: !same_quality }
    } else if engine_supported(engine) {
        EnginePlan::Create
    } else {
        EnginePlan::Unsupported
    }
}

/// Where an engine's model files live, below the home directory.
pub open spec fn spec_model_dir(engine: Seq<char>) -> Seq<char> {
    if engine == "pocket-tts"@ {
        ".local/share/neuropipe/models/pocket-tts"@
    } else {
        ".local/share/neuropipe/models/kokoro"@
    }
}

/// The directory of an engine's model files, below the home directory.
pub fn model_dir(engine: &str) -> (r: &'static str)
    ensures
        r@ == spec_model_dir(engine@),
{
    if str_eq(engine, "pocket-tts") {
        ".local/share/neuropipe/models/pocket-tts"
    } else {
        ".local/share/neuropipe/models/kokoro"
    }
}

/// Whether an idle engine should be released: it has been idle for at
/// least the timeout, nothing is being spoken or generated, and an engine
/// is held.
pub fn should_release(idle_ms: u128, timeout_secs: u64, speaking: bool, generating: bool, held: bool) -> (r: bool)
    ensures
        r == (idle_ms >= timeout_secs * 1000 && !speaking && !generating && held),
{
    let timeout_ms: u128 = timeout_secs as u128 * 1000;
    idle_ms >= timeout_ms && !speaking && !generating && held
}

// ---------------------------------------------------------------------------
// Generations
// ---------------------------------------------------------------------------

/// Counters shared by the request handler and the synthesis worker. A stop
/// starts a new generation; audio made for an older one is dropped.
#[derive(Clone, Copy, Debug)]
pub struct Generations {
    pub generation: u64,
    pub pending: usize,
    pub generating: bool,
}

impl Generations {
    pub fn new() -> (r: Self)
        ensures
            r.generation == 0,
            r.pending == 0,
            !r.generating,
    {
        Generations { generation: 0, pending: 0, generating: false }
    }

    /// A stop: every queued request and chunk becomes stale.
    pub fn stop(&mut self)
        ensures
            final(self).generation == old(self).generation.wrapping_add(1),
            final(self).pending == old(self).pending,
            final(self).generating == old(self).generating,
    {
        self.generation = self.generation.wrapping_add(1);
    }

    /// A request is queued: it is tagged with the current generation.
    pub fn enqueue(&mut self) -> (tag: u64)
        ensures
            tag == old(self).generation,
            final(self).generation == old(self).generation,
            final(self).pending == old(self).pending.wrapping_add(1),
            final(self).generating,
    {
        self.pending = self.pending.wrapping_add(1);
        self.generating = true;
        self.generation
    }

    /// The worker could not take the request: undo `enqueue`.
    pub fn enqueue_failed(&mut self)
        ensures
            final(self).generation == old(self).generation,
            final(self).pending == old(self).pending.wrapping_sub(1),
            !final(self).generating,
    {
        self.pending = self.pending.wrapping_sub(1);
        self.generating = false;
    }

    /// The worker is done with a request; the last one clears `generating`.
    pub fn request_done(&mut self)
        ensures
            final(self).generation == old(self).generation,
            final(self).pending == old(self).pending.wrapping_sub(1),
            final(self).generating == (old(self).generating && old(self).pending != 1),
    {
        if self.pending == 1 {
            self.generating = false;
        }
        self.pending = self.pending.wrapping_sub(1);
    }

    /// Whether work tagged `tag` is still wanted.
    pub fn is_current(&self, tag: u64) -> (r: bool)
        ensures
            r == (tag == self.generation),
    {
        tag == self.generation
    }
}

/// After a stop, no request queued before it is current.
pub proof fn lemma_stop_makes_stale(g: Generations, tag: u64)
    requires
        tag == g.generation,
    ensures
        tag != g.generation.wrapping_add(1),
{
    let x = g.generation;
    assert(x.wrapping_add(1) != x);
}

} // verus!
