//! The TTS settings that the settings window reads from and writes to the
//! configuration document: default engine and voice, per-engine speed and
//! quality with their fallbacks, the idle timeout, and favorite voices.
//!
//! Every write edits only the table it is about; what a read gives back
//! after a write is stated by the laws at the end of this file.

use vstd::prelude::*;
use crate::text::chars_of;
use crate::voices::same_chars;
use crate::toml_doc::{
    agrees_except, as_array, as_float, as_int, as_str, as_table, close_at, edited, entry, find_key,
    get, get_path, get_value, lemma_put_back, lemma_replaced_at_is_edit, open_at, replaced_at,
    set_entry, sub_entries, sub_items, take_sub_entries, take_sub_items, with_entry, float_le,
    float_le_bits, TomlDoc, FLOAT_HALF, FLOAT_ONE, FLOAT_TWO,
};

verus! {

broadcast use vstd::string::group_string_axioms;

/// Engine used when the document names none.
pub const DEFAULT_ENGINE: &'static str = "kokoro";

/// Voice used when the document names none.
pub const DEFAULT_VOICE: &'static str = "af_bella";

/// Speed used when the document gives none (`1.0`, as float bits).
pub const DEFAULT_SPEED: u64 = FLOAT_ONE;

/// Quality used when the document gives none.
pub const DEFAULT_QUALITY: &'static str = "high";

/// Idle timeout used when the document gives none.
pub const DEFAULT_IDLE_TIMEOUT_SEC: u64 = 60;

/// Why a settings write was refused.
#[derive(Clone, Copy, Debug, PartialEq, Eq, Structural)]
pub enum SettingsError {
    /// The engine or the voice is empty.
    EmptyEngineOrVoice,
    /// The document's root is not a table.
    RootNotTable,
    /// The speed is outside `[0.5, 2.0]`.
    InvalidSpeed,
    /// The quality is neither `low` nor `high`.
    InvalidQuality,
    /// The idle timeout is below one second.
    IdleTimeoutTooShort,
}

// ---------------------------------------------------------------------------
// Reads
// ---------------------------------------------------------------------------

/// The string at `path`, if there is one.
pub open spec fn str_at(doc: TomlDoc, path: Seq<Seq<char>>) -> Option<Seq<char>> {
    as_str(get_path(doc, path))
}

/// `[tts.defaults]` engine and voice, each falling back to its default.
pub open spec fn spec_tts_defaults_from(doc: TomlDoc) -> (Seq<char>, Seq<char>) {
    (
        match str_at(doc, seq!["tts"@, "defaults"@, "engine"@]) {
            Some(e) => e,
            None => DEFAULT_ENGINE@,
        },
        match str_at(doc, seq!["tts"@, "defaults"@, "voice"@]) {
            Some(v) => v,
            None => DEFAULT_VOICE@,
        },
    )
}

/// Speed for `engine`: the `[tts.speeds]` float for it, else the
/// `[tts.defaults]` speed float, else `DEFAULT_SPEED`.
pub open spec fn spec_tts_speed_from(doc: TomlDoc, engine: Seq<char>) -> u64 {
    match as_float(get_path(doc, seq!["tts"@, "speeds"@, engine])) {
        Some(b) => b,
        None => match as_float(get_path(doc, seq!["tts"@, "defaults"@, "speed"@])) {
            Some(b) => b,
            None => DEFAULT_SPEED,
        },
    }
}

/// Quality for `engine`: the `[tts.qualities]` string for it, else the
/// `[tts.defaults]` quality, else `DEFAULT_QUALITY`.
pub open spec fn spec_tts_quality_from(doc: TomlDoc, engine: Seq<char>) -> Seq<char> {
    match str_at(doc, seq!["tts"@, "qualities"@, engine]) {
        Some(q) => q,
        None => match str_at(doc, seq!["tts"@, "defaults"@, "quality"@]) {
            Some(q) => q,
            None => DEFAULT_QUALITY@,
        },
    }
}

/// `[tts.defaults].idle_timeout_sec`, else `DEFAULT_IDLE_TIMEOUT_SEC`, and
/// at least 1.
pub open spec fn spec_tts_idle_timeout_from(doc: TomlDoc) -> u64 {
    let t: int = match as_int(get_path(doc, seq!["tts"@, "defaults"@, "idle_timeout_sec"@])) {
        Some(i) => i as int,
        None => DEFAULT_IDLE_TIMEOUT_SEC as int,
    };
    if t < 1 {
        1
    } else {
        t as u64
    }
}

/// The favorites key of an engine: `-` becomes `_` (`pocket-tts` is kept
/// under `pocket_tts`).
pub open spec fn spec_favorites_key(engine: Seq<char>) -> Seq<char> {
    engine.map_values(|c: char| if c == '-' { '_' } else { c })
}

/// The strings among `items`, in order.
pub open spec fn str_items(items: Seq<TomlDoc>) -> Seq<Seq<char>>
    decreases items.len(),
{
    if items.len() == 0 {
        Seq::empty()
    } else {
        match items.last() {
            TomlDoc::Str(s) => str_items(items.drop_last()).push(s@),
            _ => str_items(items.drop_last()),
        }
    }
}

/// The favorite voices of `engine`: the strings of its `[tts.favorites]`
/// array (none when unset).
pub open spec fn spec_tts_favorite_voices_from(doc: TomlDoc, engine: Seq<char>) -> Seq<Seq<char>> {
    match as_array(get_path(doc, seq!["tts"@, "favorites"@, spec_favorites_key(engine)])) {
        Some(items) => str_items(items),
        None => Seq::empty(),
    }
}

/// The value at `doc[a][b][c]`.
pub fn value_at<'a>(doc: &'a TomlDoc, a: &str, b: &str, c: &str) -> (r: Option<&'a TomlDoc>)
    ensures
        r matches Some(v) ==> get_path(*doc, seq![a@, b@, c@]) == Some(*v),
        r is None ==> get_path(*doc, seq![a@, b@, c@]) is None,
{
    let ghost path = seq![a@, b@, c@];
    proof {
        reveal_with_fuel(get_path, 4);
    }
    assert(path.drop_first() =~= seq![b@, c@]);
    assert(path.drop_first().drop_first() =~= seq![c@]);
    assert(path.drop_first().drop_first().drop_first() =~= Seq::<Seq<char>>::empty());
    match get_value(doc, a) {
        None => None,
        Some(x) => match get_value(x, b) {
            None => None,
            Some(y) => get_value(y, c),
        },
    }
}

/// The string at `doc[a][b][c]`, or `fallback`.
fn str_or(doc: &TomlDoc, a: &str, b: &str, c: &str, fallback: &str) -> (r: String)
    ensures
        r@ == (match str_at(*doc, seq![a@, b@, c@]) {
            Some(s) => s,
            None => fallback@,
        }),
{
    match value_at(doc, a, b, c) {
        Some(TomlDoc::Str(s)) => s.clone(),
        _ => fallback.to_string(),
    }
}

/// `[tts.defaults]` engine and voice, with the defaults as fallback.
pub fn tts_defaults_from(doc: &TomlDoc) -> (r: (String, String))
    ensures
        (r.0@, r.1@) == spec_tts_defaults_from(*doc),
{
    let engine = str_or(doc, "tts", "defaults", "engine", DEFAULT_ENGINE);
    let voice = str_or(doc, "tts", "defaults", "voice", DEFAULT_VOICE);
    (engine, voice)
}

/// Effective speed for `engine`, as float bits (see `spec_tts_speed_from`).
pub fn tts_speed_from(doc: &TomlDoc, engine: &str) -> (r: u64)
    ensures
        r == spec_tts_speed_from(*doc, engine@),
{
    let fallback = match value_at(doc, "tts", "defaults", "speed") {
        Some(TomlDoc::Float(b)) => *b,
        _ => DEFAULT_SPEED,
    };
    match value_at(doc, "tts", "speeds", engine) {
        Some(TomlDoc::Float(b)) => *b,
        _ => fallback,
    }
}

/// Effective quality for `engine` (see `spec_tts_quality_from`).
pub fn tts_quality_from(doc: &TomlDoc, engine: &str) -> (r: String)
    ensures
        r@ == spec_tts_quality_from(*doc, engine@),
{
    let fallback = str_or(doc, "tts", "defaults", "quality", DEFAULT_QUALITY);
    match value_at(doc, "tts", "qualities", engine) {
        Some(TomlDoc::Str(s)) => s.clone(),
        _ => fallback,
    }
}

/// `[tts.defaults].idle_timeout_sec`, at least 1 (see
/// `spec_tts_idle_timeout_from`).
pub fn tts_idle_timeout_from(doc: &TomlDoc) -> (r: u64)
    ensures
        r == spec_tts_idle_timeout_from(*doc),
{
    let t: i64 = match value_at(doc, "tts", "defaults", "idle_timeout_sec") {
        Some(TomlDoc::Int(i)) => *i,
        _ => 60,
    };
    if t < 1 {
        1
    } else {
        t as u64
    }
}

/// Config key for an engine's favorite voices (see `spec_favorites_key`).
pub fn favorites_key(engine: &str) -> (r: String)
    ensures
        r@ == spec_favorites_key(engine@),
{
    let v = chars_of(engine);
    let mut out = String::new();
    let mut k: usize = 0;
    while k < v.len()
        invariant
            0 <= k <= v@.len(),
            v@ == engine@,
            out@ == spec_favorites_key(engine@.take(k as int)),
        decreases v@.len() - k,
    {
        let c = if v[k] == '-' {
            '_'
        } else {
            v[k]
        };
        crate::text::push_char(&mut out, c);
        assert(spec_favorites_key(engine@.take(k + 1)) =~= spec_favorites_key(engine@.take(k as int)).push(c));
        k = k + 1;
    }
    assert(engine@.take(engine@.len() as int) =~= engine@);
    out
}

/// The strings among `items`.
fn strings_of(items: &Vec<TomlDoc>) -> (r: Vec<String>)
    ensures
        crate::sentences::views(r@) == str_items(items@),
{
    let mut out: Vec<String> = Vec::new();
    let mut k: usize = 0;
    while k < items.len()
        invariant
            0 <= k <= items@.len(),
            crate::sentences::views(out@) == str_items(items@.take(k as int)),
        decreases items@.len() - k,
    {
        let ghost before = out@;
        assert(items@.take(k + 1).drop_last() =~= items@.take(k as int));
        match &items[k] {
            TomlDoc::Str(s) => {
                out.push(s.clone());
                assert(crate::sentences::views(out@) =~= crate::sentences::views(before).push(s@));
            },
            _ => {},
        }
        k = k + 1;
    }
    assert(items@.take(items@.len() as int) =~= items@);
    out
}

/// Favorite voices for `engine` (see `spec_tts_favorite_voices_from`).
pub fn tts_favorite_voices_from(doc: &TomlDoc, engine: &str) -> (r: Vec<String>)
    ensures
        crate::sentences::views(r@) == spec_tts_favorite_voices_from(*doc, engine@),
{
    let key = favorites_key(engine);
    match value_at(doc, "tts", "favorites", key.as_str()) {
        Some(TomlDoc::Array(items)) => strings_of(items),
        _ => Vec::new(),
    }
}

// ---------------------------------------------------------------------------
// Writes
// ---------------------------------------------------------------------------

/// The outcome of an edit of the tables along `path`: refused when the
/// root is not a table, else the edited document (see `edited`).
pub open spec fn edit_result(
    doc: TomlDoc,
    r: Result<TomlDoc, SettingsError>,
    path: Seq<Seq<char>>,
    leaf: spec_fn(Seq<(String, TomlDoc)>, Seq<(String, TomlDoc)>) -> bool,
) -> bool {
    match doc {
        TomlDoc::Table(root) => match r {
            Ok(TomlDoc::Table(t)) => edited(t@, root@, path, leaf),
            _ => false,
        },
        _ => r == Err::<TomlDoc, SettingsError>(SettingsError::RootNotTable),
    }
}

/// The table keeps every key but `key`, and `key` holds a value that
/// `holds` accepts.
pub open spec fn value_leaf(key: Seq<char>, holds: spec_fn(Option<TomlDoc>) -> bool) -> spec_fn(
    Seq<(String, TomlDoc)>,
    Seq<(String, TomlDoc)>,
) -> bool {
    |n: Seq<(String, TomlDoc)>, o: Seq<(String, TomlDoc)>| agrees_except(n, o, key) && holds(entry(n, key))
}

/// The value is the string `s`.
pub open spec fn is_string(s: Seq<char>) -> spec_fn(Option<TomlDoc>) -> bool {
    |v: Option<TomlDoc>| as_str(v) == Some(s)
}

/// The value is the float with bits `b`.
pub open spec fn is_float(b: u64) -> spec_fn(Option<TomlDoc>) -> bool {
    |v: Option<TomlDoc>| v == Some(TomlDoc::Float(b))
}

/// The value is the integer `i`.
pub open spec fn is_int(i: i64) -> spec_fn(Option<TomlDoc>) -> bool {
    |v: Option<TomlDoc>| v == Some(TomlDoc::Int(i))
}

/// `engine` and `voice` are set and every other key is kept.
pub open spec fn defaults_leaf(engine: Seq<char>, voice: Seq<char>) -> spec_fn(
    Seq<(String, TomlDoc)>,
    Seq<(String, TomlDoc)>,
) -> bool {
    |n: Seq<(String, TomlDoc)>, o: Seq<(String, TomlDoc)>|
        {
            &&& forall|k: Seq<char>|
                k != "engine"@ && k != "voice"@ ==> #[trigger] entry(n, k) == entry(o, k)
            &&& as_str(entry(n, "engine"@)) == Some(engine)
            &&& as_str(entry(n, "voice"@)) == Some(voice)
        }
}

/// Whether one of `items` is the string `voice`.
pub open spec fn holds_voice(items: Seq<TomlDoc>, voice: Seq<char>) -> bool {
    exists|i: int| 0 <= i < items.len() && as_str(Some(#[trigger] items[i])) == Some(voice)
}

/// `items` with the string `voice` appended unless one of them already is
/// that string.
pub open spec fn added_voice(old: Seq<TomlDoc>, new: Seq<TomlDoc>, voice: Seq<char>) -> bool {
    if holds_voice(old, voice) {
        new == old
    } else {
        &&& new.len() == old.len() + 1
        &&& new.take(old.len() as int) == old
        &&& as_str(Some(new.last())) == Some(voice)
    }
}

/// `old` without the items that are the string `voice`.
pub open spec fn without_voice(old: Seq<TomlDoc>, voice: Seq<char>) -> Seq<TomlDoc>
    decreases old.len(),
{
    if old.len() == 0 {
        Seq::empty()
    } else if as_str(Some(old.last())) == Some(voice) {
        without_voice(old.drop_last(), voice)
    } else {
        without_voice(old.drop_last(), voice).push(old.last())
    }
}

/// The favorites array of `key` becomes `voice` added to it.
pub open spec fn favorite_added(key: Seq<char>, voice: Seq<char>) -> spec_fn(
    Seq<(String, TomlDoc)>,
    Seq<(String, TomlDoc)>,
) -> bool {
    |n: Seq<(String, TomlDoc)>, o: Seq<(String, TomlDoc)>|
        {
            &&& agrees_except(n, o, key)
            &&& as_array(entry(n, key)) matches Some(items) && added_voice(sub_items(o, key), items, voice)
        }
}

/// The favorites array of `key` loses every `voice`.
pub open spec fn favorite_removed(key: Seq<char>, voice: Seq<char>) -> spec_fn(
    Seq<(String, TomlDoc)>,
    Seq<(String, TomlDoc)>,
) -> bool {
    |n: Seq<(String, TomlDoc)>, o: Seq<(String, TomlDoc)>|
        {
            &&& agrees_except(n, o, key)
            &&& as_array(entry(n, key)) == Some(without_voice(sub_items(o, key), voice))
        }
}

/// The root entries of a document that is a table.
fn root_entries(doc: TomlDoc) -> (r: Result<Vec<(String, TomlDoc)>, SettingsError>)
    ensures
        match doc {
            TomlDoc::Table(t) => r == Ok::<Vec<(String, TomlDoc)>, SettingsError>(t),
            _ => r == Err::<Vec<(String, TomlDoc)>, SettingsError>(SettingsError::RootNotTable),
        },
{
    match doc {
        TomlDoc::Table(t) => Ok(t),
        _ => Err(SettingsError::RootNotTable),
    }
}

/// Sets `value` under `[a.b].key`, creating the tables when missing.
fn put_at(root: Vec<(String, TomlDoc)>, a: &str, b: &str, key: &str, value: TomlDoc) -> (r: Vec<(String, TomlDoc)>)
    ensures
        exists|second: Seq<(String, TomlDoc)>|
            replaced_at(r@, root@, a@, b@, second) && agrees_except(
                second,
                sub_entries(sub_entries(root@, a@), b@),
                key@,
            ) && #[trigger] entry(second, key@) == Some(value),
{
    let mut root = root;
    let ghost root0 = root@;
    let (first, mut second) = open_at(&mut root, a, b);
    let ghost second0 = second@;
    let key_s = key.to_string();
    let ghost key_g = key_s;
    set_entry(&mut second, key_s, value);
    proof {
        crate::toml_doc::lemma_with_entry(second0, key_g, value, key@);
        assert forall|k: Seq<char>| k != key@ implies #[trigger] entry(second@, k) == entry(second0, k) by {
            crate::toml_doc::lemma_with_entry(second0, key_g, value, k);
        }
    }
    let ghost second1 = second@;
    let r = close_at(root, first, second, a, b, Ghost(root0));
    assert(entry(second1, key@) == Some(value));
    r
}

/// Whether `quality` is `low` or `high`.
pub open spec fn valid_quality(quality: Seq<char>) -> bool {
    quality == "low"@ || quality == "high"@
}

/// Whether `speed` lies in `[0.5, 2.0]`.
pub open spec fn valid_speed(speed: u64) -> bool {
    float_le(FLOAT_HALF, speed) && float_le(speed, FLOAT_TWO)
}

/// Stores a per-engine speed override under `[tts.speeds]`.
pub fn set_tts_speed(doc: TomlDoc, engine: &str, speed: u64) -> (r: Result<TomlDoc, SettingsError>)
    ensures
        !valid_speed(speed) ==> r == Err::<TomlDoc, SettingsError>(SettingsError::InvalidSpeed),
        valid_speed(speed) ==> edit_result(doc, r, seq!["tts"@, "speeds"@], value_leaf(engine@, is_float(speed))),
{
    if !(float_le_bits(FLOAT_HALF, speed) && float_le_bits(speed, FLOAT_TWO)) {
        return Err(SettingsError::InvalidSpeed);
    }
    let root = root_entries(doc)?;
    let ghost root0 = root@;
    let r = put_at(root, "tts", "speeds", engine, TomlDoc::Float(speed));
    proof {
        let second = choose|second: Seq<(String, TomlDoc)>|
            replaced_at(r@, root0, "tts"@, "speeds"@, second) && agrees_except(
                second,
                sub_entries(sub_entries(root0, "tts"@), "speeds"@),
                engine@,
            ) && #[trigger] entry(second, engine@) == Some(TomlDoc::Float(speed));
        lemma_replaced_at_is_edit(r@, root0, "tts"@, "speeds"@, second, value_leaf(engine@, is_float(speed)));
    }
    Ok(TomlDoc::Table(r))
}

fn is_valid_quality(quality: &str) -> (r: bool)
    ensures
        r == valid_quality(quality@),
{
    let q = chars_of(quality);
    same_chars(&q, &chars_of("low")) || same_chars(&q, &chars_of("high"))
}

/// Stores a per-engine quality override under `[tts.qualities]`.
pub fn set_tts_quality(doc: TomlDoc, engine: &str, quality: &str) -> (r: Result<TomlDoc, SettingsError>)
    ensures
        !valid_quality(quality@) ==> r == Err::<TomlDoc, SettingsError>(SettingsError::InvalidQuality),
        valid_quality(quality@) ==> edit_result(
            doc,
            r,
            seq!["tts"@, "qualities"@],
            value_leaf(engine@, is_string(quality@)),
        ),
{
    if !is_valid_quality(quality) {
        return Err(SettingsError::InvalidQuality);
    }
    let root = root_entries(doc)?;
    let ghost root0 = root@;
    let value = TomlDoc::Str(quality.to_string());
    let ghost v = value;
    let r = put_at(root, "tts", "qualities", engine, value);
    proof {
        let second = choose|second: Seq<(String, TomlDoc)>|
            replaced_at(r@, root0, "tts"@, "qualities"@, second) && agrees_except(
                second,
                sub_entries(sub_entries(root0, "tts"@), "qualities"@),
                engine@,
            ) && #[trigger] entry(second, engine@) == Some(v);
        lemma_replaced_at_is_edit(
            r@,
            root0,
            "tts"@,
            "qualities"@,
            second,
            value_leaf(engine@, is_string(quality@)),
        );
    }
    Ok(TomlDoc::Table(r))
}

/// Stores `[tts.defaults].idle_timeout_sec`.
pub fn set_tts_idle_timeout(doc: TomlDoc, idle_timeout_sec: u64) -> (r: Result<TomlDoc, SettingsError>)
    ensures
        idle_timeout_sec < 1 ==> r == Err::<TomlDoc, SettingsError>(SettingsError::IdleTimeoutTooShort),
        idle_timeout_sec >= 1 ==> edit_result(
            doc,
            r,
            seq!["tts"@, "defaults"@],
            value_leaf("idle_timeout_sec"@, is_int(idle_timeout_sec as i64)),
        ),
{
    if idle_timeout_sec < 1 {
        return Err(SettingsError::IdleTimeoutTooShort);
    }
    let root = root_entries(doc)?;
    let ghost root0 = root@;
    let value = TomlDoc::Int(idle_timeout_sec as i64);
    let r = put_at(root, "tts", "defaults", "idle_timeout_sec", value);
    proof {
        let second = choose|second: Seq<(String, TomlDoc)>|
            replaced_at(r@, root0, "tts"@, "defaults"@, second) && agrees_except(
                second,
                sub_entries(sub_entries(root0, "tts"@), "defaults"@),
                "idle_timeout_sec"@,
            ) && #[trigger] entry(second, "idle_timeout_sec"@) == Some(TomlDoc::Int(idle_timeout_sec as i64));
        lemma_replaced_at_is_edit(
            r@,
            root0,
            "tts"@,
            "defaults"@,
            second,
            value_leaf("idle_timeout_sec"@, is_int(idle_timeout_sec as i64)),
        );
    }
    Ok(TomlDoc::Table(r))
}

/// Stores `[tts.defaults]` engine and voice, keeping the rest.
pub fn set_tts_defaults(doc: TomlDoc, engine: &str, voice: &str) -> (r: Result<TomlDoc, SettingsError>)
    ensures
        engine@.len() == 0 || voice@.len() == 0 ==> r == Err::<TomlDoc, SettingsError>(
            SettingsError::EmptyEngineOrVoice,
        ),
        engine@.len() > 0 && voice@.len() > 0 ==> edit_result(
            doc,
            r,
            seq!["tts"@, "defaults"@],
            defaults_leaf(engine@, voice@),
        ),
{
    if engine.is_empty() || voice.is_empty() {
        return Err(SettingsError::EmptyEngineOrVoice);
    }
    let mut root = root_entries(doc)?;
    let ghost root0 = root@;
    let (first, mut second) = open_at(&mut root, "tts", "defaults");
    let ghost second0 = second@;
    let engine_key = "engine".to_string();
    let ghost engine_key_g = engine_key;
    let engine_value = TomlDoc::Str(engine.to_string());
    let ghost engine_value_g = engine_value;
    set_entry(&mut second, engine_key, engine_value);
    let ghost second1 = second@;
    let voice_key = "voice".to_string();
    let ghost voice_key_g = voice_key;
    let voice_value = TomlDoc::Str(voice.to_string());
    let ghost voice_value_g = voice_value;
    set_entry(&mut second, voice_key, voice_value);
    proof {
        reveal_strlit("engine");
        reveal_strlit("voice");
        assert forall|k: Seq<char>| k != "engine"@ && k != "voice"@ implies #[trigger] entry(second@, k)
            == entry(second0, k) by {
            crate::toml_doc::lemma_with_entry(second0, engine_key_g, engine_value_g, k);
            crate::toml_doc::lemma_with_entry(second1, voice_key_g, voice_value_g, k);
        }
        crate::toml_doc::lemma_with_entry(second0, engine_key_g, engine_value_g, "voice"@);
        crate::toml_doc::lemma_with_entry(second1, voice_key_g, voice_value_g, "engine"@);
        crate::toml_doc::lemma_with_entry(second1, voice_key_g, voice_value_g, "voice"@);
        crate::toml_doc::lemma_with_entry(second0, engine_key_g, engine_value_g, "engine"@);
    }
    let ghost second2 = second@;
    let r = close_at(root, first, second, "tts", "defaults", Ghost(root0));
    proof {
        assert(second0 == sub_entries(sub_entries(root0, "tts"@), "defaults"@));
        assert(engine_key_g@ == "engine"@);
        assert(voice_key_g@ == "voice"@);
        reveal_strlit("engine");
        reveal_strlit("voice");
        assert("engine"@.len() == 6);
        assert("engine"@ != "voice"@);
        assert(entry(second1, "engine"@) == Some(engine_value_g));
        assert(entry(second2, "engine"@) == Some(engine_value_g));
        assert(as_str(entry(second2, "engine"@)) == Some(engine@));
        assert(as_str(entry(second2, "voice"@)) == Some(voice@));
        assert(defaults_leaf(engine@, voice@)(second2, second0));
        lemma_replaced_at_is_edit(r@, root0, "tts"@, "defaults"@, second2, defaults_leaf(engine@, voice@));
    }
    Ok(TomlDoc::Table(r))
}

/// Whether one of `items` is the string `voice`.
fn contains_voice(items: &Vec<TomlDoc>, voice: &str) -> (r: bool)
    ensures
        r == holds_voice(items@, voice@),
{
    let v = chars_of(voice);
    let mut k: usize = 0;
    while k < items.len()
        invariant
            0 <= k <= items@.len(),
            v@ == voice@,
            forall|i: int| 0 <= i < k ==> as_str(Some(#[trigger] items@[i])) != Some(voice@),
        decreases items@.len() - k,
    {
        match &items[k] {
            TomlDoc::Str(s) => {
                if same_chars(&chars_of(s.as_str()), &v) {
                    assert(as_str(Some(items@[k as int])) == Some(voice@));
                    return true;
                }
            },
            _ => {},
        }
        k = k + 1;
    }
    false
}

/// `items` without the strings equal to `voice`.
fn remove_voice(items: Vec<TomlDoc>, voice: &str) -> (r: Vec<TomlDoc>)
    ensures
        r@ == without_voice(items@, voice@),
{
    let v = chars_of(voice);
    let mut items = items;
    let ghost all = items@;
    let mut kept: Vec<TomlDoc> = Vec::new();
    let mut k: usize = 0;
    let n = items.len();
    while k < n
        invariant
            0 <= k <= n,
            n == all.len(),
            v@ == voice@,
            items@.len() == n - k,
            items@ == all.skip(k as int),
            kept@ == without_voice(all.take(k as int), voice@),
        decreases n - k,
    {
        let item = items.remove(0);
        assert(item == all[k as int]);
        assert(all.take(k + 1).drop_last() =~= all.take(k as int));
        assert(items@ =~= all.skip(k + 1));
        let drop = match &item {
            TomlDoc::Str(s) => same_chars(&chars_of(s.as_str()), &v),
            _ => false,
        };
        if !drop {
            kept.push(item);
        }
        k = k + 1;
    }
    assert(all.take(n as int) =~= all);
    kept
}

/// Adds `voice` to `engine`'s favorites unless it is there already.
pub fn add_favorite(doc: TomlDoc, engine: &str, voice: &str) -> (r: Result<TomlDoc, SettingsError>)
    ensures
        engine@.len() == 0 || voice@.len() == 0 ==> r == Err::<TomlDoc, SettingsError>(
            SettingsError::EmptyEngineOrVoice,
        ),
        engine@.len() > 0 && voice@.len() > 0 ==> edit_result(
            doc,
            r,
            seq!["tts"@, "favorites"@],
            favorite_added(spec_favorites_key(engine@), voice@),
        ),
{
    if engine.is_empty() || voice.is_empty() {
        return Err(SettingsError::EmptyEngineOrVoice);
    }
    let mut root = root_entries(doc)?;
    let ghost root0 = root@;
    let (first, mut second) = open_at(&mut root, "tts", "favorites");
    let ghost second0 = second@;
    let key = favorites_key(engine);
    let ghost key_v = key@;
    let mut items = take_sub_items(&mut second, key.as_str());
    let ghost taken = second@;
    let ghost items0 = items@;
    if !contains_voice(&items, voice) {
        items.push(TomlDoc::Str(voice.to_string()));
        assert(items@.take(items0.len() as int) =~= items0);
    }
    let ghost items_doc = TomlDoc::Array(items);
    let ghost key_g = key;
    set_entry(&mut second, key, TomlDoc::Array(items));
    proof {
        lemma_put_back(second0, taken, key_g, items_doc);
    }
    let ghost second2 = second@;
    let r = close_at(root, first, second, "tts", "favorites", Ghost(root0));
    proof {
        lemma_replaced_at_is_edit(
            r@,
            root0,
            "tts"@,
            "favorites"@,
            second2,
            favorite_added(spec_favorites_key(engine@), voice@),
        );
    }
    Ok(TomlDoc::Table(r))
}

/// Removes `voice` from `engine`'s favorites.
pub fn remove_favorite(doc: TomlDoc, engine: &str, voice: &str) -> (r: Result<TomlDoc, SettingsError>)
    ensures
        engine@.len() == 0 || voice@.len() == 0 ==> r == Err::<TomlDoc, SettingsError>(
            SettingsError::EmptyEngineOrVoice,
        ),
        engine@.len() > 0 && voice@.len() > 0 ==> edit_result(
            doc,
            r,
            seq!["tts"@, "favorites"@],
            favorite_removed(spec_favorites_key(engine@), voice@),
        ),
{
    if engine.is_empty() || voice.is_empty() {
        return Err(SettingsError::EmptyEngineOrVoice);
    }
    let mut root = root_entries(doc)?;
    let ghost root0 = root@;
    let (first, mut second) = open_at(&mut root, "tts", "favorites");
    let ghost second0 = second@;
    let key = favorites_key(engine);
    let items = take_sub_items(&mut second, key.as_str());
    let ghost taken = second@;
    let items = remove_voice(items, voice);
    let ghost items_doc = TomlDoc::Array(items);
    let ghost key_g = key;
    set_entry(&mut second, key, TomlDoc::Array(items));
    proof {
        lemma_put_back(second0, taken, key_g, items_doc);
    }
    let ghost second2 = second@;
    let r = close_at(root, first, second, "tts", "favorites", Ghost(root0));
    proof {
        lemma_replaced_at_is_edit(
            r@,
            root0,
            "tts"@,
            "favorites"@,
            second2,
            favorite_removed(spec_favorites_key(engine@), voice@),
        );
    }
    Ok(TomlDoc::Table(r))
}

// ---------------------------------------------------------------------------
// Laws
// ---------------------------------------------------------------------------

/// The names of the `[tts]` sub-tables differ from each other.
pub proof fn lemma_table_names_differ()
    ensures
        "defaults"@ != "speeds"@,
        "defaults"@ != "qualities"@,
        "defaults"@ != "favorites"@,
        "speeds"@ != "qualities"@,
        "speeds"@ != "favorites"@,
        "qualities"@ != "favorites"@,
{
    reveal_strlit("defaults");
    reveal_strlit("speeds");
    reveal_strlit("qualities");
    reveal_strlit("favorites");
    assert("defaults"@.len() == 8);
    assert("speeds"@.len() == 6);
    assert("qualities"@.len() == 9);
    assert("favorites"@.len() == 9);
    assert("qualities"@[0] != "favorites"@[0]);
}

/// The value at `[a][b][x]` of a table document.
pub proof fn lemma_path3(root: Seq<(String, TomlDoc)>, doc: TomlDoc, a: Seq<char>, b: Seq<char>, x: Seq<char>)
    requires
        doc matches TomlDoc::Table(t) && t@ == root,
    ensures
        get_path(doc, seq![a, b, x]) == entry(sub_entries(sub_entries(root, a), b), x),
{
    reveal_with_fuel(get_path, 4);
    let path = seq![a, b, x];
    assert(path.drop_first() =~= seq![b, x]);
    assert(path.drop_first().drop_first() =~= seq![x]);
    assert(path.drop_first().drop_first().drop_first() =~= Seq::<Seq<char>>::empty());
}

/// What an edit along `[a, b]` does to the tables two levels down.
pub proof fn lemma_edited_two_levels(
    new: Seq<(String, TomlDoc)>,
    old: Seq<(String, TomlDoc)>,
    a: Seq<char>,
    b: Seq<char>,
    leaf: spec_fn(Seq<(String, TomlDoc)>, Seq<(String, TomlDoc)>) -> bool,
)
    requires
        edited(new, old, seq![a, b], leaf),
    ensures
        leaf(sub_entries(sub_entries(new, a), b), sub_entries(sub_entries(old, a), b)),
        forall|c: Seq<char>, x: Seq<char>|
            c != b ==> #[trigger] entry(sub_entries(sub_entries(new, a), c), x) == entry(
                sub_entries(sub_entries(old, a), c),
                x,
            ),
        forall|c: Seq<char>, y: Seq<char>, x: Seq<char>|
            c != a ==> #[trigger] entry(sub_entries(sub_entries(new, c), y), x) == entry(
                sub_entries(sub_entries(old, c), y),
                x,
            ),
{
    reveal_with_fuel(edited, 3);
    let path = seq![a, b];
    assert(path.drop_first() =~= seq![b]);
    assert(path.drop_first().drop_first() =~= Seq::<Seq<char>>::empty());
    assert forall|c: Seq<char>, y: Seq<char>, x: Seq<char>|
        c != a implies #[trigger] entry(sub_entries(sub_entries(new, c), y), x) == entry(
            sub_entries(sub_entries(old, c), y),
            x,
        ) by {
        assert(entry(new, c) == entry(old, c));
    }
    let first = sub_entries(new, a);
    assert forall|c: Seq<char>, x: Seq<char>|
        c != b implies #[trigger] entry(sub_entries(sub_entries(new, a), c), x) == entry(
            sub_entries(sub_entries(old, a), c),
            x,
        ) by {
        assert(entry(first, c) == entry(sub_entries(old, a), c));
    }
}

/// After a speed is stored for `engine`, reading it back gives that speed;
/// the speeds of other engines, the qualities, the default engine and
/// voice, and the idle timeout read as before.
pub proof fn lemma_speed_read_after_write(doc: TomlDoc, engine: Seq<char>, speed: u64, new: TomlDoc)
    requires
        edit_result(doc, Ok(new), seq!["tts"@, "speeds"@], value_leaf(engine, is_float(speed))),
    ensures
        spec_tts_speed_from(new, engine) == speed,
        forall|other: Seq<char>| other != engine ==> #[trigger] spec_tts_speed_from(new, other) == spec_tts_speed_from(doc, other),
        forall|e: Seq<char>| #[trigger] spec_tts_quality_from(new, e) == spec_tts_quality_from(doc, e),
        spec_tts_defaults_from(new) == spec_tts_defaults_from(doc),
        spec_tts_idle_timeout_from(new) == spec_tts_idle_timeout_from(doc),
{
    let (root, nroot) = match (doc, new) {
        (TomlDoc::Table(r), TomlDoc::Table(n)) => (r@, n@),
        _ => (Seq::empty(), Seq::empty()),
    };
    lemma_edited_two_levels(nroot, root, "tts"@, "speeds"@, value_leaf(engine, is_float(speed)));
    lemma_table_names_differ();
    lemma_path3(nroot, new, "tts"@, "speeds"@, engine);
    assert forall|other: Seq<char>| other != engine implies #[trigger] spec_tts_speed_from(new, other)
        == spec_tts_speed_from(doc, other) by {
        lemma_path3(nroot, new, "tts"@, "speeds"@, other);
        lemma_path3(root, doc, "tts"@, "speeds"@, other);
        lemma_path3(nroot, new, "tts"@, "defaults"@, "speed"@);
        lemma_path3(root, doc, "tts"@, "defaults"@, "speed"@);
    }
    assert forall|e: Seq<char>| #[trigger] spec_tts_quality_from(new, e) == spec_tts_quality_from(doc, e) by {
        lemma_path3(nroot, new, "tts"@, "qualities"@, e);
        lemma_path3(root, doc, "tts"@, "qualities"@, e);
        lemma_path3(nroot, new, "tts"@, "defaults"@, "quality"@);
        lemma_path3(root, doc, "tts"@, "defaults"@, "quality"@);
    }
    lemma_path3(nroot, new, "tts"@, "defaults"@, "engine"@);
    lemma_path3(root, doc, "tts"@, "defaults"@, "engine"@);
    lemma_path3(nroot, new, "tts"@, "defaults"@, "voice"@);
    lemma_path3(root, doc, "tts"@, "defaults"@, "voice"@);
    lemma_path3(nroot, new, "tts"@, "defaults"@, "idle_timeout_sec"@);
    lemma_path3(root, doc, "tts"@, "defaults"@, "idle_timeout_sec"@);
}

/// After a quality is stored for `engine`, reading it back gives that
/// quality; other engines' qualities, the speeds, the default engine and
/// voice, and the idle timeout read as before.
pub proof fn lemma_quality_read_after_write(doc: TomlDoc, engine: Seq<char>, quality: Seq<char>, new: TomlDoc)
    requires
        edit_result(doc, Ok(new), seq!["tts"@, "qualities"@], value_leaf(engine, is_string(quality))),
    ensures
        spec_tts_quality_from(new, engine) == quality,
        forall|other: Seq<char>|
            other != engine ==> #[trigger] spec_tts_quality_from(new, other) == spec_tts_quality_from(doc, other),
        forall|e: Seq<char>| #[trigger] spec_tts_speed_from(new, e) == spec_tts_speed_from(doc, e),
        spec_tts_defaults_from(new) == spec_tts_defaults_from(doc),
        spec_tts_idle_timeout_from(new) == spec_tts_idle_timeout_from(doc),
{
    let (root, nroot) = match (doc, new) {
        (TomlDoc::Table(r), TomlDoc::Table(n)) => (r@, n@),
        _ => (Seq::empty(), Seq::empty()),
    };
    lemma_edited_two_levels(nroot, root, "tts"@, "qualities"@, value_leaf(engine, is_string(quality)));
    lemma_table_names_differ();
    lemma_path3(nroot, new, "tts"@, "qualities"@, engine);
    assert forall|other: Seq<char>| other != engine implies #[trigger] spec_tts_quality_from(new, other)
        == spec_tts_quality_from(doc, other) by {
        lemma_path3(nroot, new, "tts"@, "qualities"@, other);
        lemma_path3(root, doc, "tts"@, "qualities"@, other);
        lemma_path3(nroot, new, "tts"@, "defaults"@, "quality"@);
        lemma_path3(root, doc, "tts"@, "defaults"@, "quality"@);
    }
    assert forall|e: Seq<char>| #[trigger] spec_tts_speed_from(new, e) == spec_tts_speed_from(doc, e) by {
        lemma_path3(nroot, new, "tts"@, "speeds"@, e);
        lemma_path3(root, doc, "tts"@, "speeds"@, e);
        lemma_path3(nroot, new, "tts"@, "defaults"@, "speed"@);
        lemma_path3(root, doc, "tts"@, "defaults"@, "speed"@);
    }
    lemma_path3(nroot, new, "tts"@, "defaults"@, "engine"@);
    lemma_path3(root, doc, "tts"@, "defaults"@, "engine"@);
    lemma_path3(nroot, new, "tts"@, "defaults"@, "voice"@);
    lemma_path3(root, doc, "tts"@, "defaults"@, "voice"@);
    lemma_path3(nroot, new, "tts"@, "defaults"@, "idle_timeout_sec"@);
    lemma_path3(root, doc, "tts"@, "defaults"@, "idle_timeout_sec"@);
}

/// The keys of `[tts.defaults]` differ from each other.
pub proof fn lemma_default_keys_differ()
    ensures
        "idle_timeout_sec"@ != "engine"@,
        "idle_timeout_sec"@ != "voice"@,
        "idle_timeout_sec"@ != "speed"@,
        "idle_timeout_sec"@ != "quality"@,
        "engine"@ != "voice"@,
        "engine"@ != "speed"@,
        "engine"@ != "quality"@,
        "voice"@ != "speed"@,
        "voice"@ != "quality"@,
        "speed"@ != "quality"@,
{
    reveal_strlit("idle_timeout_sec");
    reveal_strlit("engine");
    reveal_strlit("voice");
    reveal_strlit("speed");
    reveal_strlit("quality");
    assert("idle_timeout_sec"@.len() == 16);
    assert("engine"@.len() == 6);
    assert("voice"@.len() == 5);
    assert("speed"@.len() == 5);
    assert("quality"@.len() == 7);
    assert("voice"@[0] != "speed"@[0]);
}

/// After the idle timeout is stored, reading it back gives it; the default
/// engine and voice, speeds and qualities read as before. (A timeout above
/// `i64::MAX` is stored as a negative integer, which reads back as 1.)
pub proof fn lemma_idle_timeout_read_after_write(doc: TomlDoc, secs: u64, new: TomlDoc)
    requires
        1 <= secs <= i64::MAX,
        edit_result(doc, Ok(new), seq!["tts"@, "defaults"@], value_leaf("idle_timeout_sec"@, is_int(secs as i64))),
    ensures
        spec_tts_idle_timeout_from(new) == secs,
        spec_tts_defaults_from(new) == spec_tts_defaults_from(doc),
        forall|e: Seq<char>| #[trigger] spec_tts_speed_from(new, e) == spec_tts_speed_from(doc, e),
        forall|e: Seq<char>| #[trigger] spec_tts_quality_from(new, e) == spec_tts_quality_from(doc, e),
{
    let (root, nroot) = match (doc, new) {
        (TomlDoc::Table(r), TomlDoc::Table(n)) => (r@, n@),
        _ => (Seq::empty(), Seq::empty()),
    };
    lemma_edited_two_levels(nroot, root, "tts"@, "defaults"@, value_leaf("idle_timeout_sec"@, is_int(secs as i64)));
    lemma_table_names_differ();
    lemma_default_keys_differ();
    lemma_path3(nroot, new, "tts"@, "defaults"@, "idle_timeout_sec"@);
    lemma_path3(nroot, new, "tts"@, "defaults"@, "engine"@);
    lemma_path3(root, doc, "tts"@, "defaults"@, "engine"@);
    lemma_path3(nroot, new, "tts"@, "defaults"@, "voice"@);
    lemma_path3(root, doc, "tts"@, "defaults"@, "voice"@);
    assert forall|e: Seq<char>| #[trigger] spec_tts_speed_from(new, e) == spec_tts_speed_from(doc, e) by {
        lemma_path3(nroot, new, "tts"@, "speeds"@, e);
        lemma_path3(root, doc, "tts"@, "speeds"@, e);
        lemma_path3(nroot, new, "tts"@, "defaults"@, "speed"@);
        lemma_path3(root, doc, "tts"@, "defaults"@, "speed"@);
    }
    assert forall|e: Seq<char>| #[trigger] spec_tts_quality_from(new, e) == spec_tts_quality_from(doc, e) by {
        lemma_path3(nroot, new, "tts"@, "qualities"@, e);
        lemma_path3(root, doc, "tts"@, "qualities"@, e);
        lemma_path3(nroot, new, "tts"@, "defaults"@, "quality"@);
        lemma_path3(root, doc, "tts"@, "defaults"@, "quality"@);
    }
}

/// After the default engine and voice are stored, reading them back gives
/// them; speeds, qualities and the idle timeout read as before.
pub proof fn lemma_defaults_read_after_write(doc: TomlDoc, engine: Seq<char>, voice: Seq<char>, new: TomlDoc)
    requires
        edit_result(doc, Ok(new), seq!["tts"@, "defaults"@], defaults_leaf(engine, voice)),
    ensures
        spec_tts_defaults_from(new) == (engine, voice),
        spec_tts_idle_timeout_from(new) == spec_tts_idle_timeout_from(doc),
        forall|e: Seq<char>| #[trigger] spec_tts_speed_from(new, e) == spec_tts_speed_from(doc, e),
        forall|e: Seq<char>| #[trigger] spec_tts_quality_from(new, e) == spec_tts_quality_from(doc, e),
{
    let (root, nroot) = match (doc, new) {
        (TomlDoc::Table(r), TomlDoc::Table(n)) => (r@, n@),
        _ => (Seq::empty(), Seq::empty()),
    };
    lemma_edited_two_levels(nroot, root, "tts"@, "defaults"@, defaults_leaf(engine, voice));
    lemma_table_names_differ();
    lemma_default_keys_differ();
    lemma_path3(nroot, new, "tts"@, "defaults"@, "engine"@);
    lemma_path3(nroot, new, "tts"@, "defaults"@, "voice"@);
    lemma_path3(nroot, new, "tts"@, "defaults"@, "idle_timeout_sec"@);
    lemma_path3(root, doc, "tts"@, "defaults"@, "idle_timeout_sec"@);
    assert forall|e: Seq<char>| #[trigger] spec_tts_speed_from(new, e) == spec_tts_speed_from(doc, e) by {
        lemma_path3(nroot, new, "tts"@, "speeds"@, e);
        lemma_path3(root, doc, "tts"@, "speeds"@, e);
        lemma_path3(nroot, new, "tts"@, "defaults"@, "speed"@);
        lemma_path3(root, doc, "tts"@, "defaults"@, "speed"@);
    }
    assert forall|e: Seq<char>| #[trigger] spec_tts_quality_from(new, e) == spec_tts_quality_from(doc, e) by {
        lemma_path3(nroot, new, "tts"@, "qualities"@, e);
        lemma_path3(root, doc, "tts"@, "qualities"@, e);
        lemma_path3(nroot, new, "tts"@, "defaults"@, "quality"@);
        lemma_path3(root, doc, "tts"@, "defaults"@, "quality"@);
    }
}

/// The strings of `items` include `voice` exactly when one item is that
/// string.
pub proof fn lemma_holds_voice(items: Seq<TomlDoc>, voice: Seq<char>)
    ensures
        holds_voice(items, voice) <==> str_items(items).contains(voice),
    decreases items.len(),
{
    if items.len() > 0 {
        let init = items.drop_last();
        lemma_holds_voice(init, voice);
        if holds_voice(items, voice) {
            let i = choose|i: int| 0 <= i < items.len() && as_str(Some(#[trigger] items[i])) == Some(voice);
            if i < init.len() {
                assert(init[i] == items[i]);
                assert(holds_voice(init, voice));
                let j = choose|j: int| 0 <= j < str_items(init).len() && str_items(init)[j] == voice;
                match items.last() {
                    TomlDoc::Str(s) => {
                        assert(str_items(items)[j] == voice);
                    },
                    _ => {},
                }
            } else {
                match items.last() {
                    TomlDoc::Str(s) => {
                        assert(str_items(items).last() == voice);
                    },
                    _ => {},
                }
            }
        }
        if str_items(items).contains(voice) {
            let j = choose|j: int| 0 <= j < str_items(items).len() && str_items(items)[j] == voice;
            match items.last() {
                TomlDoc::Str(s) => {
                    if j < str_items(init).len() {
                        assert(str_items(init)[j] == voice);
                        let i = choose|i: int| 0 <= i < init.len() && as_str(Some(#[trigger] init[i])) == Some(voice);
                        assert(items[i] == init[i]);
                    } else {
                        assert(as_str(Some(items[items.len() - 1])) == Some(voice));
                    }
                },
                _ => {
                    assert(str_items(init)[j] == voice);
                    let i = choose|i: int| 0 <= i < init.len() && as_str(Some(#[trigger] init[i])) == Some(voice);
                    assert(items[i] == init[i]);
                },
            }
        }
    }
}

/// `s` with every occurrence of `v` left out.
pub open spec fn drop_all(s: Seq<Seq<char>>, v: Seq<char>) -> Seq<Seq<char>>
    decreases s.len(),
{
    if s.len() == 0 {
        Seq::empty()
    } else if s.last() == v {
        drop_all(s.drop_last(), v)
    } else {
        drop_all(s.drop_last(), v).push(s.last())
    }
}

proof fn lemma_str_items_without(items: Seq<TomlDoc>, voice: Seq<char>)
    ensures
        str_items(without_voice(items, voice)) == drop_all(str_items(items), voice),
    decreases items.len(),
{
    if items.len() > 0 {
        let init = items.drop_last();
        lemma_str_items_without(init, voice);
        let w = without_voice(init, voice);
        match items.last() {
            TomlDoc::Str(s) => {
                assert(str_items(items) == str_items(init).push(s@));
                assert(str_items(init).push(s@).drop_last() =~= str_items(init));
                if s@ != voice {
                    assert(without_voice(items, voice) == w.push(items.last()));
                    assert(w.push(items.last()).drop_last() =~= w);
                    assert(str_items(w.push(items.last())) == str_items(w).push(s@));
                }
            },
            _ => {
                assert(without_voice(items, voice) == w.push(items.last()));
                assert(w.push(items.last()).drop_last() =~= w);
                assert(str_items(w.push(items.last())) == str_items(w));
            },
        }
    }
}

/// The favorites of `engine` as stored in the table `[tts.favorites]`.
proof fn lemma_favorites_read(doc: TomlDoc, root: Seq<(String, TomlDoc)>, engine: Seq<char>)
    requires
        doc matches TomlDoc::Table(t) && t@ == root,
    ensures
        spec_tts_favorite_voices_from(doc, engine) == str_items(
            sub_items(sub_entries(sub_entries(root, "tts"@), "favorites"@), spec_favorites_key(engine)),
        ),
{
    lemma_path3(root, doc, "tts"@, "favorites"@, spec_favorites_key(engine));
}

/// Adding a favorite: afterwards the engine's favorites are the earlier
/// ones, with the voice appended when it was not among them; the other
/// engines' favorites and the other settings read as before.
pub proof fn lemma_favorite_add_read(doc: TomlDoc, engine: Seq<char>, voice: Seq<char>, new: TomlDoc)
    requires
        edit_result(doc, Ok(new), seq!["tts"@, "favorites"@], favorite_added(spec_favorites_key(engine), voice)),
    ensures
        spec_tts_favorite_voices_from(new, engine) == (if spec_tts_favorite_voices_from(doc, engine).contains(voice) {
            spec_tts_favorite_voices_from(doc, engine)
        } else {
            spec_tts_favorite_voices_from(doc, engine).push(voice)
        }),
        forall|other: Seq<char>|
            spec_favorites_key(other) != spec_favorites_key(engine) ==> #[trigger] spec_tts_favorite_voices_from(new, other)
                == spec_tts_favorite_voices_from(doc, other),
        spec_tts_defaults_from(new) == spec_tts_defaults_from(doc),
        spec_tts_idle_timeout_from(new) == spec_tts_idle_timeout_from(doc),
{
    let (root, nroot) = match (doc, new) {
        (TomlDoc::Table(r), TomlDoc::Table(n)) => (r@, n@),
        _ => (Seq::empty(), Seq::empty()),
    };
    let key = spec_favorites_key(engine);
    lemma_edited_two_levels(nroot, root, "tts"@, "favorites"@, favorite_added(key, voice));
    lemma_table_names_differ();
    lemma_favorites_read(doc, root, engine);
    lemma_favorites_read(new, nroot, engine);
    let old_items = sub_items(sub_entries(sub_entries(root, "tts"@), "favorites"@), key);
    let new_items = sub_items(sub_entries(sub_entries(nroot, "tts"@), "favorites"@), key);
    lemma_holds_voice(old_items, voice);
    if !holds_voice(old_items, voice) {
        assert(new_items.drop_last() =~= old_items);
    }
    assert forall|other: Seq<char>|
        spec_favorites_key(other) != spec_favorites_key(engine) implies #[trigger] spec_tts_favorite_voices_from(new, other)
            == spec_tts_favorite_voices_from(doc, other) by {
        lemma_favorites_read(doc, root, other);
        lemma_favorites_read(new, nroot, other);
    }
    lemma_path3(nroot, new, "tts"@, "defaults"@, "engine"@);
    lemma_path3(root, doc, "tts"@, "defaults"@, "engine"@);
    lemma_path3(nroot, new, "tts"@, "defaults"@, "voice"@);
    lemma_path3(root, doc, "tts"@, "defaults"@, "voice"@);
    lemma_path3(nroot, new, "tts"@, "defaults"@, "idle_timeout_sec"@);
    lemma_path3(root, doc, "tts"@, "defaults"@, "idle_timeout_sec"@);
}

/// Adding the same favorite twice reads the same as adding it once.
pub proof fn lemma_favorite_add_idempotent(doc: TomlDoc, engine: Seq<char>, voice: Seq<char>, once: TomlDoc, twice: TomlDoc)
    requires
        edit_result(doc, Ok(once), seq!["tts"@, "favorites"@], favorite_added(spec_favorites_key(engine), voice)),
        edit_result(once, Ok(twice), seq!["tts"@, "favorites"@], favorite_added(spec_favorites_key(engine), voice)),
    ensures
        spec_tts_favorite_voices_from(twice, engine) == spec_tts_favorite_voices_from(once, engine),
        spec_tts_favorite_voices_from(once, engine).contains(voice),
{
    lemma_favorite_add_read(doc, engine, voice, once);
    lemma_favorite_add_read(once, engine, voice, twice);
    let old = spec_tts_favorite_voices_from(doc, engine);
    if !old.contains(voice) {
        assert(old.push(voice)[old.len() as int] == voice);
    }
}

/// Removing a favorite: afterwards the engine's favorites are the earlier
/// ones without that voice; the other engines' favorites and the other
/// settings read as before.
pub proof fn lemma_favorite_remove_read(doc: TomlDoc, engine: Seq<char>, voice: Seq<char>, new: TomlDoc)
    requires
        edit_result(doc, Ok(new), seq!["tts"@, "favorites"@], favorite_removed(spec_favorites_key(engine), voice)),
    ensures
        spec_tts_favorite_voices_from(new, engine) == drop_all(spec_tts_favorite_voices_from(doc, engine), voice),
        forall|other: Seq<char>|
            spec_favorites_key(other) != spec_favorites_key(engine) ==> #[trigger] spec_tts_favorite_voices_from(new, other)
                == spec_tts_favorite_voices_from(doc, other),
        spec_tts_defaults_from(new) == spec_tts_defaults_from(doc),
        spec_tts_idle_timeout_from(new) == spec_tts_idle_timeout_from(doc),
{
    let (root, nroot) = match (doc, new) {
        (TomlDoc::Table(r), TomlDoc::Table(n)) => (r@, n@),
        _ => (Seq::empty(), Seq::empty()),
    };
    let key = spec_favorites_key(engine);
    lemma_edited_two_levels(nroot, root, "tts"@, "favorites"@, favorite_removed(key, voice));
    lemma_table_names_differ();
    lemma_favorites_read(doc, root, engine);
    lemma_favorites_read(new, nroot, engine);
    let old_items = sub_items(sub_entries(sub_entries(root, "tts"@), "favorites"@), key);
    lemma_str_items_without(old_items, voice);
    assert forall|other: Seq<char>|
        spec_favorites_key(other) != spec_favorites_key(engine) implies #[trigger] spec_tts_favorite_voices_from(new, other)
            == spec_tts_favorite_voices_from(doc, other) by {
        lemma_favorites_read(doc, root, other);
        lemma_favorites_read(new, nroot, other);
    }
    lemma_path3(nroot, new, "tts"@, "defaults"@, "engine"@);
    lemma_path3(root, doc, "tts"@, "defaults"@, "engine"@);
    lemma_path3(nroot, new, "tts"@, "defaults"@, "voice"@);
    lemma_path3(root, doc, "tts"@, "defaults"@, "voice"@);
    lemma_path3(nroot, new, "tts"@, "defaults"@, "idle_timeout_sec"@);
    lemma_path3(root, doc, "tts"@, "defaults"@, "idle_timeout_sec"@);
}

/// After removal the voice is no longer a favorite.
pub proof fn lemma_drop_all_removes(s: Seq<Seq<char>>, v: Seq<char>)
    ensures
        !drop_all(s, v).contains(v),
    decreases s.len(),
{
    if s.len() > 0 {
        lemma_drop_all_removes(s.drop_last(), v);
        if s.last() != v {
            let d = drop_all(s.drop_last(), v);
            if d.push(s.last()).contains(v) {
                let j = choose|j: int| 0 <= j < d.push(s.last()).len() && d.push(s.last())[j] == v;
                if j < d.len() {
                    assert(d[j] == v);
                }
            }
        }
    }
}

} // verus!
