//! The command-line tool's view of the configuration document: the check
//! that a document is complete and sensible, with the first problem found
//! reported by its path, and the reads of the favorite voices and models.

use vstd::prelude::*;
use crate::text::{chars_of, trim};
use crate::toml_doc::{
    as_array, as_bool, as_int, as_number, as_str, as_table, concat2, concat3, concat4, concat5, decimal,
    decimal_string, entry, find_entry, find_key, get_array, get_bool, get_int, get_number, get_str,
    get_table, agrees_except, close_at, edited, float_le_bits, lemma_put_back, lemma_replaced_at_is_edit,
    lemma_with_entry, open_at, set_entry, sub_entries, take_sub_entries, taken_from, with_entry,
    FLOAT_HALF, FLOAT_TWO, in_speed_range, in_unit_interval, is_blank, is_positive, number_in_speed_range,
    number_in_unit_interval, number_is_positive, Number, TomlDoc,
};
use crate::voices::same_chars;
use crate::config_file::{parse_toml, parse_view, toml_document};
use crate::sentences::views;
use crate::settings::{is_string, lemma_default_keys_differ, str_items, valid_speed, value_leaf};

verus! {

broadcast use vstd::string::group_string_axioms;

/// `Ok` when `e` is `None`, else the error `e` holds.
pub open spec fn reports(r: Result<(), String>, e: Option<Seq<char>>) -> bool {
    match r {
        Ok(_) => e is None,
        Err(m) => e == Some(m@),
    }
}

/// The first of two possible problems.
pub open spec fn first_of(a: Option<Seq<char>>, b: Option<Seq<char>>) -> Option<Seq<char>> {
    if a is Some {
        a
    } else {
        b
    }
}

/// `path.key` followed by `what`.
pub open spec fn at_key(path: Seq<char>, key: Seq<char>, what: Seq<char>) -> Seq<char> {
    path + "."@ + key + what
}

/// Whether `s` starts with `p`.
pub open spec fn has_prefix(s: Seq<char>, p: Seq<char>) -> bool {
    p.len() <= s.len() && s.subrange(0, p.len() as int) == p
}

// ---------------------------------------------------------------------------
// Required fields
// ---------------------------------------------------------------------------

/// The string under `key`, or the problem `path.key must be a string`.
pub open spec fn required_string(t: Seq<(String, TomlDoc)>, key: Seq<char>, path: Seq<char>) -> Result<Seq<char>, Seq<char>> {
    match as_str(entry(t, key)) {
        Some(s) => Ok(s),
        None => Err(at_key(path, key, " must be a string"@)),
    }
}

/// The integer under `key`, or the problem `path.key must be an integer`.
pub open spec fn required_int(t: Seq<(String, TomlDoc)>, key: Seq<char>, path: Seq<char>) -> Result<i64, Seq<char>> {
    match as_int(entry(t, key)) {
        Some(i) => Ok(i),
        None => Err(at_key(path, key, " must be an integer"@)),
    }
}

/// The number under `key`, or the problem `path.key must be a number`.
pub open spec fn required_number(t: Seq<(String, TomlDoc)>, key: Seq<char>, path: Seq<char>) -> Result<Number, Seq<char>> {
    match as_number(entry(t, key)) {
        Some(n) => Ok(n),
        None => Err(at_key(path, key, " must be a number"@)),
    }
}

/// The problem with a missing or non-boolean `key`.
pub open spec fn bool_problem(t: Seq<(String, TomlDoc)>, key: Seq<char>, path: Seq<char>) -> Option<Seq<char>> {
    match as_bool(entry(t, key)) {
        Some(_) => None,
        None => Some(at_key(path, key, " must be a boolean"@)),
    }
}

/// The first item of `items[i..]` that is not a non-blank string, as the
/// problem `prefix[idx] must be ...`.
pub open spec fn items_problem(items: Seq<TomlDoc>, prefix: Seq<char>, i: int) -> Option<Seq<char>>
    decreases items.len() - i,
{
    if i < 0 || i >= items.len() {
        None
    } else {
        match items[i] {
            TomlDoc::Str(s) => if trim(s@).len() == 0 {
                Some(prefix + "["@ + decimal(i as nat) + "] must be non-empty"@)
            } else {
                items_problem(items, prefix, i + 1)
            },
            _ => Some(prefix + "["@ + decimal(i as nat) + "] must be a string"@),
        }
    }
}

/// The problem with `key` as an array of non-blank strings.
pub open spec fn string_array_problem(t: Seq<(String, TomlDoc)>, key: Seq<char>, path: Seq<char>) -> Option<Seq<char>> {
    match as_array(entry(t, key)) {
        Some(items) => items_problem(items, path + "."@ + key, 0),
        None => Some(at_key(path, key, " must be an array"@)),
    }
}

fn require_string(t: &Vec<(String, TomlDoc)>, key: &str, path: &str) -> (r: Result<String, String>)
    ensures
        match r {
            Ok(s) => required_string(t@, key@, path@) == Ok::<Seq<char>, Seq<char>>(s@),
            Err(m) => required_string(t@, key@, path@) == Err::<Seq<char>, Seq<char>>(m@),
        },
{
    match get_str(t, key) {
        Some(s) => Ok(s.clone()),
        None => Err(concat4(path, ".", key, " must be a string")),
    }
}

fn require_int(t: &Vec<(String, TomlDoc)>, key: &str, path: &str) -> (r: Result<i64, String>)
    ensures
        match r {
            Ok(i) => required_int(t@, key@, path@) == Ok::<i64, Seq<char>>(i),
            Err(m) => required_int(t@, key@, path@) == Err::<i64, Seq<char>>(m@),
        },
{
    match get_int(t, key) {
        Some(i) => Ok(i),
        None => Err(concat4(path, ".", key, " must be an integer")),
    }
}

fn require_number(t: &Vec<(String, TomlDoc)>, key: &str, path: &str) -> (r: Result<Number, String>)
    ensures
        match r {
            Ok(n) => required_number(t@, key@, path@) == Ok::<Number, Seq<char>>(n),
            Err(m) => required_number(t@, key@, path@) == Err::<Number, Seq<char>>(m@),
        },
{
    match get_number(t, key) {
        Some(n) => Ok(n),
        None => Err(concat4(path, ".", key, " must be a number")),
    }
}

fn require_bool(t: &Vec<(String, TomlDoc)>, key: &str, path: &str) -> (r: Result<(), String>)
    ensures
        reports(r, bool_problem(t@, key@, path@)),
{
    match get_bool(t, key) {
        Some(_) => Ok(()),
        None => Err(concat4(path, ".", key, " must be a boolean")),
    }
}

/// Checks that `items` are non-blank strings.
fn check_items(items: &Vec<TomlDoc>, prefix: &str) -> (r: Result<(), String>)
    ensures
        reports(r, items_problem(items@, prefix@, 0)),
{
    let mut i: usize = 0;
    while i < items.len()
        invariant
            0 <= i <= items@.len(),
            items_problem(items@, prefix@, 0) == items_problem(items@, prefix@, i as int),
        decreases items@.len() - i,
    {
        match &items[i] {
            TomlDoc::Str(s) => {
                if is_blank(s.as_str()) {
                    let idx = decimal_string(i);
                    return Err(concat4(prefix, "[", idx.as_str(), "] must be non-empty"));
                }
            },
            _ => {
                let idx = decimal_string(i);
                return Err(concat4(prefix, "[", idx.as_str(), "] must be a string"));
            },
        }
        i = i + 1;
    }
    Ok(())
}

fn require_string_array(t: &Vec<(String, TomlDoc)>, key: &str, path: &str) -> (r: Result<(), String>)
    ensures
        reports(r, string_array_problem(t@, key@, path@)),
{
    match get_array(t, key) {
        Some(items) => {
            let prefix = concat3(path, ".", key);
            check_items(items, prefix.as_str())
        },
        None => Err(concat4(path, ".", key, " must be an array")),
    }
}

/// Whether `s` starts with `p`.
pub fn starts_with(s: &str, p: &str) -> (r: bool)
    ensures
        r == has_prefix(s@, p@),
{
    let sv = chars_of(s);
    let pv = chars_of(p);
    if pv.len() > sv.len() {
        return false;
    }
    let mut k: usize = 0;
    while k < pv.len()
        invariant
            0 <= k <= pv@.len() <= sv@.len(),
            sv@ == s@,
            pv@ == p@,
            forall|m: int| 0 <= m < k ==> sv@[m] == pv@[m],
        decreases pv@.len() - k,
    {
        if sv[k] != pv[k] {
            assert(s@.subrange(0, p@.len() as int)[k as int] != p@[k as int]);
            return false;
        }
        k = k + 1;
    }
    assert(s@.subrange(0, p@.len() as int) =~= p@);
    true
}

/// Whether two strings hold the same characters.
pub fn str_eq(a: &str, b: &str) -> (r: bool)
    ensures
        r == (a@ == b@),
{
    same_chars(&chars_of(a), &chars_of(b))
}

// ---------------------------------------------------------------------------
// The checks, section by section
// ---------------------------------------------------------------------------

/// Problem with `[ipc]` key `key`: missing, not a string, or not an `ipc://`
/// address.
pub open spec fn ipc_key_problem(ipc: Seq<(String, TomlDoc)>, key: Seq<char>) -> Option<Seq<char>> {
    match required_string(ipc, key, "root.ipc"@) {
        Err(m) => Some(m),
        Ok(v) => if !has_prefix(v, "ipc://"@) {
            Some("root.ipc."@ + key + " must start with 'ipc://'"@)
        } else {
            None
        },
    }
}

/// The keys of `[ipc]`, in the order they are checked.
pub open spec fn ipc_keys() -> Seq<Seq<char>> {
    seq!["stt_cmd"@, "stt_pub"@, "tts_cmd"@, "tts_events"@, "assistant_cmd"@]
}

/// The first problem among `[ipc]` keys `keys[k..]`.
pub open spec fn ipc_problem_from(ipc: Seq<(String, TomlDoc)>, keys: Seq<Seq<char>>, k: int) -> Option<Seq<char>>
    decreases keys.len() - k,
{
    if k < 0 || k >= keys.len() {
        None
    } else {
        first_of(ipc_key_problem(ipc, keys[k]), ipc_problem_from(ipc, keys, k + 1))
    }
}

fn check_ipc_key(ipc: &Vec<(String, TomlDoc)>, key: &str) -> (r: Result<(), String>)
    ensures
        reports(r, ipc_key_problem(ipc@, key@)),
{
    match require_string(ipc, key, "root.ipc") {
        Err(m) => Err(m),
        Ok(v) => {
            if !starts_with(v.as_str(), "ipc://") {
                Err(concat3("root.ipc.", key, " must start with 'ipc://'"))
            } else {
                Ok(())
            }
        },
    }
}

fn check_ipc(ipc: &Vec<(String, TomlDoc)>) -> (r: Result<(), String>)
    ensures
        reports(r, ipc_problem_from(ipc@, ipc_keys(), 0)),
{
    let keys = vec!["stt_cmd", "stt_pub", "tts_cmd", "tts_events", "assistant_cmd"];
    assert(keys@.map_values(|k: &str| k@) =~= ipc_keys());
    let mut k: usize = 0;
    while k < keys.len()
        invariant
            0 <= k <= keys@.len(),
            keys@.map_values(|k: &str| k@) == ipc_keys(),
            ipc_problem_from(ipc@, ipc_keys(), 0) == ipc_problem_from(ipc@, ipc_keys(), k as int),
        decreases keys@.len() - k,
    {
        assert(keys@.map_values(|k: &str| k@)[k as int] == keys@[k as int]@);
        match check_ipc_key(ipc, keys[k]) {
            Err(m) => {
                return Err(m);
            },
            Ok(_) => {},
        }
        k = k + 1;
    }
    Ok(())
}

/// Problems of `[stt]`, in the order they are checked.
pub open spec fn stt_problem(stt: Seq<(String, TomlDoc)>) -> Option<Seq<char>> {
    match required_number(stt, "vad_threshold"@, "root.stt"@) {
        Err(m) => Some(m),
        Ok(vad) => if !in_unit_interval(vad) {
            Some("root.stt.vad_threshold must be in [0.0, 1.0]"@)
        } else {
            match required_number(stt, "digital_gain"@, "root.stt"@) {
                Err(m) => Some(m),
                Ok(gain) => if !is_positive(gain) {
                    Some("root.stt.digital_gain must be > 0"@)
                } else {
                    match required_number(stt, "silence_timeout_sec"@, "root.stt"@) {
                        Err(m) => Some(m),
                        Ok(silence) => if !is_positive(silence) {
                            Some("root.stt.silence_timeout_sec must be > 0"@)
                        } else {
                            match required_int(stt, "model_idle_timeout_sec"@, "root.stt"@) {
                                Err(m) => Some(m),
                                Ok(idle) => if idle < 1 {
                                    Some("root.stt.model_idle_timeout_sec must be >= 1"@)
                                } else {
                                    None
                                },
                            }
                        },
                    }
                },
            }
        },
    }
}

fn check_stt(stt: &Vec<(String, TomlDoc)>) -> (r: Result<(), String>)
    ensures
        reports(r, stt_problem(stt@)),
{
    let vad = match require_number(stt, "vad_threshold", "root.stt") {
        Err(m) => {
            return Err(m);
        },
        Ok(n) => n,
    };
    if !number_in_unit_interval(vad) {
        return Err("root.stt.vad_threshold must be in [0.0, 1.0]".to_string());
    }
    let gain = match require_number(stt, "digital_gain", "root.stt") {
        Err(m) => {
            return Err(m);
        },
        Ok(n) => n,
    };
    if !number_is_positive(gain) {
        return Err("root.stt.digital_gain must be > 0".to_string());
    }
    let silence = match require_number(stt, "silence_timeout_sec", "root.stt") {
        Err(m) => {
            return Err(m);
        },
        Ok(n) => n,
    };
    if !number_is_positive(silence) {
        return Err("root.stt.silence_timeout_sec must be > 0".to_string());
    }
    let idle = match require_int(stt, "model_idle_timeout_sec", "root.stt") {
        Err(m) => {
            return Err(m);
        },
        Ok(i) => i,
    };
    if idle < 1 {
        return Err("root.stt.model_idle_timeout_sec must be >= 1".to_string());
    }
    Ok(())
}

/// The engines the speech service runs.
pub open spec fn valid_engine(engine: Seq<char>) -> bool {
    engine == "kokoro"@ || engine == "pocket-tts"@ || engine == "supertonic-3"@
}

/// The two qualities.
pub open spec fn valid_quality_name(quality: Seq<char>) -> bool {
    quality == "low"@ || quality == "high"@
}

fn is_valid_engine(engine: &str) -> (r: bool)
    ensures
        r == valid_engine(engine@),
{
    str_eq(engine, "kokoro") || str_eq(engine, "pocket-tts") || str_eq(engine, "supertonic-3")
}

fn is_valid_quality_name(quality: &str) -> (r: bool)
    ensures
        r == valid_quality_name(quality@),
{
    str_eq(quality, "low") || str_eq(quality, "high")
}

/// Problems of `[tts.defaults]`, in the order they are checked.
pub open spec fn tts_defaults_problem(d: Seq<(String, TomlDoc)>) -> Option<Seq<char>> {
    match required_string(d, "engine"@, "root.tts.defaults"@) {
        Err(m) => Some(m),
        Ok(engine) => if !valid_engine(engine) {
            Some("root.tts.defaults.engine must be 'kokoro', 'pocket-tts', or 'supertonic-3'"@)
        } else {
            match required_string(d, "quality"@, "root.tts.defaults"@) {
                Err(m) => Some(m),
                Ok(quality) => if !valid_quality_name(quality) {
                    Some("root.tts.defaults.quality must be 'low' or 'high'"@)
                } else {
                    match required_number(d, "speed"@, "root.tts.defaults"@) {
                        Err(m) => Some(m),
                        Ok(speed) => if !in_speed_range(speed) {
                            Some("root.tts.defaults.speed must be in [0.5, 2.0]"@)
                        } else {
                            match required_string(d, "voice"@, "root.tts.defaults"@) {
                                Err(m) => Some(m),
                                Ok(voice) => if trim(voice).len() == 0 {
                                    Some("root.tts.defaults.voice must be non-empty"@)
                                } else {
                                    match required_int(d, "idle_timeout_sec"@, "root.tts.defaults"@) {
                                        Err(m) => Some(m),
                                        Ok(idle) => if idle < 1 {
                                            Some("root.tts.defaults.idle_timeout_sec must be >= 1"@)
                                        } else {
                                            None
                                        },
                                    }
                                },
                            }
                        },
                    }
                },
            }
        },
    }
}

fn check_tts_defaults(d: &Vec<(String, TomlDoc)>) -> (r: Result<(), String>)
    ensures
        reports(r, tts_defaults_problem(d@)),
{
    let engine = match require_string(d, "engine", "root.tts.defaults") {
        Err(m) => {
            return Err(m);
        },
        Ok(s) => s,
    };
    if !is_valid_engine(engine.as_str()) {
        return Err(
            "root.tts.defaults.engine must be 'kokoro', 'pocket-tts', or 'supertonic-3'".to_string(),
        );
    }
    let quality = match require_string(d, "quality", "root.tts.defaults") {
        Err(m) => {
            return Err(m);
        },
        Ok(s) => s,
    };
    if !is_valid_quality_name(quality.as_str()) {
        return Err("root.tts.defaults.quality must be 'low' or 'high'".to_string());
    }
    let speed = match require_number(d, "speed", "root.tts.defaults") {
        Err(m) => {
            return Err(m);
        },
        Ok(n) => n,
    };
    if !number_in_speed_range(speed) {
        return Err("root.tts.defaults.speed must be in [0.5, 2.0]".to_string());
    }
    let voice = match require_string(d, "voice", "root.tts.defaults") {
        Err(m) => {
            return Err(m);
        },
        Ok(s) => s,
    };
    if is_blank(voice.as_str()) {
        return Err("root.tts.defaults.voice must be non-empty".to_string());
    }
    let idle = match require_int(d, "idle_timeout_sec", "root.tts.defaults") {
        Err(m) => {
            return Err(m);
        },
        Ok(i) => i,
    };
    if idle < 1 {
        return Err("root.tts.defaults.idle_timeout_sec must be >= 1".to_string());
    }
    Ok(())
}

/// Views of a list of names.
pub open spec fn names_of(list: Seq<&str>) -> Seq<Seq<char>> {
    list.map_values(|s: &str| s@)
}

fn in_list(k: &str, list: &Vec<&str>) -> (r: bool)
    ensures
        r == names_of(list@).contains(k@),
{
    let mut i: usize = 0;
    while i < list.len()
        invariant
            0 <= i <= list@.len(),
            forall|m: int| 0 <= m < i ==> names_of(list@)[m] != k@,
        decreases list@.len() - i,
    {
        assert(names_of(list@)[i as int] == list@[i as int]@);
        if str_eq(k, list[i]) {
            assert(names_of(list@)[i as int] == k@);
            return true;
        }
        i = i + 1;
    }
    false
}

/// The first entry of `t[i..]` whose key is not in `allowed`, reported as
/// `path has unknown key 'key'`.
pub open spec fn unknown_key_from(t: Seq<(String, TomlDoc)>, allowed: Seq<Seq<char>>, path: Seq<char>, i: int) -> Option<Seq<char>>
    decreases t.len() - i,
{
    if i < 0 || i >= t.len() {
        None
    } else if allowed.contains(t[i].0@) {
        unknown_key_from(t, allowed, path, i + 1)
    } else {
        Some(path + " has unknown key '"@ + t[i].0@ + "'"@)
    }
}

fn check_known_keys(t: &Vec<(String, TomlDoc)>, allowed: &Vec<&str>, path: &str) -> (r: Result<(), String>)
    ensures
        reports(r, unknown_key_from(t@, names_of(allowed@), path@, 0)),
{
    let mut i: usize = 0;
    while i < t.len()
        invariant
            0 <= i <= t@.len(),
            unknown_key_from(t@, names_of(allowed@), path@, 0) == unknown_key_from(
                t@,
                names_of(allowed@),
                path@,
                i as int,
            ),
        decreases t@.len() - i,
    {
        if !in_list(t[i].0.as_str(), allowed) {
            return Err(concat4(path, " has unknown key '", t[i].0.as_str(), "'"));
        }
        i = i + 1;
    }
    Ok(())
}

/// The array problems of the favorites lists `names[k..]` that are present.
pub open spec fn favorite_lists_problem(t: Seq<(String, TomlDoc)>, names: Seq<Seq<char>>, path: Seq<char>, k: int) -> Option<Seq<char>>
    decreases names.len() - k,
{
    if k < 0 || k >= names.len() {
        None
    } else {
        first_of(
            if find_key(t, names[k]) is Some {
                string_array_problem(t, names[k], path)
            } else {
                None
            },
            favorite_lists_problem(t, names, path, k + 1),
        )
    }
}

fn check_favorite_lists(t: &Vec<(String, TomlDoc)>, names: &Vec<&str>, path: &str) -> (r: Result<(), String>)
    ensures
        reports(r, favorite_lists_problem(t@, names_of(names@), path@, 0)),
{
    let mut k: usize = 0;
    while k < names.len()
        invariant
            0 <= k <= names@.len(),
            favorite_lists_problem(t@, names_of(names@), path@, 0) == favorite_lists_problem(
                t@,
                names_of(names@),
                path@,
                k as int,
            ),
        decreases names@.len() - k,
    {
        assert(names_of(names@)[k as int] == names@[k as int]@);
        if find_entry(t, names[k]).is_some() {
            match require_string_array(t, names[k], path) {
                Err(m) => {
                    return Err(m);
                },
                Ok(_) => {},
            }
        }
        k = k + 1;
    }
    Ok(())
}

/// The keys allowed in `[tts.favorites]`, which are also the lists checked.
pub open spec fn tts_favorite_names() -> Seq<Seq<char>> {
    seq!["kokoro"@, "pocket_tts"@, "pocket-tts"@, "supertonic_3"@, "supertonic-3"@]
}

/// Problems of the optional `[tts.favorites]`.
pub open spec fn tts_favorites_problem(tts: Seq<(String, TomlDoc)>) -> Option<Seq<char>> {
    match entry(tts, "favorites"@) {
        None => None,
        Some(TomlDoc::Table(t)) => first_of(
            unknown_key_from(t@, tts_favorite_names(), "root.tts.favorites"@, 0),
            favorite_lists_problem(t@, tts_favorite_names(), "root.tts.favorites"@, 0),
        ),
        Some(_) => Some("root.tts.favorites must be a table"@),
    }
}

fn check_tts_favorites(tts: &Vec<(String, TomlDoc)>) -> (r: Result<(), String>)
    ensures
        reports(r, tts_favorites_problem(tts@)),
{
    let names = vec!["kokoro", "pocket_tts", "pocket-tts", "supertonic_3", "supertonic-3"];
    assert(names_of(names@) =~= tts_favorite_names());
    match find_entry(tts, "favorites") {
        None => Ok(()),
        Some(i) => match &tts[i].1 {
            TomlDoc::Table(t) => {
                match check_known_keys(t, &names, "root.tts.favorites") {
                    Err(m) => Err(m),
                    Ok(_) => check_favorite_lists(t, &names, "root.tts.favorites"),
                }
            },
            _ => Err("root.tts.favorites must be a table".to_string()),
        },
    }
}

/// The first missing or non-boolean key of `keys[k..]`.
pub open spec fn bools_problem(t: Seq<(String, TomlDoc)>, keys: Seq<Seq<char>>, path: Seq<char>, k: int) -> Option<Seq<char>>
    decreases keys.len() - k,
{
    if k < 0 || k >= keys.len() {
        None
    } else {
        first_of(bool_problem(t, keys[k], path), bools_problem(t, keys, path, k + 1))
    }
}

/// The first of `keys[k..]` that is not a non-blank string.
pub open spec fn texts_problem(t: Seq<(String, TomlDoc)>, keys: Seq<Seq<char>>, path: Seq<char>, k: int) -> Option<Seq<char>>
    decreases keys.len() - k,
{
    if k < 0 || k >= keys.len() {
        None
    } else {
        first_of(
            match required_string(t, keys[k], path) {
                Err(m) => Some(m),
                Ok(v) => if trim(v).len() == 0 {
                    Some(path + "."@ + keys[k] + " must be non-empty"@)
                } else {
                    None
                },
            },
            texts_problem(t, keys, path, k + 1),
        )
    }
}

fn check_bools(t: &Vec<(String, TomlDoc)>, keys: &Vec<&str>, path: &str) -> (r: Result<(), String>)
    ensures
        reports(r, bools_problem(t@, names_of(keys@), path@, 0)),
{
    let mut k: usize = 0;
    while k < keys.len()
        invariant
            0 <= k <= keys@.len(),
            bools_problem(t@, names_of(keys@), path@, 0) == bools_problem(t@, names_of(keys@), path@, k as int),
        decreases keys@.len() - k,
    {
        assert(names_of(keys@)[k as int] == keys@[k as int]@);
        match require_bool(t, keys[k], path) {
            Err(m) => {
                return Err(m);
            },
            Ok(_) => {},
        }
        k = k + 1;
    }
    Ok(())
}

fn check_texts(t: &Vec<(String, TomlDoc)>, keys: &Vec<&str>, path: &str) -> (r: Result<(), String>)
    ensures
        reports(r, texts_problem(t@, names_of(keys@), path@, 0)),
{
    let mut k: usize = 0;
    while k < keys.len()
        invariant
            0 <= k <= keys@.len(),
            texts_problem(t@, names_of(keys@), path@, 0) == texts_problem(t@, names_of(keys@), path@, k as int),
        decreases keys@.len() - k,
    {
        assert(names_of(keys@)[k as int] == keys@[k as int]@);
        match require_string(t, keys[k], path) {
            Err(m) => {
                return Err(m);
            },
            Ok(v) => {
                if is_blank(v.as_str()) {
                    return Err(concat4(path, ".", keys[k], " must be non-empty"));
                }
            },
        }
        k = k + 1;
    }
    Ok(())
}

/// The boolean switches of `[assistant.memory]`.
pub open spec fn memory_switches() -> Seq<Seq<char>> {
    seq!["enabled_local"@, "enabled_cloud"@, "summarize_on_idle"@, "summarize_on_stop"@]
}

/// The text settings of `[assistant.memory]`.
pub open spec fn memory_texts() -> Seq<Seq<char>> {
    seq!["qdrant_path"@, "collection"@, "embedding_model"@]
}

/// Problems of `[assistant.memory]`, in the order they are checked.
pub open spec fn memory_problem(m: Seq<(String, TomlDoc)>) -> Option<Seq<char>> {
    first_of(
        bools_problem(m, memory_switches(), "root.assistant.memory"@, 0),
        match required_int(m, "max_summary_chars"@, "root.assistant.memory"@) {
            Err(e) => Some(e),
            Ok(max) => if max < 200 {
                Some("root.assistant.memory.max_summary_chars must be >= 200"@)
            } else {
                match required_int(m, "retrieve_top_k"@, "root.assistant.memory"@) {
                    Err(e) => Some(e),
                    Ok(k) => if !(1 <= k <= 20) {
                        Some("root.assistant.memory.retrieve_top_k must be in [1, 20]"@)
                    } else {
                        texts_problem(m, memory_texts(), "root.assistant.memory"@, 0)
                    },
                }
            },
        },
    )
}

fn check_memory(m: &Vec<(String, TomlDoc)>) -> (r: Result<(), String>)
    ensures
        reports(r, memory_problem(m@)),
{
    let switches = vec!["enabled_local", "enabled_cloud", "summarize_on_idle", "summarize_on_stop"];
    assert(names_of(switches@) =~= memory_switches());
    match check_bools(m, &switches, "root.assistant.memory") {
        Err(e) => {
            return Err(e);
        },
        Ok(_) => {},
    }
    let max = match require_int(m, "max_summary_chars", "root.assistant.memory") {
        Err(e) => {
            return Err(e);
        },
        Ok(i) => i,
    };
    if max < 200 {
        return Err("root.assistant.memory.max_summary_chars must be >= 200".to_string());
    }
    let top_k = match require_int(m, "retrieve_top_k", "root.assistant.memory") {
        Err(e) => {
            return Err(e);
        },
        Ok(i) => i,
    };
    if !(1 <= top_k && top_k <= 20) {
        return Err("root.assistant.memory.retrieve_top_k must be in [1, 20]".to_string());
    }
    let texts = vec!["qdrant_path", "collection", "embedding_model"];
    assert(names_of(texts@) =~= memory_texts());
    check_texts(m, &texts, "root.assistant.memory")
}

/// The permission levels of a tool.
pub open spec fn valid_permission(level: Seq<char>) -> bool {
    level == "allow"@ || level == "ask"@ || level == "deny"@
}

pub fn is_valid_permission(level: &str) -> (r: bool)
    ensures
        r == valid_permission(level@),
{
    str_eq(level, "allow") || str_eq(level, "ask") || str_eq(level, "deny")
}

/// The first tool of `t[i..]` whose level is not a string or not a known
/// permission.
pub open spec fn tools_problem_from(t: Seq<(String, TomlDoc)>, i: int) -> Option<Seq<char>>
    decreases t.len() - i,
{
    if i < 0 || i >= t.len() {
        None
    } else {
        match as_str(Some(t[i].1)) {
            None => Some("root.assistant.tools."@ + t[i].0@ + " must be a string"@),
            Some(level) => if !valid_permission(level) {
                Some("Invalid permission '"@ + level + "' for tool '"@ + t[i].0@ + "'"@)
            } else {
                tools_problem_from(t, i + 1)
            },
        }
    }
}

fn check_tools(t: &Vec<(String, TomlDoc)>) -> (r: Result<(), String>)
    ensures
        reports(r, tools_problem_from(t@, 0)),
{
    let mut i: usize = 0;
    while i < t.len()
        invariant
            0 <= i <= t@.len(),
            tools_problem_from(t@, 0) == tools_problem_from(t@, i as int),
        decreases t@.len() - i,
    {
        match &t[i].1 {
            TomlDoc::Str(level) => {
                if !is_valid_permission(level.as_str()) {
                    return Err(
                        concat5("Invalid permission '", level.as_str(), "' for tool '", t[i].0.as_str(), "'"),
                    );
                }
            },
            _ => {
                return Err(concat3("root.assistant.tools.", t[i].0.as_str(), " must be a string"));
            },
        }
        i = i + 1;
    }
    Ok(())
}

/// Problems of the optional `[assistant.favorites]`.
pub open spec fn assistant_favorites_problem(a: Seq<(String, TomlDoc)>) -> Option<Seq<char>> {
    match entry(a, "favorites"@) {
        None => None,
        Some(TomlDoc::Table(t)) => first_of(
            unknown_key_from(t@, seq!["models"@], "root.assistant.favorites"@, 0),
            favorite_lists_problem(t@, seq!["models"@], "root.assistant.favorites"@, 0),
        ),
        Some(_) => Some("root.assistant.favorites must be a table"@),
    }
}

fn check_assistant_favorites(a: &Vec<(String, TomlDoc)>) -> (r: Result<(), String>)
    ensures
        reports(r, assistant_favorites_problem(a@)),
{
    let names = vec!["models"];
    assert(names_of(names@) =~= seq!["models"@]);
    match find_entry(a, "favorites") {
        None => Ok(()),
        Some(i) => match &a[i].1 {
            TomlDoc::Table(t) => {
                match check_known_keys(t, &names, "root.assistant.favorites") {
                    Err(m) => Err(m),
                    Ok(_) => check_favorite_lists(t, &names, "root.assistant.favorites"),
                }
            },
            _ => Err("root.assistant.favorites must be a table".to_string()),
        },
    }
}

/// The instruction texts of `[assistant.instructions]`.
pub open spec fn instruction_texts() -> Seq<Seq<char>> {
    seq!["system_prompt"@, "tool_usage_policy"@]
}

/// Problems of `[assistant]`, in the order they are checked.
pub open spec fn assistant_problem(a: Seq<(String, TomlDoc)>) -> Option<Seq<char>> {
    match required_string(a, "default_model"@, "root.assistant"@) {
        Err(m) => Some(m),
        Ok(model) => if trim(model).len() == 0 {
            Some("root.assistant.default_model must be non-empty"@)
        } else {
            match required_int(a, "history_idle_timeout_sec"@, "root.assistant"@) {
                Err(m) => Some(m),
                Ok(h) => if h < 1 {
                    Some("root.assistant.history_idle_timeout_sec must be >= 1"@)
                } else {
                    match as_table(entry(a, "memory"@)) {
                        None => Some("root.assistant.memory must be a table"@),
                        Some(mem) => first_of(
                            memory_problem(mem),
                            match as_table(entry(a, "instructions"@)) {
                                None => Some("root.assistant.instructions must be a table"@),
                                Some(ins) => first_of(
                                    texts_problem(ins, instruction_texts(), "root.assistant.instructions"@, 0),
                                    match as_table(entry(a, "tools"@)) {
                                        None => Some("root.assistant.tools must be a table"@),
                                        Some(tools) => first_of(
                                            tools_problem_from(tools, 0),
                                            assistant_favorites_problem(a),
                                        ),
                                    },
                                ),
                            },
                        ),
                    }
                },
            }
        },
    }
}

fn check_assistant(a: &Vec<(String, TomlDoc)>) -> (r: Result<(), String>)
    ensures
        reports(r, assistant_problem(a@)),
{
    let model = match require_string(a, "default_model", "root.assistant") {
        Err(m) => {
            return Err(m);
        },
        Ok(s) => s,
    };
    if is_blank(model.as_str()) {
        return Err("root.assistant.default_model must be non-empty".to_string());
    }
    let history = match require_int(a, "history_idle_timeout_sec", "root.assistant") {
        Err(m) => {
            return Err(m);
        },
        Ok(i) => i,
    };
    if history < 1 {
        return Err("root.assistant.history_idle_timeout_sec must be >= 1".to_string());
    }
    let memory = match get_table(a, "memory") {
        None => {
            return Err("root.assistant.memory must be a table".to_string());
        },
        Some(t) => t,
    };
    match check_memory(memory) {
        Err(m) => {
            return Err(m);
        },
        Ok(_) => {},
    }
    let instructions = match get_table(a, "instructions") {
        None => {
            return Err("root.assistant.instructions must be a table".to_string());
        },
        Some(t) => t,
    };
    let texts = vec!["system_prompt", "tool_usage_policy"];
    assert(names_of(texts@) =~= instruction_texts());
    match check_texts(instructions, &texts, "root.assistant.instructions") {
        Err(m) => {
            return Err(m);
        },
        Ok(_) => {},
    }
    let tools = match get_table(a, "tools") {
        None => {
            return Err("root.assistant.tools must be a table".to_string());
        },
        Some(t) => t,
    };
    match check_tools(tools) {
        Err(m) => {
            return Err(m);
        },
        Ok(_) => {},
    }
    check_assistant_favorites(a)
}

/// The first problem of a configuration document, checking the sections in
/// order: version, `[ipc]`, `[stt]`, `[tts]`, `[assistant]`.
pub open spec fn validation_problem(cfg: TomlDoc) -> Option<Seq<char>> {
    match cfg {
        TomlDoc::Table(root) => root_problem(root@),
        _ => Some("root must be a table"@),
    }
}

/// The first problem of the root table's sections.
pub open spec fn root_problem(root: Seq<(String, TomlDoc)>) -> Option<Seq<char>> {
    match required_int(root, "version"@, "root"@) {
        Err(m) => Some(m),
        Ok(v) => if v < 1 {
            Some("root.version must be >= 1"@)
        } else {
            match as_table(entry(root, "ipc"@)) {
                None => Some("root.ipc must be a table"@),
                Some(ipc) => first_of(
                    ipc_problem_from(ipc, ipc_keys(), 0),
                    match as_table(entry(root, "stt"@)) {
                        None => Some("root.stt must be a table"@),
                        Some(stt) => first_of(stt_problem(stt), tts_and_assistant_problem(root)),
                    },
                ),
            }
        },
    }
}

/// The first problem of `[tts]` and then `[assistant]`.
pub open spec fn tts_and_assistant_problem(root: Seq<(String, TomlDoc)>) -> Option<Seq<char>> {
    match as_table(entry(root, "tts"@)) {
        None => Some("root.tts must be a table"@),
        Some(tts) => match as_table(entry(tts, "defaults"@)) {
            None => Some("root.tts.defaults must be a table"@),
            Some(d) => first_of(
                tts_defaults_problem(d),
                first_of(
                    tts_favorites_problem(tts),
                    match as_table(entry(root, "assistant"@)) {
                        None => Some("root.assistant must be a table"@),
                        Some(a) => assistant_problem(a),
                    },
                ),
            ),
        },
    }
}

/// Checks a configuration document, reporting the first problem found
/// (see `validation_problem`).
pub fn validate_document(cfg: &TomlDoc) -> (r: Result<(), String>)
    ensures
        reports(r, validation_problem(*cfg)),
{
    let root = match cfg {
        TomlDoc::Table(t) => t,
        _ => {
            return Err("root must be a table".to_string());
        },
    };
    let version = match require_int(root, "version", "root") {
        Err(m) => {
            return Err(m);
        },
        Ok(i) => i,
    };
    if version < 1 {
        return Err("root.version must be >= 1".to_string());
    }
    let ipc = match get_table(root, "ipc") {
        None => {
            return Err("root.ipc must be a table".to_string());
        },
        Some(t) => t,
    };
    match check_ipc(ipc) {
        Err(m) => {
            return Err(m);
        },
        Ok(_) => {},
    }
    let stt = match get_table(root, "stt") {
        None => {
            return Err("root.stt must be a table".to_string());
        },
        Some(t) => t,
    };
    match check_stt(stt) {
        Err(m) => {
            return Err(m);
        },
        Ok(_) => {},
    }
    let tts = match get_table(root, "tts") {
        None => {
            return Err("root.tts must be a table".to_string());
        },
        Some(t) => t,
    };
    let defaults = match get_table(tts, "defaults") {
        None => {
            return Err("root.tts.defaults must be a table".to_string());
        },
        Some(t) => t,
    };
    match check_tts_defaults(defaults) {
        Err(m) => {
            return Err(m);
        },
        Ok(_) => {},
    }
    match check_tts_favorites(tts) {
        Err(m) => {
            return Err(m);
        },
        Ok(_) => {},
    }
    let assistant = match get_table(root, "assistant") {
        None => {
            return Err("root.assistant must be a table".to_string());
        },
        Some(t) => t,
    };
    check_assistant(assistant)
}

// ---------------------------------------------------------------------------
// Favorite lists
// ---------------------------------------------------------------------------

/// A checked list of names: the strings of `items` when all are non-blank
/// strings, else the first problem.
pub open spec fn name_list(items: Seq<TomlDoc>, prefix: Seq<char>) -> Result<Seq<Seq<char>>, Seq<char>> {
    match items_problem(items, prefix, 0) {
        Some(m) => Err(m),
        None => Ok(str_items(items)),
    }
}

/// `r` is the list or the error that `s` describes.
pub open spec fn lists(r: Result<Vec<String>, String>, s: Result<Seq<Seq<char>>, Seq<char>>) -> bool {
    match r {
        Ok(v) => s == Ok::<Seq<Seq<char>>, Seq<char>>(views(v@)),
        Err(m) => s == Err::<Seq<Seq<char>>, Seq<char>>(m@),
    }
}

fn collect_names(items: &Vec<TomlDoc>, prefix: &str) -> (r: Result<Vec<String>, String>)
    ensures
        lists(r, name_list(items@, prefix@)),
{
    match check_items(items, prefix) {
        Err(m) => Err(m),
        Ok(_) => {
            let mut out: Vec<String> = Vec::new();
            let mut k: usize = 0;
            while k < items.len()
                invariant
                    0 <= k <= items@.len(),
                    views(out@) == str_items(items@.take(k as int)),
                decreases items@.len() - k,
            {
                let ghost before = out@;
                assert(items@.take(k + 1).drop_last() =~= items@.take(k as int));
                match &items[k] {
                    TomlDoc::Str(s) => {
                        out.push(s.clone());
                        assert(views(out@) =~= views(before).push(s@));
                    },
                    _ => {},
                }
                k = k + 1;
            }
            assert(items@.take(items@.len() as int) =~= items@);
            Ok(out)
        },
    }
}

/// The `[tts.favorites]` key the command-line tool reads for `engine`.
pub open spec fn cli_favorites_key(engine: Seq<char>) -> Seq<char> {
    if engine == "pocket-tts"@ {
        "pocket_tts"@
    } else if engine == "supertonic-3"@ {
        "supertonic_3"@
    } else {
        engine
    }
}

/// The older spelling of a favorites key, still read when the current one
/// is absent.
pub open spec fn legacy_favorites_key(key: Seq<char>) -> Option<Seq<char>> {
    if key == "pocket_tts"@ {
        Some("pocket-tts"@)
    } else if key == "supertonic_3"@ {
        Some("supertonic-3"@)
    } else {
        None
    }
}

/// The favorite voices of `engine`, or the problem that prevents reading
/// them.
pub open spec fn spec_favorite_voices_for_engine(cfg: TomlDoc, engine: Seq<char>) -> Result<Seq<Seq<char>>, Seq<char>> {
    match cfg {
        TomlDoc::Table(root) => match as_table(entry(root@, "tts"@)) {
            None => Err("root.tts must be a table"@),
            Some(tts) => match as_table(entry(tts, "favorites"@)) {
                None => Err("root.tts.favorites must be a table"@),
                Some(f) => {
                    let key = cli_favorites_key(engine);
                    match as_array(entry(f, key)) {
                        Some(items) => name_list(items, "root.tts.favorites."@ + key),
                        None => match legacy_favorites_key(key) {
                            Some(old) => match as_array(entry(f, old)) {
                                Some(items) => name_list(items, "root.tts.favorites."@ + old),
                                None => Ok(Seq::empty()),
                            },
                            None => Ok(Seq::empty()),
                        },
                    }
                },
            },
        },
        _ => Err("Config root is not a TOML table"@),
    }
}

/// Favorite voices of `engine` in `cfg` (see
/// `spec_favorite_voices_for_engine`).
pub fn favorite_voices_for_engine(cfg: &TomlDoc, engine: &str) -> (r: Result<Vec<String>, String>)
    ensures
        lists(r, spec_favorite_voices_for_engine(*cfg, engine@)),
{
    let root = match cfg {
        TomlDoc::Table(t) => t,
        _ => {
            return Err("Config root is not a TOML table".to_string());
        },
    };
    let tts = match get_table(root, "tts") {
        None => {
            return Err("root.tts must be a table".to_string());
        },
        Some(t) => t,
    };
    let favorites = match get_table(tts, "favorites") {
        None => {
            return Err("root.tts.favorites must be a table".to_string());
        },
        Some(t) => t,
    };
    let key: &str = if str_eq(engine, "pocket-tts") {
        "pocket_tts"
    } else if str_eq(engine, "supertonic-3") {
        "supertonic_3"
    } else {
        engine
    };
    if let Some(values) = get_array(favorites, key) {
        let prefix = concat2("root.tts.favorites.", key);
        return collect_names(values, prefix.as_str());
    }
    let legacy: Option<&str> = if str_eq(key, "pocket_tts") {
        Some("pocket-tts")
    } else if str_eq(key, "supertonic_3") {
        Some("supertonic-3")
    } else {
        None
    };
    if let Some(old) = legacy {
        if let Some(values) = get_array(favorites, old) {
            let prefix = concat2("root.tts.favorites.", old);
            return collect_names(values, prefix.as_str());
        }
    }
    let none: Vec<String> = Vec::new();
    assert(views(none@) =~= Seq::<Seq<char>>::empty());
    Ok(none)
}

/// The favorite models, or the problem that prevents reading them.
pub open spec fn spec_favorite_models(cfg: TomlDoc) -> Result<Seq<Seq<char>>, Seq<char>> {
    match cfg {
        TomlDoc::Table(root) => match as_table(entry(root@, "assistant"@)) {
            None => Err("root.assistant must be a table"@),
            Some(a) => match as_table(entry(a, "favorites"@)) {
                None => Err("root.assistant.favorites must be a table"@),
                Some(f) => match as_array(entry(f, "models"@)) {
                    Some(items) => name_list(items, "root.assistant.favorites.models"@),
                    None => Ok(Seq::empty()),
                },
            },
        },
        _ => Err("Config root is not a TOML table"@),
    }
}

/// Favorite models in `cfg` (see `spec_favorite_models`).
pub fn favorite_models(cfg: &TomlDoc) -> (r: Result<Vec<String>, String>)
    ensures
        lists(r, spec_favorite_models(*cfg)),
{
    let root = match cfg {
        TomlDoc::Table(t) => t,
        _ => {
            return Err("Config root is not a TOML table".to_string());
        },
    };
    let assistant = match get_table(root, "assistant") {
        None => {
            return Err("root.assistant must be a table".to_string());
        },
        Some(t) => t,
    };
    let favorites = match get_table(assistant, "favorites") {
        None => {
            return Err("root.assistant.favorites must be a table".to_string());
        },
        Some(t) => t,
    };
    match get_array(favorites, "models") {
        Some(values) => collect_names(values, "root.assistant.favorites.models"),
        None => {
            let none: Vec<String> = Vec::new();
            assert(views(none@) =~= Seq::<Seq<char>>::empty());
            Ok(none)
        },
    }
}

// ---------------------------------------------------------------------------
// Writes
// ---------------------------------------------------------------------------

/// Why the command-line tool refused to write a setting.
#[derive(Clone, Debug, PartialEq, Eq)]
pub enum WriteError {
    /// Refused with this message.
    Message(String),
    /// The speed is outside `[0.5, 2.0]`; the message shows the number.
    InvalidSpeed,
}

/// `r` is the refusal with message `m`.
pub open spec fn refused_with(r: Result<TomlDoc, WriteError>, m: Seq<char>) -> bool {
    r matches Err(WriteError::Message(s)) && s@ == m
}

/// The edit of `[tts.defaults]` that stores engine, voice, speed and
/// quality, keeping the other keys.
pub open spec fn cli_defaults_leaf(engine: Seq<char>, voice: Seq<char>, speed: u64, quality: Seq<char>) -> spec_fn(
    Seq<(String, TomlDoc)>,
    Seq<(String, TomlDoc)>,
) -> bool {
    |n: Seq<(String, TomlDoc)>, o: Seq<(String, TomlDoc)>|
        {
            &&& forall|k: Seq<char>|
                k != "engine"@ && k != "voice"@ && k != "speed"@ && k != "quality"@ ==> #[trigger] entry(n, k)
                    == entry(o, k)
            &&& as_str(entry(n, "engine"@)) == Some(engine)
            &&& as_str(entry(n, "voice"@)) == Some(voice)
            &&& entry(n, "speed"@) == Some(TomlDoc::Float(speed))
            &&& as_str(entry(n, "quality"@)) == Some(quality)
        }
}

/// Stores the default engine, voice, speed and quality under
/// `[tts.defaults]`, after checking each of them in that order.
pub fn set_tts_defaults(doc: TomlDoc, engine: &str, voice: &str, speed: u64, quality: &str) -> (r: Result<TomlDoc, WriteError>)
    ensures
        !valid_engine(engine@) ==> refused_with(r, "Invalid engine '"@ + engine@ + "'."@),
        valid_engine(engine@) && !valid_quality_name(quality@) ==> refused_with(
            r,
            "Invalid quality '"@ + quality@ + "'."@,
        ),
        valid_engine(engine@) && valid_quality_name(quality@) && !valid_speed(speed) ==> r matches Err(
            WriteError::InvalidSpeed,
        ),
        valid_engine(engine@) && valid_quality_name(quality@) && valid_speed(speed) && trim(voice@).len() == 0
            ==> refused_with(r, "Voice must be non-empty."@),
        valid_engine(engine@) && valid_quality_name(quality@) && valid_speed(speed) && trim(voice@).len() > 0
            ==> match doc {
            TomlDoc::Table(root) => r matches Ok(TomlDoc::Table(t)) && edited(
                t@,
                root@,
                seq!["tts"@, "defaults"@],
                cli_defaults_leaf(engine@, voice@, speed, quality@),
            ),
            _ => refused_with(r, "Config root is not a TOML table"@),
        },
{
    if !is_valid_engine(engine) {
        return Err(WriteError::Message(concat3("Invalid engine '", engine, "'.")));
    }
    if !is_valid_quality_name(quality) {
        return Err(WriteError::Message(concat3("Invalid quality '", quality, "'.")));
    }
    if !(float_le_bits(FLOAT_HALF, speed) && float_le_bits(speed, FLOAT_TWO)) {
        return Err(WriteError::InvalidSpeed);
    }
    if is_blank(voice) {
        return Err(WriteError::Message("Voice must be non-empty.".to_string()));
    }
    let mut root = match doc {
        TomlDoc::Table(t) => t,
        _ => {
            return Err(WriteError::Message("Config root is not a TOML table".to_string()));
        },
    };
    let ghost root0 = root@;
    let (first, mut second) = open_at(&mut root, "tts", "defaults");
    let ghost s0 = second@;
    let k1 = "engine".to_string();
    let ghost k1g = k1;
    let v1 = TomlDoc::Str(engine.to_string());
    let ghost v1g = v1;
    set_entry(&mut second, k1, v1);
    let ghost s1 = second@;
    let k2 = "voice".to_string();
    let ghost k2g = k2;
    let v2 = TomlDoc::Str(voice.to_string());
    let ghost v2g = v2;
    set_entry(&mut second, k2, v2);
    let ghost s2 = second@;
    let k3 = "speed".to_string();
    let ghost k3g = k3;
    set_entry(&mut second, k3, TomlDoc::Float(speed));
    let ghost s3 = second@;
    let k4 = "quality".to_string();
    let ghost k4g = k4;
    let v4 = TomlDoc::Str(quality.to_string());
    let ghost v4g = v4;
    set_entry(&mut second, k4, v4);
    let ghost s4 = second@;
    proof {
        lemma_default_keys_differ();
        assert forall|k: Seq<char>|
            k != "engine"@ && k != "voice"@ && k != "speed"@ && k != "quality"@ implies #[trigger] entry(s4, k)
                == entry(s0, k) by {
            lemma_with_entry(s0, k1g, v1g, k);
            lemma_with_entry(s1, k2g, v2g, k);
            lemma_with_entry(s2, k3g, TomlDoc::Float(speed), k);
            lemma_with_entry(s3, k4g, v4g, k);
        }
        lemma_with_entry(s0, k1g, v1g, "engine"@);
        lemma_with_entry(s1, k2g, v2g, "engine"@);
        lemma_with_entry(s2, k3g, TomlDoc::Float(speed), "engine"@);
        lemma_with_entry(s3, k4g, v4g, "engine"@);
        lemma_with_entry(s1, k2g, v2g, "voice"@);
        lemma_with_entry(s2, k3g, TomlDoc::Float(speed), "voice"@);
        lemma_with_entry(s3, k4g, v4g, "voice"@);
        lemma_with_entry(s2, k3g, TomlDoc::Float(speed), "speed"@);
        lemma_with_entry(s3, k4g, v4g, "speed"@);
        lemma_with_entry(s3, k4g, v4g, "quality"@);
    }
    let r = close_at(root, first, second, "tts", "defaults", Ghost(root0));
    proof {
        assert(s0 == sub_entries(sub_entries(root0, "tts"@), "defaults"@));
        assert(as_str(entry(s4, "engine"@)) == Some(engine@));
        assert(as_str(entry(s4, "voice"@)) == Some(voice@));
        assert(entry(s4, "speed"@) == Some(TomlDoc::Float(speed)));
        assert(as_str(entry(s4, "quality"@)) == Some(quality@));
        lemma_replaced_at_is_edit(
            r@,
            root0,
            "tts"@,
            "defaults"@,
            s4,
            cli_defaults_leaf(engine@, voice@, speed, quality@),
        );
    }
    Ok(TomlDoc::Table(r))
}

/// `new` is `old` with the table under `key` (created when missing or not
/// a table) edited so that `leaf` holds of it.
pub proof fn lemma_one_level_edit(
    old: Seq<(String, TomlDoc)>,
    taken: Seq<(String, TomlDoc)>,
    key: String,
    table: Vec<(String, TomlDoc)>,
    leaf: spec_fn(Seq<(String, TomlDoc)>, Seq<(String, TomlDoc)>) -> bool,
)
    requires
        taken_from(taken, old, key@),
        leaf(table@, sub_entries(old, key@)),
    ensures
        edited(with_entry(taken, key, TomlDoc::Table(table)), old, seq![key@], leaf),
{
    lemma_put_back(old, taken, key, TomlDoc::Table(table));
    reveal_with_fuel(edited, 2);
    assert(seq![key@].drop_first() =~= Seq::<Seq<char>>::empty());
}

/// Stores the assistant's default model.
pub fn set_assistant_model(doc: TomlDoc, model: &str) -> (r: Result<TomlDoc, String>)
    ensures
        trim(model@).len() == 0 ==> (r matches Err(m) && m@ == "Model must be non-empty."@),
        trim(model@).len() > 0 ==> match doc {
            TomlDoc::Table(root) => r matches Ok(TomlDoc::Table(t)) && edited(
                t@,
                root@,
                seq!["assistant"@],
                value_leaf("default_model"@, is_string(model@)),
            ),
            _ => r matches Err(m) && m@ == "Config root is not a TOML table"@,
        },
{
    if is_blank(model) {
        return Err("Model must be non-empty.".to_string());
    }
    let mut root = match doc {
        TomlDoc::Table(t) => t,
        _ => {
            return Err("Config root is not a TOML table".to_string());
        },
    };
    let ghost root0 = root@;
    let mut assistant = take_sub_entries(&mut root, "assistant");
    let ghost a0 = assistant@;
    let ghost taken = root@;
    let key = "default_model".to_string();
    let ghost key_g = key;
    let value = TomlDoc::Str(model.to_string());
    let ghost value_g = value;
    set_entry(&mut assistant, key, value);
    proof {
        lemma_with_entry(a0, key_g, value_g, "default_model"@);
        assert forall|k: Seq<char>| k != "default_model"@ implies #[trigger] entry(assistant@, k) == entry(a0, k) by {
            lemma_with_entry(a0, key_g, value_g, k);
        }
    }
    let name = "assistant".to_string();
    let ghost name_g = name;
    let ghost table_g = assistant;
    set_entry(&mut root, name, TomlDoc::Table(assistant));
    proof {
        lemma_one_level_edit(root0, taken, name_g, table_g, value_leaf("default_model"@, is_string(model@)));
    }
    Ok(TomlDoc::Table(root))
}

/// The level last given for tool `name` in `tools`.
pub open spec fn level_for(tools: Seq<(String, Option<String>)>, name: Seq<char>) -> Option<Seq<char>>
    decreases tools.len(),
{
    if tools.len() == 0 {
        None
    } else if tools.last().0@ == name {
        match tools.last().1 {
            Some(l) => Some(l@),
            None => None,
        }
    } else {
        level_for(tools.drop_last(), name)
    }
}

/// The first tool whose permission is not a string or not a known level.
pub open spec fn tools_input_problem(tools: Seq<(String, Option<String>)>, i: int) -> Option<Seq<char>>
    decreases tools.len() - i,
{
    if i < 0 || i >= tools.len() {
        None
    } else {
        match tools[i].1 {
            None => Some("tool '"@ + tools[i].0@ + "' permission must be a string"@),
            Some(l) => if !valid_permission(l@) {
                Some("Invalid permission '"@ + l@ + "' for tool '"@ + tools[i].0@ + "'"@)
            } else {
                tools_input_problem(tools, i + 1)
            },
        }
    }
}

/// `[assistant.tools]` becomes exactly the given permissions.
pub open spec fn tools_leaf(tools: Seq<(String, Option<String>)>) -> spec_fn(
    Seq<(String, TomlDoc)>,
    Seq<(String, TomlDoc)>,
) -> bool {
    |n: Seq<(String, TomlDoc)>, o: Seq<(String, TomlDoc)>|
        {
            &&& agrees_except(n, o, "tools"@)
            &&& as_table(entry(n, "tools"@)) matches Some(t) && forall|k: Seq<char>|
                #[trigger] as_str(entry(t, k)) == level_for(tools, k) && (entry(t, k) is Some ==> as_str(
                    entry(t, k),
                ) is Some)
        }
}

/// Replaces `[assistant.tools]` by the given permissions, each of which
/// must be a string naming a known level.
pub fn set_assistant_tools(doc: TomlDoc, tools: &Vec<(String, Option<String>)>) -> (r: Result<TomlDoc, String>)
    ensures
        tools_input_problem(tools@, 0) matches Some(p) ==> (r matches Err(m) && m@ == p),
        tools_input_problem(tools@, 0) is None ==> match doc {
            TomlDoc::Table(root) => r matches Ok(TomlDoc::Table(t)) && edited(
                t@,
                root@,
                seq!["assistant"@],
                tools_leaf(tools@),
            ),
            _ => r matches Err(m) && m@ == "Config root is not a TOML table"@,
        },
{
    let mut table: Vec<(String, TomlDoc)> = Vec::new();
    let mut i: usize = 0;
    while i < tools.len()
        invariant
            0 <= i <= tools@.len(),
            tools_input_problem(tools@, 0) == tools_input_problem(tools@, i as int),
            forall|k: Seq<char>|
                #[trigger] as_str(entry(table@, k)) == level_for(tools@.take(i as int), k) && (entry(table@, k) is Some
                    ==> as_str(entry(table@, k)) is Some),
        decreases tools@.len() - i,
    {
        let (name, level) = (&tools[i].0, &tools[i].1);
        match level {
            None => {
                return Err(concat3("tool '", name.as_str(), "' permission must be a string"));
            },
            Some(l) => {
                if !is_valid_permission(l.as_str()) {
                    return Err(
                        concat5("Invalid permission '", l.as_str(), "' for tool '", name.as_str(), "'"),
                    );
                }
                let ghost before = table@;
                let key = name.clone();
                let ghost key_g = key;
                let value = TomlDoc::Str(l.clone());
                let ghost value_g = value;
                set_entry(&mut table, key, value);
                proof {
                    assert(tools@.take(i + 1).drop_last() =~= tools@.take(i as int));
                    assert forall|k: Seq<char>|
                        #[trigger] as_str(entry(table@, k)) == level_for(tools@.take(i + 1), k) && (entry(table@, k) is Some
                            ==> as_str(entry(table@, k)) is Some) by {
                        lemma_with_entry(before, key_g, value_g, k);
                    }
                }
            },
        }
        i = i + 1;
    }
    assert(tools@.take(tools@.len() as int) =~= tools@);
    let mut root = match doc {
        TomlDoc::Table(t) => t,
        _ => {
            return Err("Config root is not a TOML table".to_string());
        },
    };
    let ghost root0 = root@;
    let mut assistant = take_sub_entries(&mut root, "assistant");
    let ghost a0 = assistant@;
    let ghost taken = root@;
    let key = "tools".to_string();
    let ghost key_g = key;
    let ghost value_g = TomlDoc::Table(table);
    set_entry(&mut assistant, key, TomlDoc::Table(table));
    proof {
        lemma_with_entry(a0, key_g, value_g, "tools"@);
        assert forall|k: Seq<char>| k != "tools"@ implies #[trigger] entry(assistant@, k) == entry(a0, k) by {
            lemma_with_entry(a0, key_g, value_g, k);
        }
    }
    let name = "assistant".to_string();
    let ghost name_g = name;
    let ghost table_g = assistant;
    set_entry(&mut root, name, TomlDoc::Table(assistant));
    proof {
        lemma_one_level_edit(root0, taken, name_g, table_g, tools_leaf(tools@));
    }
    Ok(TomlDoc::Table(root))
}

// ---------------------------------------------------------------------------
// Cycling through voices and models
// ---------------------------------------------------------------------------

/// Index of the first `x` in `s[k..]`, if any.
pub open spec fn first_index_from(s: Seq<Seq<char>>, x: Seq<char>, k: int) -> Option<int>
    decreases s.len() - k,
{
    if k < 0 || k >= s.len() {
        None
    } else if s[k] == x {
        Some(k)
    } else {
        first_index_from(s, x, k + 1)
    }
}

/// Where a cycle through `names` moves from `current`: the entry after (or
/// before) its first occurrence, wrapping around, or the first entry when
/// `current` is not listed.
pub open spec fn spec_cycle(names: Seq<Seq<char>>, current: Seq<char>, forward: bool) -> int {
    let n = names.len() as int;
    match first_index_from(names, current, 0) {
        Some(i) => if forward {
            (i + 1) % n
        } else {
            (i + n - 1) % n
        },
        None => 0,
    }
}

/// The index a `next` (`forward`) or `prev` cycle selects; `None` when
/// there is nothing to choose from.
pub fn cycle_index(names: &Vec<String>, current: &str, forward: bool) -> (r: Option<usize>)
    ensures
        names@.len() == 0 ==> r is None,
        names@.len() > 0 ==> r == Some(spec_cycle(views(names@), current@, forward) as usize),
{
    let n = names.len();
    if n == 0 {
        return None;
    }
    let ghost vs = views(names@);
    let mut k: usize = 0;
    while k < n
        invariant
            0 <= k <= n == names@.len(),
            vs == views(names@),
            first_index_from(vs, current@, 0) == first_index_from(vs, current@, k as int),
        decreases n - k,
    {
        assert(vs[k as int] == names@[k as int]@);
        if str_eq(names[k].as_str(), current) {
            assert(first_index_from(vs, current@, k as int) == Some(k as int));
            if forward {
                return Some((k + 1) % n);
            }
            proof {
                if k == 0 {
                    vstd::arithmetic::div_mod::lemma_small_mod((n - 1) as nat, n as nat);
                } else {
                    vstd::arithmetic::div_mod::lemma_mod_add_multiples_vanish((k - 1) as int, n as int);
                    vstd::arithmetic::div_mod::lemma_small_mod((k - 1) as nat, n as nat);
                }
            }
            return Some(if k == 0 {
                n - 1
            } else {
                k - 1
            });
        }
        k = k + 1;
    }
    Some(0)
}

/// The built-in defaults of the command-line tool, as TOML text.
pub const CLI_DEFAULTS: &'static str = r#"
version = 1

[ipc]
stt_cmd = "ipc:///tmp/neuropipe_cmd.sock"
stt_pub = "ipc:///tmp/neuropipe_pub.sock"
tts_cmd = "ipc:///tmp/neuropipe_tts_cmd.sock"
tts_events = "ipc:///tmp/neuropipe_tts_events.sock"
assistant_cmd = "ipc:///tmp/neuropipe_assistant_cmd.sock"

[stt]
mode = "IDLE"
model = "nemo-parakeet-tdt-0.6b-v3"
vad_threshold = 0.5
digital_gain = 3.0
silence_timeout_sec = 1.0
model_idle_timeout_sec = 60

[tts.defaults]
engine = "kokoro"
voice = "af_bella"
speed = 1.0
quality = "high"
idle_timeout_sec = 60

[tts.favorites]
kokoro = []
pocket_tts = []
supertonic_3 = []

[assistant]
default_model = "gemma4:cloud"
history_idle_timeout_sec = 3600

[assistant.favorites]
models = []

[assistant.memory]
enabled_local = true
enabled_cloud = false
summarize_on_idle = true
summarize_on_stop = true
max_summary_chars = 1200
retrieve_top_k = 4
qdrant_path = "~/.local/share/neuropipe/memory/qdrant"
collection = "assistant_memory"
embedding_model = "all-minilm"

[assistant.instructions]
system_prompt = """
You are a helpful AI voice assistant.
Keep answers short and conversational.
This is a voice-to-voice conversation: assume the user replies by speaking, not typing.
If you need confirmation (for example before using a tool in ask mode), request a spoken yes/no response and never ask the user to type.
/set nothink
"""
tool_usage_policy = """
When the user asks about something a tool can help with,
call the appropriate tool automatically.
If a tool is in ask mode, request spoken permission (yes/no)
and continue based on the user's voice response.
Do not ask the user to type permission commands.
"""

[assistant.tools]
open_url = "ask"
screenshot = "ask"
web_search = "ask"
"#;

/// The built-in defaults as a document (see `toml_document`).
pub fn default_cli_doc() -> (r: Result<TomlDoc, String>)
    ensures
        parse_view(r) == toml_document(CLI_DEFAULTS@),
{
    parse_toml(CLI_DEFAULTS)
}

/// The names a `next`/`prev` cycle runs over: the favorites when there
/// are any, else every available name.
pub fn cycle_candidates(favorites: Vec<String>, available: Vec<String>) -> (r: Vec<String>)
    ensures
        favorites@.len() > 0 ==> r@ == favorites@,
        favorites@.len() == 0 ==> r@ == available@,
{
    if favorites.len() > 0 {
        favorites
    } else {
        available
    }
}

/// The problem a tool level `v` for tool `name` gives (see
/// `tools_problem_from`).
pub open spec fn tool_level_problem(name: Seq<char>, v: TomlDoc) -> Option<Seq<char>> {
    match as_str(Some(v)) {
        None => Some("root.assistant.tools."@ + name + " must be a string"@),
        Some(level) => if !valid_permission(level) {
            Some("Invalid permission '"@ + level + "' for tool '"@ + name + "'"@)
        } else {
            None
        },
    }
}

/// A tool table without problems has none from any position on.
proof fn lemma_tools_fine_from(t: Seq<(String, TomlDoc)>, j: int, m: int)
    requires
        0 <= j <= m,
        tools_problem_from(t, j) is None,
    ensures
        tools_problem_from(t, m) is None,
    decreases m - j,
{
    if j < m && j < t.len() {
        lemma_tools_fine_from(t, j + 1, m);
    }
}

/// Over entries that agree with a table without problems, the scan passes
/// through unchanged.
proof fn lemma_tools_same_span(t: Seq<(String, TomlDoc)>, t2: Seq<(String, TomlDoc)>, j: int, k: int)
    requires
        0 <= j <= k <= t.len(),
        k <= t2.len(),
        forall|m: int| j <= m < k ==> t2[m] == t[m],
        tools_problem_from(t, j) is None,
    ensures
        tools_problem_from(t2, j) == tools_problem_from(t2, k),
    decreases k - j,
{
    if j < k {
        lemma_tools_same_span(t, t2, j + 1, k);
    }
}

/// Setting one tool's level in a tool table without problems: the table's
/// problem is then that of the new level alone.
pub proof fn lemma_tool_level_set(t: Seq<(String, TomlDoc)>, name: String, v: TomlDoc)
    requires
        tools_problem_from(t, 0) is None,
    ensures
        tools_problem_from(with_entry(t, name, v), 0) == tool_level_problem(name@, v),
{
    let t2 = with_entry(t, name, v);
    crate::toml_doc::lemma_find_key_from(t, name@, 0);
    match find_key(t, name@) {
        Some(i) => {
            lemma_tools_fine_from(t, 0, i + 1);
            lemma_tools_same_span(t, t2, 0, i);
            lemma_tools_same_span(t, t2, i + 1, t.len() as int);
            assert(tools_problem_from(t2, t.len() as int) is None);
        },
        None => {
            lemma_tools_same_span(t, t2, 0, t.len() as int);
            assert(tools_problem_from(t2, t.len() as int + 1) is None);
        },
    }
}

/// Setting one tool's permission level in a valid configuration document
/// (`cfg2` differs from `cfg` only in `root.assistant.tools.<name>`, now
/// `v`): the document stays valid exactly when `v` is `allow`, `ask` or
/// `deny`; otherwise its problem is the one for that tool.
pub proof fn lemma_valid_document_tool_set(
    cfg: TomlDoc,
    cfg2: TomlDoc,
    assistant2: Seq<(String, TomlDoc)>,
    name: String,
    v: TomlDoc,
)
    requires
        validation_problem(cfg) is None,
        cfg2 is Table,
        forall|k: Seq<char>| k != "assistant"@ ==> #[trigger] entry(root_of(cfg2), k) == entry(root_of(cfg), k),
        as_table(entry(root_of(cfg2), "assistant"@)) == Some(assistant2),
        forall|k: Seq<char>| k != "tools"@ ==> #[trigger] entry(assistant2, k) == entry(
            sub_entries(root_of(cfg), "assistant"@),
            k,
        ),
        as_table(entry(assistant2, "tools"@)) == Some(
            with_entry(sub_entries(sub_entries(root_of(cfg), "assistant"@), "tools"@), name, v),
        ),
    ensures
        validation_problem(cfg2) == tool_level_problem(name@, v),
{
    let root = root_of(cfg);
    let root2 = root_of(cfg2);
    let a = sub_entries(root, "assistant"@);
    reveal_strlit("assistant");
    reveal_strlit("tools");
    reveal_strlit("version");
    reveal_strlit("ipc");
    reveal_strlit("stt");
    reveal_strlit("tts");
    reveal_strlit("default_model");
    reveal_strlit("history_idle_timeout_sec");
    reveal_strlit("memory");
    reveal_strlit("instructions");
    reveal_strlit("favorites");
    assert(entry(root2, "version"@) == entry(root, "version"@));
    assert("ipc"@.len() != "assistant"@.len());
    assert("stt"@.len() != "assistant"@.len());
    assert("tts"@.len() != "assistant"@.len());
    assert(entry(root2, "ipc"@) == entry(root, "ipc"@));
    assert(entry(root2, "stt"@) == entry(root, "stt"@));
    assert(entry(root2, "tts"@) == entry(root, "tts"@));
    assert("memory"@.len() != "tools"@.len());
    assert("instructions"@.len() != "tools"@.len());
    assert("default_model"@.len() != "tools"@.len());
    assert("favorites"@.len() != "tools"@.len());
    assert(entry(assistant2, "default_model"@) == entry(a, "default_model"@));
    assert(entry(assistant2, "history_idle_timeout_sec"@) == entry(a, "history_idle_timeout_sec"@));
    assert(entry(assistant2, "memory"@) == entry(a, "memory"@));
    assert(entry(assistant2, "instructions"@) == entry(a, "instructions"@));
    assert(entry(assistant2, "favorites"@) == entry(a, "favorites"@));
    lemma_tool_level_set(sub_entries(a, "tools"@), name, v);
}

/// The entries of a document's root table (none when it is not a table).
pub open spec fn root_of(doc: TomlDoc) -> Seq<(String, TomlDoc)> {
    match doc {
        TomlDoc::Table(t) => t@,
        _ => Seq::empty(),
    }
}

} // verus!
