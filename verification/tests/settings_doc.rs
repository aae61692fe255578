use neuropipe::services::Service;
use neuropipe::settings::{
    add_favorite, favorites_key, remove_favorite, set_tts_defaults, set_tts_idle_timeout,
    set_tts_quality, set_tts_speed, tts_defaults_from, tts_favorite_voices_from,
    tts_idle_timeout_from, tts_quality_from, tts_speed_from, SettingsError, DEFAULT_ENGINE,
    DEFAULT_IDLE_TIMEOUT_SEC, DEFAULT_QUALITY, DEFAULT_SPEED, DEFAULT_VOICE,
};
use neuropipe::toml_doc::{get_bool, get_int, get_table, merge_docs, TomlDoc};
use neuropipe::voices::{list_voices, sort_names, voice_source, VoiceSource, ENGINES};

fn table(entries: Vec<(&str, TomlDoc)>) -> TomlDoc {
    TomlDoc::Table(entries.into_iter().map(|(k, v)| (k.to_string(), v)).collect())
}

fn text(s: &str) -> TomlDoc {
    TomlDoc::Str(s.to_string())
}

fn float(x: f64) -> TomlDoc {
    TomlDoc::Float(x.to_bits())
}

/// The document of a freshly installed configuration file.
fn installed_doc() -> TomlDoc {
    table(vec![(
        "tts",
        table(vec![(
            "defaults",
            table(vec![
                ("engine", text("kokoro")),
                ("voice", text("af_bella")),
                ("quality", text("high")),
                ("idle_timeout_sec", TomlDoc::Int(60)),
                ("speed", float(1.0)),
            ]),
        )]),
    )])
}

#[test]
fn defaults_fall_back_when_missing() {
    let doc = table(vec![]);
    let (engine, voice) = tts_defaults_from(&doc);
    assert_eq!(engine, DEFAULT_ENGINE);
    assert_eq!(voice, DEFAULT_VOICE);
}

#[test]
fn defaults_read_from_doc() {
    let doc = table(vec![(
        "tts",
        table(vec![("defaults", table(vec![("engine", text("supertonic-3")), ("voice", text("M3"))]))]),
    )]);
    let (engine, voice) = tts_defaults_from(&doc);
    assert_eq!(engine, "supertonic-3");
    assert_eq!(voice, "M3");
}

#[test]
fn speed_resolves_per_engine_then_fallback() {
    let doc = table(vec![(
        "tts",
        table(vec![
            ("defaults", table(vec![("speed", float(1.0))])),
            ("speeds", table(vec![("kokoro", float(1.1))])),
        ]),
    )]);
    assert_eq!(f64::from_bits(tts_speed_from(&doc, "kokoro")), 1.1);
    assert_eq!(f64::from_bits(tts_speed_from(&doc, "pocket-tts")), 1.0);
}

#[test]
fn quality_resolves_per_engine_then_fallback() {
    let doc = table(vec![(
        "tts",
        table(vec![
            ("defaults", table(vec![("quality", text("high"))])),
            ("qualities", table(vec![("kokoro", text("low"))])),
        ]),
    )]);
    assert_eq!(tts_quality_from(&doc, "kokoro"), "low");
    assert_eq!(tts_quality_from(&doc, "pocket-tts"), "high");
}

#[test]
fn persist_roundtrip() {
    let doc = installed_doc();
    let doc = set_tts_speed(doc, "kokoro", 1.25f64.to_bits()).unwrap();
    let doc = set_tts_quality(doc, "kokoro", "low").unwrap();
    let doc = set_tts_idle_timeout(doc, 120).unwrap();

    assert_eq!(f64::from_bits(tts_speed_from(&doc, "kokoro")), 1.25);
    assert_eq!(tts_quality_from(&doc, "kokoro"), "low");
    assert_eq!(tts_quality_from(&doc, "pocket-tts"), "high");
    assert_eq!(tts_idle_timeout_from(&doc), 120);

    let (engine, voice) = tts_defaults_from(&doc);
    assert_eq!(engine, "kokoro");
    assert_eq!(voice, "af_bella");
}

#[test]
fn favorites_roundtrip_with_engine_key_normalization() {
    let doc = installed_doc();
    assert!(tts_favorite_voices_from(&doc, "kokoro").is_empty());
    let doc = add_favorite(doc, "kokoro", "af_bella").unwrap();
    let doc = add_favorite(doc, "kokoro", "af_heart").unwrap();
    let doc = add_favorite(doc, "kokoro", "af_bella").unwrap();
    let doc = add_favorite(doc, "pocket-tts", "v2/en_SZ").unwrap();

    let kokoro = tts_favorite_voices_from(&doc, "kokoro");
    assert_eq!(kokoro, ["af_bella".to_string(), "af_heart".to_string()]);
    assert_eq!(tts_favorite_voices_from(&doc, "pocket-tts"), ["v2/en_SZ".to_string()]);
    assert!(tts_favorite_voices_from(&doc, "supertonic-3").is_empty());

    let doc = remove_favorite(doc, "kokoro", "af_bella").unwrap();
    assert_eq!(tts_favorite_voices_from(&doc, "kokoro"), ["af_heart".to_string()]);
    let doc = remove_favorite(doc, "kokoro", "af_heart").unwrap();
    assert!(tts_favorite_voices_from(&doc, "kokoro").is_empty());
}

#[test]
fn settings_errors_for_each_invalid_write() {
    assert_eq!(set_tts_speed(installed_doc(), "kokoro", 2.5f64.to_bits()).unwrap_err(), SettingsError::InvalidSpeed);
    assert_eq!(set_tts_speed(installed_doc(), "kokoro", 0.25f64.to_bits()).unwrap_err(), SettingsError::InvalidSpeed);
    assert_eq!(set_tts_speed(installed_doc(), "kokoro", f64::NAN.to_bits()).unwrap_err(), SettingsError::InvalidSpeed);
    assert_eq!(set_tts_quality(installed_doc(), "kokoro", "medium").unwrap_err(), SettingsError::InvalidQuality);
    assert_eq!(set_tts_idle_timeout(installed_doc(), 0).unwrap_err(), SettingsError::IdleTimeoutTooShort);
    assert_eq!(set_tts_defaults(installed_doc(), "", "af_bella").unwrap_err(), SettingsError::EmptyEngineOrVoice);
    assert_eq!(add_favorite(installed_doc(), "kokoro", "").unwrap_err(), SettingsError::EmptyEngineOrVoice);
    assert_eq!(remove_favorite(installed_doc(), "", "x").unwrap_err(), SettingsError::EmptyEngineOrVoice);
    assert_eq!(set_tts_speed(TomlDoc::Int(3), "kokoro", 1.0f64.to_bits()).unwrap_err(), SettingsError::RootNotTable);
}

#[test]
fn speed_bounds_are_inclusive() {
    assert!(set_tts_speed(installed_doc(), "kokoro", 0.5f64.to_bits()).is_ok());
    assert!(set_tts_speed(installed_doc(), "kokoro", 2.0f64.to_bits()).is_ok());
}

#[test]
fn defaults_write_then_read() {
    let doc = set_tts_defaults(installed_doc(), "pocket-tts", "alba").unwrap();
    let (engine, voice) = tts_defaults_from(&doc);
    assert_eq!(engine, "pocket-tts");
    assert_eq!(voice, "alba");
    assert_eq!(tts_quality_from(&doc, "pocket-tts"), "high");
}

#[test]
fn idle_timeout_falls_back_and_clamps() {
    assert_eq!(tts_idle_timeout_from(&table(vec![])), DEFAULT_IDLE_TIMEOUT_SEC);
    let doc = table(vec![("tts", table(vec![("defaults", table(vec![("idle_timeout_sec", TomlDoc::Int(-5))]))]))]);
    assert_eq!(tts_idle_timeout_from(&doc), 1);
}

#[test]
fn speed_and_quality_defaults_when_document_is_empty() {
    let doc = table(vec![]);
    assert_eq!(tts_speed_from(&doc, "kokoro"), DEFAULT_SPEED);
    assert_eq!(tts_quality_from(&doc, "kokoro"), DEFAULT_QUALITY);
}

#[test]
fn favorites_key_uses_underscores() {
    assert_eq!(favorites_key("pocket-tts"), "pocket_tts");
    assert_eq!(favorites_key("supertonic-3"), "supertonic_3");
    assert_eq!(favorites_key("kokoro"), "kokoro");
}

#[test]
fn writes_replace_a_non_table_section() {
    let doc = table(vec![("tts", text("oops"))]);
    let doc = set_tts_quality(doc, "kokoro", "low").unwrap();
    assert_eq!(tts_quality_from(&doc, "kokoro"), "low");
}

#[test]
fn labels_and_units_match_installer() {
    assert_eq!(Service::Stt.unit_name(), "neuropipe-stt.service");
    assert_eq!(Service::Assistant.unit_name(), "neuropipe-assistant.service");
    assert_eq!(Service::Tts.unit_name(), "neuropipe-tts.service");
    assert_eq!(Service::Stt.label(), "STT");
    assert_eq!(Service::Assistant.label(), "Assistant");
    assert_eq!(Service::Tts.label(), "TTS");
}

#[test]
fn installed_is_subset_of_all_and_ordered() {
    let installed = Service::installed([true, true, true]);
    for s in &installed {
        assert!(Service::ALL.contains(s), "unexpected service {s:?}");
    }
    assert!(installed.len() <= Service::ALL.len());
    for (i, s) in installed.iter().enumerate() {
        assert_eq!(*s, Service::ALL[i], "tab order diverged at index {i}");
    }
}

#[test]
fn partial_install_keeps_tab_order() {
    assert_eq!(Service::installed([true, false, true]), vec![Service::Stt, Service::Tts]);
    assert!(Service::installed([false, false, false]).is_empty());
}

#[test]
fn engines_are_fixed_and_valid() {
    assert_eq!(ENGINES, ["kokoro", "pocket-tts", "supertonic-3"]);
}

#[test]
fn unsupported_engine_yields_no_voices() {
    assert!(list_voices("bogus", &vec!["x.json".to_string()]).is_empty());
}

#[test]
fn voices_are_listed_by_extension_and_sorted() {
    let entries = vec!["b.safetensors".to_string(), "readme.txt".to_string(), "a.safetensors".to_string()];
    assert_eq!(list_voices("pocket-tts", &entries), vec!["a", "b"]);
    let styles = vec!["M3.json".to_string(), "F1.json".to_string()];
    assert_eq!(list_voices("supertonic-3", &styles), vec!["F1", "M3"]);
    let archive = vec!["af_heart.npy".to_string(), "af_bella.npy".to_string()];
    assert_eq!(list_voices("kokoro", &archive), vec!["af_bella", "af_heart"]);
}

#[test]
fn voice_sources_per_engine() {
    assert_eq!(voice_source("kokoro"), Some(VoiceSource::KokoroArchive));
    assert_eq!(voice_source("pocket-tts"), Some(VoiceSource::PocketVoices));
    assert_eq!(voice_source("supertonic-3"), Some(VoiceSource::SupertonicStyles));
    assert_eq!(voice_source("bogus"), None);
}

#[test]
fn sort_names_orders_by_bytes() {
    let sorted = sort_names(vec!["b".to_string(), "B".to_string(), "a".to_string(), "ab".to_string()]);
    assert_eq!(sorted, vec!["B", "a", "ab", "b"]);
}

#[test]
fn merge_overrides_keys_and_keeps_defaults() {
    let defaults = table(vec![
        ("a", TomlDoc::Int(1)),
        ("t", table(vec![("x", TomlDoc::Int(1)), ("y", TomlDoc::Int(2))])),
    ]);
    let incoming = table(vec![
        ("t", table(vec![("y", TomlDoc::Int(3))])),
        ("b", TomlDoc::Bool(true)),
    ]);
    let merged = merge_docs(defaults, incoming);
    let entries = match &merged {
        TomlDoc::Table(e) => e,
        other => panic!("not a table: {other:?}"),
    };
    assert_eq!(get_int(entries, "a"), Some(1));
    assert_eq!(get_bool(entries, "b"), Some(true));
    let t = get_table(entries, "t").expect("t stays a table");
    assert_eq!(get_int(t, "x"), Some(1));
    assert_eq!(get_int(t, "y"), Some(3));
    assert_eq!(entries.len(), 3);
}

#[test]
fn merge_replaces_a_table_with_a_scalar() {
    let defaults = table(vec![("t", table(vec![("x", TomlDoc::Int(1))]))]);
    let incoming = table(vec![("t", TomlDoc::Int(7))]);
    let merged = merge_docs(defaults, incoming);
    match &merged {
        TomlDoc::Table(e) => assert_eq!(get_int(e, "t"), Some(7)),
        other => panic!("not a table: {other:?}"),
    }
    let scalar = merge_docs(TomlDoc::Int(1), table(vec![]));
    assert!(matches!(scalar, TomlDoc::Table(ref e) if e.is_empty()));
}
