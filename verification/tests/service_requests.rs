use neuropipe::cli_config::{
    cycle_index,
    favorite_models, favorite_voices_for_engine, set_assistant_model, set_assistant_tools,
    set_tts_defaults, validate_document, WriteError,
};
use neuropipe::ipc::{defaults, idle, load_from_config, record_start, vad};
use neuropipe::pocket::{copy_prefix_allowed, copy_prefix, copy_prefix_bool, copy_prefix_i64, split_text, Piece, Precision, Tokenizer};
use neuropipe::sentences::Quality;
use neuropipe::toml_doc::{get_value, TomlDoc};
use neuropipe::tts_service::{
    command_of, engine_plan, is_custom_voice, model_dir, should_release, speak_request,
    state_request, voice_verdict, warm_quality, Command, EnginePlan, Generations, RequestError,
    TtsDefaults, VoiceError,
};

fn table(entries: Vec<(&str, TomlDoc)>) -> TomlDoc {
    TomlDoc::Table(entries.into_iter().map(|(k, v)| (k.to_string(), v)).collect())
}

fn text(s: &str) -> TomlDoc {
    TomlDoc::Str(s.to_string())
}

fn strings(items: &[&str]) -> TomlDoc {
    TomlDoc::Array(items.iter().map(|s| text(s)).collect())
}

fn tts_defaults() -> TtsDefaults {
    TtsDefaults {
        engine: "kokoro".to_string(),
        voice: "af_bella".to_string(),
        speed: 1.0f64.to_bits(),
        quality: "high".to_string(),
    }
}

#[test]
fn commands_are_recognised_by_name() {
    assert_eq!(command_of(Some("speak")), Command::Speak);
    assert_eq!(command_of(Some("reload_config")), Command::ReloadConfig);
    assert_eq!(command_of(Some("stop")), Command::Stop);
    assert_eq!(command_of(Some("warm")), Command::Warm);
    assert_eq!(command_of(Some("get_state")), Command::GetState);
    assert_eq!(command_of(Some("list_voices")), Command::ListVoices);
    assert_eq!(command_of(Some("set_state")), Command::SetState);
    assert_eq!(command_of(Some("dance")), Command::Unknown);
    assert_eq!(command_of(None), Command::Missing);
}

#[test]
fn speak_request_takes_defaults_for_missing_fields() {
    let req = speak_request(&tts_defaults(), None, Some("Hello."), None, None, None).unwrap();
    assert_eq!(req.engine, "kokoro");
    assert_eq!(req.text, "Hello.");
    assert_eq!(req.voice, "af_bella");
    assert_eq!(f64::from_bits(req.speed), 1.0);
    assert_eq!(req.quality, Quality::High);
    let req = speak_request(&tts_defaults(), Some("pocket-tts"), Some("Hi"), Some("alba"), Some(0.5f64.to_bits()), Some("low")).unwrap();
    assert_eq!(req.engine, "pocket-tts");
    assert_eq!(req.voice, "alba");
    assert_eq!(req.quality, Quality::Low);
}

#[test]
fn speak_request_errors_in_order() {
    let d = tts_defaults();
    assert_eq!(speak_request(&d, Some("supertonic-3"), None, None, Some(9.0f64.to_bits()), Some("x")).unwrap_err(), RequestError::UnsupportedEngine);
    assert_eq!(speak_request(&d, None, Some("   "), None, Some(9.0f64.to_bits()), Some("x")).unwrap_err(), RequestError::MissingText);
    assert_eq!(speak_request(&d, None, None, None, None, None).unwrap_err(), RequestError::MissingText);
    assert_eq!(speak_request(&d, None, Some("Hi"), None, Some(9.0f64.to_bits()), Some("x")).unwrap_err(), RequestError::InvalidQuality);
    assert_eq!(speak_request(&d, None, Some("Hi"), None, Some(2.5f64.to_bits()), None).unwrap_err(), RequestError::InvalidSpeed);
    assert_eq!(speak_request(&d, None, Some("Hi"), None, Some(f64::NAN.to_bits()), None).unwrap_err(), RequestError::InvalidSpeed);
    assert_eq!(RequestError::UnsupportedEngine.message(), "Unsupported Rust TTS engine");
    assert_eq!(RequestError::MissingText.message(), "Missing text");
    assert_eq!(RequestError::InvalidQuality.message(), "Invalid quality");
    assert_eq!(RequestError::InvalidSpeed.message(), "Invalid speed");
}

#[test]
fn state_request_checks_quality_first() {
    let d = tts_defaults();
    assert_eq!(state_request(&d, Some("bogus"), None, Some(9.0f64.to_bits()), Some("mid")).unwrap_err(), RequestError::InvalidQuality);
    assert_eq!(state_request(&d, Some("bogus"), None, Some(9.0f64.to_bits()), None).unwrap_err(), RequestError::UnsupportedEngine);
    assert_eq!(state_request(&d, None, None, Some(0.4f64.to_bits()), None).unwrap_err(), RequestError::InvalidSpeed);
    let next = state_request(&d, Some("pocket-tts"), Some("alba"), Some(2.0f64.to_bits()), Some("low")).unwrap();
    assert_eq!(next.engine, "pocket-tts");
    assert_eq!(next.voice, "alba");
    assert_eq!(f64::from_bits(next.speed), 2.0);
    assert_eq!(next.quality, "low");
}

#[test]
fn warm_reads_the_quality_name() {
    assert_eq!(warm_quality(&tts_defaults(), None), Some(Quality::High));
    assert_eq!(warm_quality(&tts_defaults(), Some("low")), Some(Quality::Low));
    assert_eq!(warm_quality(&tts_defaults(), Some("best")), None);
}

#[test]
fn voices_are_checked_by_kind() {
    let listed = vec!["af_bella".to_string(), "af_heart".to_string()];
    assert!(is_custom_voice("~/voices/me.safetensors"));
    assert!(!is_custom_voice("af_bella"));
    assert_eq!(voice_verdict("kokoro", "af_heart", false, &listed), Ok(()));
    assert_eq!(voice_verdict("kokoro", "nobody", false, &listed), Err(VoiceError::NotAvailable));
    assert_eq!(voice_verdict("kokoro", "me.safetensors", true, &listed), Err(VoiceError::CustomNeedsPocket));
    assert_eq!(voice_verdict("pocket-tts", "me.safetensors", false, &listed), Err(VoiceError::FileNotFound));
    assert_eq!(voice_verdict("pocket-tts", "me.safetensors", true, &vec![]), Ok(()));
}

#[test]
fn engine_plans() {
    assert_eq!(engine_plan(Some("kokoro"), Some(Quality::High), true, "kokoro", Quality::High), EnginePlan::Ready);
    assert_eq!(engine_plan(Some("kokoro"), Some(Quality::High), true, "kokoro", Quality::Low), EnginePlan::Reload { set_quality: true });
    assert_eq!(engine_plan(Some("kokoro"), None, true, "kokoro", Quality::Low), EnginePlan::Reload { set_quality: true });
    assert_eq!(engine_plan(Some("kokoro"), Some(Quality::High), false, "kokoro", Quality::Low), EnginePlan::Create);
    assert_eq!(engine_plan(Some("kokoro"), Some(Quality::High), true, "pocket-tts", Quality::High), EnginePlan::Create);
    assert_eq!(engine_plan(None, None, false, "espeak", Quality::High), EnginePlan::Unsupported);
    assert_eq!(model_dir("pocket-tts"), ".local/share/neuropipe/models/pocket-tts");
    assert_eq!(model_dir("kokoro"), ".local/share/neuropipe/models/kokoro");
    assert_eq!(model_dir("other"), ".local/share/neuropipe/models/kokoro");
}

#[test]
fn idle_engines_are_released_only_when_quiet() {
    assert!(should_release(60_000, 60, false, false, true));
    assert!(!should_release(59_999, 60, false, false, true));
    assert!(!should_release(120_000, 60, true, false, true));
    assert!(!should_release(120_000, 60, false, true, true));
    assert!(!should_release(120_000, 60, false, false, false));
}

#[test]
fn stop_makes_queued_work_stale() {
    let mut g = Generations::new();
    let tag = g.enqueue();
    assert!(g.generating);
    assert_eq!(g.pending, 1);
    assert!(g.is_current(tag));
    g.stop();
    assert!(!g.is_current(tag));
    let next = g.enqueue();
    assert!(g.is_current(next));
    g.request_done();
    assert!(g.generating);
    g.request_done();
    assert!(!g.generating);
    assert_eq!(g.pending, 0);
    g.enqueue();
    g.enqueue_failed();
    assert!(!g.generating);
    assert_eq!(g.pending, 0);
}

fn valid_config() -> TomlDoc {
    table(vec![
        ("version", TomlDoc::Int(1)),
        (
            "ipc",
            table(vec![
                ("stt_cmd", text("ipc:///tmp/a.sock")),
                ("stt_pub", text("ipc:///tmp/b.sock")),
                ("tts_cmd", text("ipc:///tmp/c.sock")),
                ("tts_events", text("ipc:///tmp/d.sock")),
                ("assistant_cmd", text("ipc:///tmp/e.sock")),
            ]),
        ),
        (
            "stt",
            table(vec![
                ("vad_threshold", TomlDoc::Float(0.5f64.to_bits())),
                ("digital_gain", TomlDoc::Int(1)),
                ("silence_timeout_sec", TomlDoc::Float(1.0f64.to_bits())),
                ("model_idle_timeout_sec", TomlDoc::Int(60)),
            ]),
        ),
        (
            "tts",
            table(vec![
                (
                    "defaults",
                    table(vec![
                        ("engine", text("kokoro")),
                        ("quality", text("high")),
                        ("speed", TomlDoc::Float(1.0f64.to_bits())),
                        ("voice", text("af_bella")),
                        ("idle_timeout_sec", TomlDoc::Int(60)),
                    ]),
                ),
                ("favorites", table(vec![("pocket-tts", strings(&["alba"])), ("kokoro", strings(&["af_heart"]))])),
            ]),
        ),
        (
            "assistant",
            table(vec![
                ("default_model", text("llama3")),
                ("history_idle_timeout_sec", TomlDoc::Int(300)),
                (
                    "memory",
                    table(vec![
                        ("enabled_local", TomlDoc::Bool(true)),
                        ("enabled_cloud", TomlDoc::Bool(false)),
                        ("summarize_on_idle", TomlDoc::Bool(true)),
                        ("summarize_on_stop", TomlDoc::Bool(true)),
                        ("max_summary_chars", TomlDoc::Int(1200)),
                        ("retrieve_top_k", TomlDoc::Int(4)),
                        ("qdrant_path", text("~/q")),
                        ("collection", text("mem")),
                        ("embedding_model", text("nomic")),
                    ]),
                ),
                (
                    "instructions",
                    table(vec![("system_prompt", text("Be brief.")), ("tool_usage_policy", text("Ask first."))]),
                ),
                ("tools", table(vec![("web", text("allow"))])),
                ("favorites", table(vec![("models", strings(&["llama3", "qwen3"]))])),
            ]),
        ),
    ])
}

#[test]
fn a_complete_document_validates() {
    assert_eq!(validate_document(&valid_config()), Ok(()));
}

#[test]
fn validation_reports_the_first_problem() {
    assert_eq!(validate_document(&TomlDoc::Int(1)), Err("root must be a table".to_string()));
    assert_eq!(validate_document(&table(vec![])), Err("root.version must be an integer".to_string()));
    assert_eq!(
        validate_document(&table(vec![("version", TomlDoc::Int(0))])),
        Err("root.version must be >= 1".to_string())
    );
    assert_eq!(
        validate_document(&table(vec![("version", TomlDoc::Int(1))])),
        Err("root.ipc must be a table".to_string())
    );
    assert_eq!(
        validate_document(&table(vec![("version", TomlDoc::Int(1)), ("ipc", table(vec![("stt_cmd", text("tcp://x"))]))])),
        Err("root.ipc.stt_cmd must start with 'ipc://'".to_string())
    );
}

#[test]
fn favorites_are_read_by_engine_key() {
    let cfg = valid_config();
    assert_eq!(favorite_voices_for_engine(&cfg, "kokoro"), Ok(vec!["af_heart".to_string()]));
    assert_eq!(favorite_voices_for_engine(&cfg, "pocket-tts"), Ok(vec!["alba".to_string()]));
    assert_eq!(favorite_voices_for_engine(&cfg, "supertonic-3"), Ok(vec![]));
    assert_eq!(favorite_models(&cfg), Ok(vec!["llama3".to_string(), "qwen3".to_string()]));
    assert_eq!(favorite_models(&table(vec![])), Err("root.assistant must be a table".to_string()));
}

#[test]
fn cli_writes_check_their_inputs() {
    assert_eq!(
        set_tts_defaults(valid_config(), "espeak", "v", 1.0f64.to_bits(), "high").unwrap_err(),
        WriteError::Message("Invalid engine 'espeak'.".to_string())
    );
    assert_eq!(
        set_tts_defaults(valid_config(), "kokoro", "v", 1.0f64.to_bits(), "mid").unwrap_err(),
        WriteError::Message("Invalid quality 'mid'.".to_string())
    );
    assert_eq!(set_tts_defaults(valid_config(), "kokoro", "v", 3.0f64.to_bits(), "low").unwrap_err(), WriteError::InvalidSpeed);
    assert_eq!(
        set_tts_defaults(valid_config(), "kokoro", "  ", 1.0f64.to_bits(), "low").unwrap_err(),
        WriteError::Message("Voice must be non-empty.".to_string())
    );
    let doc = set_tts_defaults(valid_config(), "pocket-tts", "alba", 1.5f64.to_bits(), "low").unwrap();
    assert!(validate_document(&doc).is_ok());
    let tts = get_value(&doc, "tts").unwrap();
    let defaults = get_value(tts, "defaults").unwrap();
    assert!(matches!(get_value(defaults, "engine"), Some(TomlDoc::Str(s)) if s == "pocket-tts"));
    assert!(matches!(get_value(defaults, "speed"), Some(TomlDoc::Float(b)) if f64::from_bits(*b) == 1.5));
    assert!(matches!(get_value(defaults, "idle_timeout_sec"), Some(TomlDoc::Int(60))));

    assert_eq!(set_assistant_model(valid_config(), " ").unwrap_err(), "Model must be non-empty.");
    let doc = set_assistant_model(valid_config(), "qwen3").unwrap();
    let assistant = get_value(&doc, "assistant").unwrap();
    assert!(matches!(get_value(assistant, "default_model"), Some(TomlDoc::Str(s)) if s == "qwen3"));

    let tools = vec![("web".to_string(), Some("deny".to_string()))];
    let doc = set_assistant_tools(valid_config(), &tools).unwrap();
    let assistant = get_value(&doc, "assistant").unwrap();
    let table_of_tools = get_value(assistant, "tools").unwrap();
    assert!(matches!(get_value(table_of_tools, "web"), Some(TomlDoc::Str(s)) if s == "deny"));
    let bad = vec![("web".to_string(), Some("maybe".to_string()))];
    assert!(set_assistant_tools(valid_config(), &bad).is_err());
}

#[test]
fn ipc_addresses_default_and_override() {
    let d = defaults();
    assert_eq!(d.tts_cmd(), "ipc:///tmp/neuropipe_tts_cmd.sock");
    assert_eq!(d.tts_events(), "ipc:///tmp/neuropipe_tts_events.sock");
    assert_eq!(d.stt_cmd(), "ipc:///tmp/neuropipe_cmd.sock");
    assert_eq!(d.stt_pub(), "ipc:///tmp/neuropipe_pub.sock");
    assert_eq!(d.assistant_cmd(), "ipc:///tmp/neuropipe_assistant_cmd.sock");
    assert_eq!(load_from_config(None), d);
    let doc = table(vec![("ipc", table(vec![("tts_cmd", text("ipc:///tmp/x.sock"))]))]);
    let a = load_from_config(Some(&doc));
    assert_eq!(a.tts_cmd(), "ipc:///tmp/x.sock");
    assert_eq!(a.stt_cmd(), "ipc:///tmp/neuropipe_cmd.sock");
    assert_eq!(vad(), "VAD");
    assert_eq!(idle(), "IDLE");
    assert_eq!(record_start(), "MANUAL");
}

#[test]
fn precision_follows_quality() {
    assert_eq!(Precision::from(Quality::Low), Precision::Int8);
    assert_eq!(Precision::from(Quality::High), Precision::Fp32);
}

#[test]
fn copy_prefix_pads_and_truncates() {
    let src = [1, 2, 3, 4, 5, 6];
    assert_eq!(copy_prefix(&src, &[2, 3], &[2, 3], 0), vec![1, 2, 3, 4, 5, 6]);
    assert_eq!(copy_prefix(&src, &[2, 3], &[2, 2], 0), vec![1, 2, 4, 5]);
    assert_eq!(copy_prefix(&src, &[2, 3], &[3, 4], 9), vec![1, 2, 3, 9, 4, 5, 6, 9, 9, 9, 9, 9]);
    let bytes: Vec<u8> = [7i64, -1].iter().flat_map(|v| v.to_le_bytes()).collect();
    assert_eq!(copy_prefix_i64(&bytes, &[2], &[3]), vec![7, -1, 0]);
    assert_eq!(copy_prefix_bool(&[1, 0], &[2], &[1]), vec![true]);
}

fn tokenizer() -> Tokenizer {
    let pieces = [("\u{2581}he", 1), ("llo", 2), ("\u{2581}", 3), ("h", 4), ("e", 5), ("l", 6), ("o", 7), ("\u{2581}hello", 8)];
    Tokenizer { pieces: pieces.iter().map(|(p, id)| Piece { piece: p.to_string(), id: *id }).collect() }
}

#[test]
fn tokenizer_takes_the_longest_piece() {
    let t = tokenizer();
    assert_eq!(t.encode("hello"), vec![8]);
    assert_eq!(t.encode("hell"), vec![1, 6, 6]);
    assert_eq!(t.encode("he he"), vec![1, 1]);
}

#[test]
fn split_text_keeps_short_text_in_one_chunk() {
    let t = tokenizer();
    assert_eq!(split_text(&t, "  hello   hello  "), vec!["hello hello"]);
    assert_eq!(split_text(&t, "   "), vec![""]);
}

#[test]
fn copy_prefix_allowed_checks_sizes() {
    assert!(copy_prefix_allowed(6, &[2, 3], &[3, 4]));
    assert!(copy_prefix_allowed(0, &[2, 3], &[2, 3]));
    assert!(!copy_prefix_allowed(5, &[2, 3], &[3, 4]));
    assert!(!copy_prefix_allowed(6, &[2, 3], &[usize::MAX, 2]));
    assert!(copy_prefix_allowed(0, &[4], &[2, 2]));
}

#[test]
fn cycling_wraps_around_and_starts_at_the_first() {
    let names: Vec<String> = vec!["a".into(), "b".into(), "c".into()];
    assert_eq!(cycle_index(&names, "a", true), Some(1));
    assert_eq!(cycle_index(&names, "c", true), Some(0));
    assert_eq!(cycle_index(&names, "a", false), Some(2));
    assert_eq!(cycle_index(&names, "b", false), Some(0));
    assert_eq!(cycle_index(&names, "zzz", false), Some(0));
    assert_eq!(cycle_index(&vec![], "a", true), None);
}
