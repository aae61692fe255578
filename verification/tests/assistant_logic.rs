use neuropipe::assistant::{
    assistant_command, AssistantCommand,
    chosen_model, clip_text, digest_to_store, fallback_summary, is_cloud_model, join_strings,
    memory_allowed_for_model, memory_context, session_transcript, summary_wanted, system_message,
    truncate_history, HistoryEntry, PermissionDecision, SpeechBatcher, ToolCallLog, ToolInfo,
    OllamaError, ToolLevelError, ToolManager, TtsEvent, TtsEvents,
};
use neuropipe::assistant_config::{config_from, DUCK_VOLUME_DEFAULT, SYSTEM_PROMPT_DEFAULT, TOOL_POLICY_DEFAULT};
use neuropipe::ducking::DuckState;
use neuropipe::toml_doc::TomlDoc;
use neuropipe::markdown::{next_sentence, strip_markdown};

fn tool(name: &str) -> ToolInfo {
    ToolInfo {
        name: name.to_string(),
        filepath: format!("/tools/{name}.py"),
        description: format!("{name} tool"),
        parameters: "{}".to_string(),
    }
}

fn manager(levels: &[(&str, &str)], tools: &[&str]) -> ToolManager {
    let initial: Vec<(String, String)> =
        levels.iter().map(|(n, l)| (n.to_string(), l.to_string())).collect();
    let mut tm = ToolManager::new(&initial);
    for t in tools {
        tm.add_discovered(tool(t), None);
    }
    tm
}

fn entry(role: &str, content: &str) -> HistoryEntry {
    HistoryEntry { role: role.to_string(), content: content.to_string(), tool_name: None }
}

#[test]
fn tts_events_track_sentences() {
    let mut ev = TtsEvents::new();
    assert!(!ev.is_speaking());
    assert!(ev.record(TtsEvent::Speaking(Some("Hello.".to_string()))));
    assert!(ev.is_speaking());
    assert!(ev.record(TtsEvent::SentenceDone));
    assert!(!ev.is_speaking());
    assert_eq!(ev.completed_sentences, 1);
    assert!(!ev.record(TtsEvent::Other));
    assert!(ev.record(TtsEvent::Speaking(None)));
    assert!(ev.record(TtsEvent::Interrupted));
    assert!(ev.interrupted);
    assert_eq!(ev.started_sentences(), vec!["Hello."]);
    assert!(ev.keep_waiting(3, false, true));
    assert!(!ev.keep_waiting(2, false, true));
    assert!(!ev.keep_waiting(3, true, true));
    assert!(!ev.keep_waiting(3, false, false));
    ev.begin_response();
    assert!(ev.started_sentences().is_empty());
    assert_eq!(ev.completed_sentences, 0);
    assert!(!ev.interrupted);
}

#[test]
fn sentence_done_never_goes_below_zero() {
    let mut ev = TtsEvents::new();
    ev.record(TtsEvent::SentenceDone);
    assert_eq!(ev.active_sentences, 0);
}

#[test]
fn tool_levels_default_to_deny_and_later_entries_win() {
    let tm = manager(&[("web", "allow"), ("web", "deny"), ("files", "ask")], &[]);
    assert_eq!(tm.check("web"), "deny");
    assert_eq!(tm.check("files"), "ask");
    assert_eq!(tm.check("other"), "deny");
}

#[test]
fn discovered_tools_get_the_default_level_once() {
    let mut tm = manager(&[("files", "allow")], &["files", "web"]);
    assert!(tm.has_tool("web"));
    assert_eq!(tm.check("web"), "ask");
    assert_eq!(tm.check("files"), "allow");
    assert!(!tm.add_discovered(tool("web"), Some("deny".to_string())));
    assert!(tm.add_discovered(tool("clock"), Some("allow".to_string())));
    assert_eq!(tm.check("clock"), "allow");
    assert_eq!(tm.tools().len(), 3);
}

#[test]
fn permission_decisions() {
    let mut tm = manager(&[("web", "allow"), ("rm", "deny"), ("mail", "ask")], &["web", "rm", "mail"]);
    assert_eq!(tm.decide_permission("web"), PermissionDecision::Run);
    assert_eq!(
        tm.decide_permission("rm"),
        PermissionDecision::Refuse("Tool 'rm' is disabled.".to_string())
    );
    assert_eq!(
        tm.decide_permission("unknown"),
        PermissionDecision::Refuse("Tool 'unknown' is disabled.".to_string())
    );
    assert_eq!(
        tm.decide_permission("mail"),
        PermissionDecision::AskUser(
            "Permission needed: 'mail' is set to ask mode. Tell the user to allow it with set-tools or say 'yes' to grant it for this session."
                .to_string()
        )
    );
    assert_eq!(tm.pending_tool(), Some("mail".to_string()));
    tm.grant("mail");
    assert!(tm.is_granted("mail"));
    assert_eq!(tm.decide_permission("mail"), PermissionDecision::Run);
    tm.reset_session();
    assert!(!tm.is_granted("mail"));
}

#[test]
fn spoken_yes_grants_the_pending_tool() {
    let mut tm = manager(&[("mail", "ask")], &["mail"]);
    assert!(!tm.auto_grant_from_text("yes"));
    tm.decide_permission("mail");
    assert!(!tm.auto_grant_from_text("no thanks"));
    assert!(!tm.is_granted("mail"));
    assert!(tm.auto_grant_from_text("  Yes, go ahead"));
    assert!(tm.is_granted("mail"));
    assert!(!tm.auto_grant_from_text("yes"));
}

#[test]
fn set_config_applies_only_known_tools_and_levels() {
    let mut tm = manager(&[], &["web", "mail"]);
    let entries = vec![
        ("web".to_string(), Some("allow".to_string())),
        ("mail".to_string(), Some("bogus".to_string())),
        ("ghost".to_string(), Some("allow".to_string())),
        ("mail".to_string(), None),
    ];
    tm.set_config(&entries);
    assert_eq!(tm.check("web"), "allow");
    assert_eq!(tm.check("mail"), "ask");
    assert_eq!(tm.check("ghost"), "deny");
    let listed = tm.list_all();
    assert_eq!(listed, vec![("web".to_string(), "allow".to_string()), ("mail".to_string(), "ask".to_string())]);
}

#[test]
fn check_levels_reports_the_first_bad_entry() {
    let tm = manager(&[], &["web", "mail"]);
    let ok = vec![("web".to_string(), Some("deny".to_string()))];
    assert_eq!(tm.check_levels(&ok), Ok(()));
    let unknown = vec![
        ("web".to_string(), Some("allow".to_string())),
        ("ghost".to_string(), Some("allow".to_string())),
        ("mail".to_string(), Some("bogus".to_string())),
    ];
    assert_eq!(tm.check_levels(&unknown), Err(ToolLevelError::UnknownTool("ghost".to_string())));
    let invalid = vec![("mail".to_string(), None)];
    assert_eq!(tm.check_levels(&invalid), Err(ToolLevelError::InvalidPermission("mail".to_string())));
}

#[test]
fn active_tools_exclude_denied_ones() {
    let tm = manager(&[("web", "deny"), ("mail", "allow")], &["web", "mail", "clock"]);
    assert_eq!(tm.active_indices(), vec![1, 2]);
}

#[test]
fn model_changes_only_to_a_nonblank_name() {
    assert_eq!(chosen_model("llama3", Some("  qwen3  ")), "qwen3");
    assert_eq!(chosen_model("llama3", Some("   ")), "llama3");
    assert_eq!(chosen_model("llama3", None), "llama3");
}

#[test]
fn cloud_models_follow_their_own_memory_switch() {
    assert!(is_cloud_model("gpt-oss:120b-cloud") == false);
    assert!(is_cloud_model("gpt-oss:cloud"));
    assert!(!is_cloud_model("cloud"));
    assert!(memory_allowed_for_model("gpt-oss:cloud", false, true));
    assert!(!memory_allowed_for_model("gpt-oss:cloud", true, false));
    assert!(memory_allowed_for_model("llama3", true, false));
}

#[test]
fn summaries_follow_the_trigger_switches() {
    assert!(!summary_wanted("idle_timeout", false, true));
    assert!(summary_wanted("idle_timeout", true, false));
    assert!(!summary_wanted("stop", true, false));
    assert!(summary_wanted("manual", false, false));
}

#[test]
fn digest_is_sha256_hex_of_the_summary() {
    let summary = "The quick brown fox jumps over the lazy dog";
    let digest = "d7a8fbb307d7809469ca9abcb0082e4f8d5651e46d3cdb762d02d0bf37c9e592";
    assert_eq!(digest_to_store(summary, None), Some(digest.to_string()));
    assert_eq!(digest_to_store(summary, Some(digest)), None);
    assert_eq!(digest_to_store(summary, Some("other")), Some(digest.to_string()));
    assert_eq!(digest_to_store("too short", None), None);
}

#[test]
fn memory_context_lists_nonblank_documents() {
    let docs = vec!["  first fact ".to_string(), "   ".to_string(), "second".to_string()];
    let ctx = memory_context(&docs).unwrap();
    assert_eq!(
        ctx,
        "Relevant long-term memory from prior sessions. Use it only when helpful and avoid fabricating details.\n- first fact\n- second"
    );
    assert_eq!(memory_context(&vec![" ".to_string()]), None);
    assert_eq!(join_strings(&vec!["a".to_string(), "b".to_string()], ", "), "a, b");
}

#[test]
fn interrupted_reply_replaces_unanswered_questions() {
    let mut history = vec![entry("system", "sys"), entry("user", "q1"), entry("assistant", "a1"), entry("user", "q2")];
    truncate_history(&mut history, &vec!["One.".to_string(), "Two.".to_string()], "Two.");
    assert_eq!(history.len(), 4);
    assert_eq!(history[3], entry("assistant", "One. Two."));

    let mut history = vec![entry("system", "sys"), entry("user", "q1")];
    truncate_history(&mut history, &vec![], "Partial");
    assert_eq!(history, vec![entry("system", "sys"), entry("assistant", "Partial")]);

    let mut history = vec![entry("system", "sys"), entry("user", "q1")];
    truncate_history(&mut history, &vec![], "");
    assert_eq!(history, vec![entry("system", "sys")]);
}

#[test]
fn transcript_skips_system_and_empty_messages() {
    let mut tool_reply = entry("tool", " 42 ");
    tool_reply.tool_name = Some("calc".to_string());
    let history = vec![entry("system", "sys"), entry("user", " hi "), entry("assistant", "  "), tool_reply];
    assert_eq!(session_transcript(&history), "[user] hi\n[tool:calc] 42");
    assert_eq!(session_transcript(&vec![]), "");
}

#[test]
fn clipping_and_fallback_summary() {
    assert_eq!(clip_text("abcdef", 10), "abcdef");
    assert_eq!(clip_text("abcdefghij", 6), "abc...");
    assert_eq!(clip_text("abcdef", 2), "...");
    assert_eq!(fallback_summary("[user] hi\n\n[assistant] hello\n", 200), "[user] hi [assistant] hello");
}

#[test]
fn system_message_lists_tools_when_asked() {
    let tools = vec![("web".to_string(), "Search the web".to_string())];
    let msg = system_message("Be brief.", &tools, true, "Use tools wisely.");
    assert_eq!(msg.role, "system");
    assert_eq!(
        msg.content,
        "Be brief.\n\nYou have access to these tools:\n- web: Search the web\n\nUse tools wisely.\nSearch the web at most once per unique query — report what you find and do not re-search the same topic with slightly different queries."
    );
    let plain = system_message("Be brief.", &tools, false, "Use tools wisely.");
    assert_eq!(plain.content, "Be brief.");
    let none = system_message("Be brief.", &vec![], true, "Use tools wisely.");
    assert_eq!(none.content, "Be brief.");
}

#[test]
fn batcher_speaks_first_sentence_alone_then_batches() {
    let mut b = SpeechBatcher::new(true);
    assert_eq!(b.push_sentence("Hi.".to_string()), Some("Hi.".to_string()));
    assert_eq!(b.push_sentence("Second one.".to_string()), None);
    assert_eq!(b.finish("tail".to_string()), Some("Second one. tail".to_string()));

    let mut plain = SpeechBatcher::new(false);
    assert_eq!(plain.push_sentence("A.".to_string()), Some("A.".to_string()));
    assert_eq!(plain.finish(String::new()), None);
}

#[test]
fn batcher_flushes_long_batches() {
    let mut b = SpeechBatcher::new(true);
    b.push_sentence("First.".to_string());
    let long = "x".repeat(160);
    assert_eq!(b.push_sentence(long.clone()), Some(long));
    assert!(b.batch.is_empty());
}

#[test]
fn repeated_tool_calls_are_detected() {
    let mut log = ToolCallLog::new();
    assert!(log.first_time("web", "{\"q\":\"x\"}"));
    assert!(!log.first_time("web", "{\"q\":\"x\"}"));
    assert!(log.first_time("web", "{\"q\":\"y\"}"));
}

#[test]
fn next_sentence_splits_at_terminators() {
    assert_eq!(next_sentence("Hi there. More"), Some(("Hi there.".to_string(), 10)));
    assert_eq!(next_sentence("Wow!"), Some(("Wow!".to_string(), 4)));
    assert_eq!(next_sentence("no end yet"), None);
    assert_eq!(next_sentence("3.14 is pi"), None);
}

#[test]
fn strip_markdown_removes_markup() {
    assert_eq!(strip_markdown("**Hello** [world](http://x)"), Some("Hello world".to_string()));
    assert_eq!(strip_markdown("# Title\n- item\n> quote"), Some("Title\nitem\nquote".to_string()));
    assert_eq!(strip_markdown("use `code` and _it_ ~~x~~"), Some("use code and it x".to_string()));
    assert_eq!(strip_markdown("```\nblock\n```done"), Some("done".to_string()));
}

fn doc_table(entries: Vec<(&str, TomlDoc)>) -> TomlDoc {
    TomlDoc::Table(entries.into_iter().map(|(k, v)| (k.to_string(), v)).collect())
}

#[test]
fn config_defaults_when_document_is_empty() {
    let cfg = config_from(&doc_table(vec![]));
    let a = &cfg.assistant;
    assert_eq!(a.default_model, "gemma4:cloud");
    assert_eq!(a.history_idle_timeout_sec, 3600);
    assert!(a.memory.enabled_local && !a.memory.enabled_cloud);
    assert!(a.memory.summarize_on_idle && a.memory.summarize_on_stop);
    assert_eq!(a.memory.max_summary_chars, 1200);
    assert_eq!(a.memory.retrieve_top_k, 4);
    assert_eq!(a.memory.collection, "assistant_memory");
    assert_eq!(a.memory.embedding_model, "all-minilm");
    assert_eq!(a.system_prompt, SYSTEM_PROMPT_DEFAULT);
    assert_eq!(a.tool_usage_policy, TOOL_POLICY_DEFAULT);
    assert!(a.tools.is_empty());
    assert!(!a.duck_media);
    assert_eq!(f64::from_bits(a.duck_volume), 0.1);
    assert_eq!(a.duck_volume, DUCK_VOLUME_DEFAULT);
    assert_eq!(cfg.ipc.assistant_cmd(), "ipc:///tmp/neuropipe_assistant_cmd.sock");
}

#[test]
fn config_reads_values_and_clamps_counts() {
    let doc = doc_table(vec![
        ("ipc", doc_table(vec![("tts_cmd", TomlDoc::Str("ipc:///tmp/x.sock".to_string()))])),
        (
            "assistant",
            doc_table(vec![
                ("default_model", TomlDoc::Str("qwen3:4b".to_string())),
                ("duck_media", TomlDoc::Bool(true)),
                ("duck_volume", TomlDoc::Float(0.25f64.to_bits())),
                ("history_idle_timeout_sec", TomlDoc::Int(0)),
                ("memory", doc_table(vec![("max_summary_chars", TomlDoc::Int(-5)), ("retrieve_top_k", TomlDoc::Int(0)), ("enabled_cloud", TomlDoc::Bool(true))])),
                ("instructions", doc_table(vec![("system_prompt", TomlDoc::Str("Be brief.".to_string()))])),
                ("tools", doc_table(vec![("open_url", TomlDoc::Str("deny".to_string())), ("broken", TomlDoc::Int(1)), ("screenshot", TomlDoc::Str("allow".to_string()))])),
            ]),
        ),
    ]);
    let cfg = config_from(&doc);
    let a = &cfg.assistant;
    assert_eq!(a.default_model, "qwen3:4b");
    assert_eq!(a.history_idle_timeout_sec, 1);
    assert_eq!(a.memory.max_summary_chars, 0);
    assert_eq!(a.memory.retrieve_top_k, 1);
    assert!(a.memory.enabled_cloud);
    assert_eq!(a.system_prompt, "Be brief.");
    assert_eq!(a.tool_usage_policy, TOOL_POLICY_DEFAULT);
    assert_eq!(a.tools, vec![("open_url".to_string(), "deny".to_string()), ("screenshot".to_string(), "allow".to_string())]);
    assert!(a.duck_media);
    assert_eq!(f64::from_bits(a.duck_volume), 0.25);
    assert_eq!(cfg.ipc.tts_cmd(), "ipc:///tmp/x.sock");
    assert_eq!(cfg.ipc.stt_cmd(), "ipc:///tmp/neuropipe_cmd.sock");
}

#[test]
fn ollama_error_message_is_its_text() {
    assert_eq!(OllamaError::Http("/api/chat returned 500".to_string()).message(), "/api/chat returned 500");
    assert_eq!(OllamaError::Parse("bad json".to_string()).message(), "bad json");
}

#[test]
fn duck_then_unduck_restores_volume() {
    let mut state = DuckState::new();
    assert!(!state.duck_wanted(false));
    assert!(state.duck_wanted(true));
    state.ducked("mpv".to_string(), 0.8f32.to_bits());
    assert!(state.is_ducked());
    assert_eq!(state.unduck(), Some(("mpv".to_string(), 0.8f32.to_bits())));
    assert!(!state.is_ducked());
}

#[test]
fn duck_is_idempotent_until_unduck() {
    let mut state = DuckState::new();
    assert!(state.duck_wanted(true));
    state.ducked("mpv".to_string(), 0.6f32.to_bits());
    assert!(!state.duck_wanted(true));
    assert_eq!(state.unduck(), Some(("mpv".to_string(), 0.6f32.to_bits())));
    assert_eq!(state.unduck(), None);
}

#[test]
fn assistant_commands_by_name() {
    assert_eq!(assistant_command("mode1"), AssistantCommand::Mode1);
    assert_eq!(assistant_command("mode2"), AssistantCommand::Mode2);
    assert_eq!(assistant_command("set_tools"), AssistantCommand::SetTools);
    assert_eq!(assistant_command("reset_memory"), AssistantCommand::ResetMemory);
    assert_eq!(assistant_command(""), AssistantCommand::Unknown);
    assert_eq!(assistant_command("MODE1"), AssistantCommand::Unknown);
}

#[test]
fn request_messages_are_stamped_and_carry_memory_after_the_system_message() {
    let entry = |role: &str, content: &str| HistoryEntry { role: role.to_string(), content: content.to_string(), tool_name: None };
    let history = vec![entry("system", "sys"), entry("user", "hi"), entry("assistant", "hello")];
    let r = neuropipe::assistant::request_history(&history, "Mon 10:00", Some("notes"));
    let got: Vec<(String, String)> = r.iter().map(|e| (e.role.clone(), e.content.clone())).collect();
    assert_eq!(
        got,
        vec![
            ("system".to_string(), "sys".to_string()),
            ("system".to_string(), "notes".to_string()),
            ("user".to_string(), "[Mon 10:00] hi".to_string()),
            ("assistant".to_string(), "hello".to_string()),
        ]
    );
    let r = neuropipe::assistant::request_history(&vec![entry("user", "x")], "t", Some("m"));
    assert_eq!(r[0].role, "system");
    assert_eq!(r[1].content, "[t] x");
    assert_eq!(neuropipe::assistant::request_history(&history, "t", None).len(), 3);
}
