use neuropipe::assistant::{round_step, session_start_plan, uses_memory_context, RoundStep, MAX_TOOL_ROUNDS};
use neuropipe::assistant_config::{config_from_text, default_assistant_doc};
use neuropipe::cli_config::{cycle_candidates, default_cli_doc, set_assistant_tools, validate_document};
use neuropipe::config_file::{document_or, layered_or_defaults, layered_or_error, parse_toml};
use neuropipe::toml_doc::{get_int, get_str, get_table, TomlDoc};

fn entries(doc: &TomlDoc) -> &Vec<(String, TomlDoc)> {
    match doc {
        TomlDoc::Table(t) => t,
        other => panic!("not a table: {other:?}"),
    }
}

#[test]
fn parses_toml_text_into_a_document() {
    let doc = parse_toml("a = 1\n[t]\nname = \"x\"\n").expect("parses");
    assert_eq!(get_int(entries(&doc), "a"), Some(1));
    let t = get_table(entries(&doc), "t").expect("table");
    assert_eq!(get_str(t, "name").map(String::as_str), Some("x"));
    assert!(parse_toml("a = = 1").is_err());
}

#[test]
fn file_is_laid_over_defaults_or_falls_back() {
    let defaults = || parse_toml("a = 1\nb = 2\n").unwrap();
    let (doc, err) = layered_or_defaults(defaults(), Some("b = 3\n"));
    assert!(err.is_none());
    assert_eq!(get_int(entries(&doc), "a"), Some(1));
    assert_eq!(get_int(entries(&doc), "b"), Some(3));
    let (doc, err) = layered_or_defaults(defaults(), Some("b = ="));
    assert!(err.is_some());
    assert_eq!(get_int(entries(&doc), "b"), Some(2));
    assert!(layered_or_error(defaults(), Some("b = =")).is_err());
    let doc = layered_or_error(defaults(), None).unwrap();
    assert_eq!(get_int(entries(&doc), "b"), Some(2));
    let (doc, _) = document_or(TomlDoc::Table(Vec::new()), Some("c = 4\n"));
    assert_eq!(get_int(entries(&doc), "a"), None);
    assert_eq!(get_int(entries(&doc), "c"), Some(4));
}

#[test]
fn assistant_config_from_file_text() {
    let defaults = default_assistant_doc().expect("built-in defaults parse");
    let (cfg, err) = config_from_text(defaults, None);
    assert!(err.is_none());
    assert_eq!(cfg.assistant.default_model, "gemma4:cloud");
    assert_eq!(cfg.assistant.tools.len(), 4);
    let defaults = default_assistant_doc().unwrap();
    let (cfg, err) = config_from_text(defaults, Some("[assistant]\ndefault_model = \"qwen3\"\n[assistant.tools]\nopen_url = \"deny\"\n"));
    assert!(err.is_none());
    assert_eq!(cfg.assistant.default_model, "qwen3");
    assert_eq!(cfg.assistant.history_idle_timeout_sec, 3600);
    assert!(cfg.assistant.tools.contains(&("open_url".to_string(), "deny".to_string())));
    let defaults = default_assistant_doc().unwrap();
    let (cfg, err) = config_from_text(defaults, Some("[assistant"));
    assert!(err.is_some());
    assert_eq!(cfg.assistant.default_model, "gemma4:cloud");
}

#[test]
fn setting_one_tool_level_in_a_valid_document() {
    let doc = default_cli_doc().expect("built-in defaults parse");
    assert_eq!(validate_document(&doc), Ok(()));
    let ok = set_assistant_tools(doc, &vec![("open_url".to_string(), Some("allow".to_string()))]).unwrap();
    assert_eq!(validate_document(&ok), Ok(()));
    let mut bad = ok;
    if let TomlDoc::Table(root) = &mut bad {
        for (k, v) in root.iter_mut() {
            if k == "assistant" {
                if let TomlDoc::Table(a) = v {
                    for (k2, v2) in a.iter_mut() {
                        if k2 == "tools" {
                            if let TomlDoc::Table(t) = v2 {
                                t.push(("web_fetch".to_string(), TomlDoc::Str("maybe".to_string())));
                            }
                        }
                    }
                }
            }
        }
    }
    assert_eq!(validate_document(&bad), Err("Invalid permission 'maybe' for tool 'web_fetch'".to_string()));
}

#[test]
fn cycling_uses_favorites_when_there_are_any() {
    let all = vec!["a".to_string(), "b".to_string(), "c".to_string()];
    assert_eq!(cycle_candidates(vec![], all.clone()), all);
    assert_eq!(cycle_candidates(vec!["b".to_string()], all), vec!["b".to_string()]);
}

#[test]
fn session_clears_history_after_the_idle_timeout() {
    assert_eq!(session_start_plan(3_600_000_000_001, 3600, 5), (true, true));
    assert_eq!(session_start_plan(3_600_000_000_000, 3600, 5), (false, false));
    assert_eq!(session_start_plan(0, 3600, 1), (false, true));
}

#[test]
fn tool_rounds_stop_or_give_up() {
    assert!(uses_memory_context(0) && !uses_memory_context(1));
    assert_eq!(round_step(0, true, false), RoundStep::Stop);
    assert_eq!(round_step(0, false, true), RoundStep::Stop);
    assert_eq!(round_step(0, true, true), RoundStep::RunToolsThenAsk);
    assert_eq!(round_step(MAX_TOOL_ROUNDS - 1, true, true), RoundStep::RunToolsThenGiveUp);
}
