//! The assistant service's configuration, read from the configuration
//! document laid over its built-in defaults (see `toml_doc::merge_docs`).
//! Every setting that the document lacks, or holds with the wrong type,
//! takes its default; the counts are clamped as the service needs them.

use vstd::prelude::*;
use crate::config_file::{file_error, loaded_doc, message_view, layered_or_defaults, parse_toml, parse_view, text_view, toml_document};
use crate::ipc::{addrs_from, load_from_config, IpcConfig};
use crate::toml_doc::{as_bool, as_float, as_int, as_str, entry, get_bool, get_float, get_int, get_str, get_table, sub_entries, TomlDoc};

verus! {

broadcast use vstd::string::group_string_axioms;

/// Long-term memory settings (`[assistant.memory]`).
#[derive(Clone, Debug)]
pub struct MemoryConfig {
    pub enabled_local: bool,
    pub enabled_cloud: bool,
    pub summarize_on_idle: bool,
    pub summarize_on_stop: bool,
    pub max_summary_chars: usize,
    pub retrieve_top_k: usize,
    pub collection: String,
    pub embedding_model: String,
}

/// Assistant settings (`[assistant]`).
#[derive(Clone, Debug)]
pub struct AssistantConfig {
    pub default_model: String,
    pub history_idle_timeout_sec: u64,
    pub memory: MemoryConfig,
    pub system_prompt: String,
    pub tool_usage_policy: String,
    /// `(tool, level)` for every string under `[assistant.tools]`, in
    /// document order.
    pub tools: Vec<(String, String)>,
    /// Whether to lower the media volume while the user or the assistant
    /// speaks.
    pub duck_media: bool,
    /// The volume ducked media drops to, as the bits of an IEEE-754
    /// binary64 number.
    pub duck_volume: u64,
}

/// The whole configuration of the assistant service.
#[derive(Clone, Debug)]
pub struct Config {
    pub ipc: IpcConfig,
    pub assistant: AssistantConfig,
}

/// Default system prompt.
pub const SYSTEM_PROMPT_DEFAULT: &'static str = "You are a helpful AI voice assistant.\nKeep answers short and conversational.\nThis is a voice-to-voice conversation: assume the user replies by speaking, not typing.\nIf you need confirmation (for example before using a tool in ask mode), request a spoken yes/no response and never ask the user to type.\n/set nothink";

/// Default tool-usage policy.
pub const TOOL_POLICY_DEFAULT: &'static str = "When the user asks about something a tool can help with, call the appropriate tool automatically. If a tool is in ask mode, request spoken permission (yes/no) and continue based on the user's voice response. Do not ask the user to type permission commands.";

/// The volume ducked media drops to by default: the binary64 bits of `0.1`.
pub const DUCK_VOLUME_DEFAULT: u64 = 0x3FB9_9999_9999_999A;

/// The entries of the document's root table (none when it is not a table).
pub open spec fn root_entries(doc: TomlDoc) -> Seq<(String, TomlDoc)> {
    match doc {
        TomlDoc::Table(t) => t@,
        _ => Seq::empty(),
    }
}

/// The string under `key`, or `default`.
pub open spec fn str_or(t: Seq<(String, TomlDoc)>, key: Seq<char>, default: Seq<char>) -> Seq<char> {
    match as_str(entry(t, key)) {
        Some(s) => s,
        None => default,
    }
}

/// The boolean under `key`, or `default`.
pub open spec fn bool_or(t: Seq<(String, TomlDoc)>, key: Seq<char>, default: bool) -> bool {
    match as_bool(entry(t, key)) {
        Some(b) => b,
        None => default,
    }
}

/// The float bits under `key`, or `default`.
pub open spec fn float_or(t: Seq<(String, TomlDoc)>, key: Seq<char>, default: u64) -> u64 {
    match as_float(entry(t, key)) {
        Some(f) => f,
        None => default,
    }
}

/// The integer under `key`, or `default`, and at least `floor`.
pub open spec fn int_at_least(t: Seq<(String, TomlDoc)>, key: Seq<char>, default: int, floor: int) -> int {
    let v = match as_int(entry(t, key)) {
        Some(i) => i as int,
        None => default,
    };
    if v < floor { floor } else { v }
}

/// `(key, text)` for every entry of `t` that holds a string, in order.
pub open spec fn string_pairs(t: Seq<(String, TomlDoc)>) -> Seq<(Seq<char>, Seq<char>)>
    decreases t.len(),
{
    if t.len() == 0 {
        Seq::empty()
    } else {
        let rest = string_pairs(t.drop_last());
        match t.last().1 {
            TomlDoc::Str(s) => rest.push((t.last().0@, s@)),
            _ => rest,
        }
    }
}

/// The views of a list of string pairs.
pub open spec fn pair_views(p: Seq<(String, String)>) -> Seq<(Seq<char>, Seq<char>)> {
    p.map_values(|q: (String, String)| (q.0@, q.1@))
}

/// `m` is the memory section `t` describes.
pub open spec fn memory_from(m: MemoryConfig, t: Seq<(String, TomlDoc)>) -> bool {
    &&& m.enabled_local == bool_or(t, "enabled_local"@, true)
    &&& m.enabled_cloud == bool_or(t, "enabled_cloud"@, false)
    &&& m.summarize_on_idle == bool_or(t, "summarize_on_idle"@, true)
    &&& m.summarize_on_stop == bool_or(t, "summarize_on_stop"@, true)
    &&& m.max_summary_chars == int_at_least(t, "max_summary_chars"@, 1200, 0) as usize
    &&& m.retrieve_top_k == int_at_least(t, "retrieve_top_k"@, 4, 1) as usize
    &&& m.collection@ == str_or(t, "collection"@, "assistant_memory"@)
    &&& m.embedding_model@ == str_or(t, "embedding_model"@, "all-minilm"@)
}

/// `a` is the assistant section `t` describes.
pub open spec fn assistant_from(a: AssistantConfig, t: Seq<(String, TomlDoc)>) -> bool {
    let instructions = sub_entries(t, "instructions"@);
    &&& a.default_model@ == str_or(t, "default_model"@, "gemma4:cloud"@)
    &&& a.history_idle_timeout_sec == int_at_least(t, "history_idle_timeout_sec"@, 3600, 1) as u64
    &&& memory_from(a.memory, sub_entries(t, "memory"@))
    &&& a.system_prompt@ == str_or(instructions, "system_prompt"@, SYSTEM_PROMPT_DEFAULT@)
    &&& a.tool_usage_policy@ == str_or(instructions, "tool_usage_policy"@, TOOL_POLICY_DEFAULT@)
    &&& pair_views(a.tools@) == string_pairs(sub_entries(t, "tools"@))
    &&& a.duck_media == bool_or(t, "duck_media"@, false)
    &&& a.duck_volume == float_or(t, "duck_volume"@, DUCK_VOLUME_DEFAULT)
}

/// The string under `key`, or `default`.
fn str_or_default(t: &Vec<(String, TomlDoc)>, key: &str, default: &str) -> (r: String)
    ensures
        r@ == str_or(t@, key@, default@),
{
    match get_str(t, key) {
        Some(s) => s.clone(),
        None => default.to_string(),
    }
}

/// The boolean under `key`, or `default`.
fn bool_or_default(t: &Vec<(String, TomlDoc)>, key: &str, default: bool) -> (r: bool)
    ensures
        r == bool_or(t@, key@, default),
{
    match get_bool(t, key) {
        Some(b) => b,
        None => default,
    }
}

/// The integer under `key`, or `default`, and at least `floor`.
fn int_at_least_default(t: &Vec<(String, TomlDoc)>, key: &str, default: i64, floor: i64) -> (r: i64)
    ensures
        r == int_at_least(t@, key@, default as int, floor as int),
{
    let v = match get_int(t, key) {
        Some(i) => i,
        None => default,
    };
    if v < floor {
        floor
    } else {
        v
    }
}

/// The tools and their permission levels, for every string entry of `t`.
pub fn tool_levels(t: &Vec<(String, TomlDoc)>) -> (r: Vec<(String, String)>)
    ensures
        pair_views(r@) == string_pairs(t@),
{
    let mut r: Vec<(String, String)> = Vec::new();
    let mut i: usize = 0;
    while i < t.len()
        invariant
            0 <= i <= t@.len(),
            pair_views(r@) == string_pairs(t@.subrange(0, i as int)),
        decreases t@.len() - i,
    {
        proof {
            assert(t@.subrange(0, i + 1).drop_last() =~= t@.subrange(0, i as int));
            assert(t@.subrange(0, i + 1).last() == t@[i as int]);
        }
        match &t[i].1 {
            TomlDoc::Str(level) => {
                let ghost before = r@;
                r.push((t[i].0.clone(), level.clone()));
                proof {
                    assert(pair_views(r@) =~= pair_views(before).push((t@[i as int].0@, level@)));
                }
            },
            _ => {},
        }
        i = i + 1;
    }
    proof {
        assert(t@.subrange(0, t@.len() as int) =~= t@);
    }
    r
}

/// The memory section that `t` describes.
pub fn memory_config_from(t: &Vec<(String, TomlDoc)>) -> (r: MemoryConfig)
    ensures
        memory_from(r, t@),
{
    let max_chars = int_at_least_default(t, "max_summary_chars", 1200, 0);
    let top_k = int_at_least_default(t, "retrieve_top_k", 4, 1);
    MemoryConfig {
        enabled_local: bool_or_default(t, "enabled_local", true),
        enabled_cloud: bool_or_default(t, "enabled_cloud", false),
        summarize_on_idle: bool_or_default(t, "summarize_on_idle", true),
        summarize_on_stop: bool_or_default(t, "summarize_on_stop", true),
        max_summary_chars: max_chars as usize,
        retrieve_top_k: top_k as usize,
        collection: str_or_default(t, "collection", "assistant_memory"),
        embedding_model: str_or_default(t, "embedding_model", "all-minilm"),
    }
}

/// The assistant section that `t` describes.
pub fn assistant_config_from(t: &Vec<(String, TomlDoc)>) -> (r: AssistantConfig)
    ensures
        assistant_from(r, t@),
{
    let empty: Vec<(String, TomlDoc)> = Vec::new();
    let instructions = match get_table(t, "instructions") {
        Some(sub) => sub,
        None => &empty,
    };
    let memory = match get_table(t, "memory") {
        Some(sub) => sub,
        None => &empty,
    };
    let tools = match get_table(t, "tools") {
        Some(sub) => sub,
        None => &empty,
    };
    let timeout = int_at_least_default(t, "history_idle_timeout_sec", 3600, 1);
    AssistantConfig {
        default_model: str_or_default(t, "default_model", "gemma4:cloud"),
        history_idle_timeout_sec: timeout as u64,
        memory: memory_config_from(memory),
        system_prompt: str_or_default(instructions, "system_prompt", SYSTEM_PROMPT_DEFAULT),
        tool_usage_policy: str_or_default(instructions, "tool_usage_policy", TOOL_POLICY_DEFAULT),
        tools: tool_levels(tools),
        duck_media: bool_or_default(t, "duck_media", false),
        duck_volume: match get_float(t, "duck_volume") {
            Some(f) => f,
            None => DUCK_VOLUME_DEFAULT,
        },
    }
}

/// The configuration that the merged document `doc` describes.
pub fn config_from(doc: &TomlDoc) -> (r: Config)
    ensures
        addrs_from(r.ipc, Some(*doc)),
        assistant_from(r.assistant, sub_entries(root_entries(*doc), "assistant"@)),
{
    let empty: Vec<(String, TomlDoc)> = Vec::new();
    let root = match doc {
        TomlDoc::Table(t) => t,
        _ => &empty,
    };
    let assistant = match get_table(root, "assistant") {
        Some(sub) => sub,
        None => &empty,
    };
    Config { ipc: load_from_config(Some(doc)), assistant: assistant_config_from(assistant) }
}

/// The built-in defaults of the assistant service, as TOML text.
pub const ASSISTANT_DEFAULTS: &'static str = r#"
version = 1

[ipc]
stt_cmd = "ipc:///tmp/neuropipe_cmd.sock"
stt_pub = "ipc:///tmp/neuropipe_pub.sock"
tts_cmd = "ipc:///tmp/neuropipe_tts_cmd.sock"
tts_events = "ipc:///tmp/neuropipe_tts_events.sock"
assistant_cmd = "ipc:///tmp/neuropipe_assistant_cmd.sock"

[assistant]
default_model = "gemma4:cloud"
history_idle_timeout_sec = 3600

[assistant.memory]
enabled_local = true
enabled_cloud = false
summarize_on_idle = true
summarize_on_stop = true
max_summary_chars = 1200
retrieve_top_k = 4
qdrant_path = "~/.local/share/neuropipe/memory/qdrant"
collection = "assistant_memory"
embedding_model = "all-minilm"

[assistant.instructions]
system_prompt = ""
tool_usage_policy = ""

[assistant.tools]
open_url = "ask"
screenshot = "ask"
web_search = "ask"
media_control = "allow"
"#;

/// The built-in defaults as a document (see `toml_document`).
pub fn default_assistant_doc() -> (r: Result<TomlDoc, String>)
    ensures
        parse_view(r) == toml_document(ASSISTANT_DEFAULTS@),
{
    parse_toml(ASSISTANT_DEFAULTS)
}

/// `r` is the configuration that document `m` describes.
pub open spec fn config_of(r: Config, m: TomlDoc) -> bool {
    &&& addrs_from(r.ipc, Some(m))
    &&& assistant_from(r.assistant, sub_entries(root_entries(m), "assistant"@))
}

/// The configuration of the configuration file `file` (its text, when it
/// could be read) laid over `defaults`; when the file does not parse, that
/// of `defaults`, with the parse error.
pub fn config_from_text(defaults: TomlDoc, file: Option<&str>) -> (r: (Config, Option<String>))
    ensures
        exists|m: TomlDoc| #[trigger] loaded_doc(defaults, text_view(file), m) && config_of(r.0, m),
        message_view(r.1) == file_error(text_view(file)),
{
    let ghost d0 = defaults;
    let (m, error) = layered_or_defaults(defaults, file);
    let config = config_from(&m);
    assert(loaded_doc(d0, text_view(file), m) && config_of(config, m));
    (config, error)
}

} // verus!
