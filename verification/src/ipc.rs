//! The socket addresses of the NeuroPipe services as the command-line tool
//! resolves them, and the listening modes it asks the speech-to-text
//! service for.

use vstd::prelude::*;
use crate::settings::str_at;
use crate::toml_doc::TomlDoc;

verus! {

broadcast use vstd::string::group_string_axioms;

/// The command and event sockets of the services.
#[derive(Clone, Debug, PartialEq, Eq)]
pub struct IpcConfig {
    pub tts_cmd: String,
    pub tts_events: String,
    pub stt_cmd: String,
    pub stt_pub: String,
    pub assistant_cmd: String,
}

/// The address under `[ipc].key`, or `fallback`.
pub open spec fn spec_addr(doc: Option<TomlDoc>, key: Seq<char>, fallback: Seq<char>) -> Seq<char> {
    match doc {
        Some(d) => match str_at(d, seq!["ipc"@, key]) {
            Some(s) => s,
            None => fallback,
        },
        None => fallback,
    }
}

/// The addresses `doc` gives, each falling back to its default (all of them
/// when there is no document).
pub open spec fn addrs_from(a: IpcConfig, doc: Option<TomlDoc>) -> bool {
    &&& a.tts_cmd@ == spec_addr(doc, "tts_cmd"@, "ipc:///tmp/neuropipe_tts_cmd.sock"@)
    &&& a.tts_events@ == spec_addr(doc, "tts_events"@, "ipc:///tmp/neuropipe_tts_events.sock"@)
    &&& a.stt_cmd@ == spec_addr(doc, "stt_cmd"@, "ipc:///tmp/neuropipe_cmd.sock"@)
    &&& a.stt_pub@ == spec_addr(doc, "stt_pub"@, "ipc:///tmp/neuropipe_pub.sock"@)
    &&& a.assistant_cmd@ == spec_addr(doc, "assistant_cmd"@, "ipc:///tmp/neuropipe_assistant_cmd.sock"@)
}

/// The default addresses.
pub fn defaults() -> (r: IpcConfig)
    ensures
        addrs_from(r, None),
{
    IpcConfig {
        tts_cmd: "ipc:///tmp/neuropipe_tts_cmd.sock".to_string(),
        tts_events: "ipc:///tmp/neuropipe_tts_events.sock".to_string(),
        stt_cmd: "ipc:///tmp/neuropipe_cmd.sock".to_string(),
        stt_pub: "ipc:///tmp/neuropipe_pub.sock".to_string(),
        assistant_cmd: "ipc:///tmp/neuropipe_assistant_cmd.sock".to_string(),
    }
}

/// The string at `doc[a][b]`.
fn str_at2(doc: &TomlDoc, a: &str, b: &str) -> (r: Option<String>)
    ensures
        r matches Some(s) ==> str_at(*doc, seq![a@, b@]) == Some(s@),
        r is None ==> str_at(*doc, seq![a@, b@]) is None,
{
    proof {
        reveal_with_fuel(crate::toml_doc::get_path, 3);
        let path = seq![a@, b@];
        assert(path.drop_first() =~= seq![b@]);
        assert(path.drop_first().drop_first() =~= Seq::<Seq<char>>::empty());
    }
    match crate::toml_doc::get_value(doc, a) {
        None => None,
        Some(x) => match crate::toml_doc::get_value(x, b) {
            Some(TomlDoc::Str(s)) => Some(s.clone()),
            _ => None,
        },
    }
}

/// The addresses of the configuration document `doc` (when it could be
/// read), each falling back to its default.
pub fn load_from_config(doc: Option<&TomlDoc>) -> (r: IpcConfig)
    ensures
        addrs_from(r, match doc {
            Some(d) => Some(*d),
            None => None,
        }),
{
    let mut addrs = defaults();
    let d = match doc {
        None => {
            return addrs;
        },
        Some(d) => d,
    };
    if let Some(v) = str_at2(d, "ipc", "tts_cmd") {
        addrs.tts_cmd = v;
    }
    if let Some(v) = str_at2(d, "ipc", "tts_events") {
        addrs.tts_events = v;
    }
    if let Some(v) = str_at2(d, "ipc", "stt_cmd") {
        addrs.stt_cmd = v;
    }
    if let Some(v) = str_at2(d, "ipc", "stt_pub") {
        addrs.stt_pub = v;
    }
    if let Some(v) = str_at2(d, "ipc", "assistant_cmd") {
        addrs.assistant_cmd = v;
    }
    addrs
}

impl IpcConfig {
    /// Command socket of the speech service.
    pub fn tts_cmd(&self) -> (r: &str)
        ensures
            r@ == self.tts_cmd@,
    {
        self.tts_cmd.as_str()
    }

    /// Event socket of the speech service.
    pub fn tts_events(&self) -> (r: &str)
        ensures
            r@ == self.tts_events@,
    {
        self.tts_events.as_str()
    }

    /// Command socket of the speech-to-text service.
    pub fn stt_cmd(&self) -> (r: &str)
        ensures
            r@ == self.stt_cmd@,
    {
        self.stt_cmd.as_str()
    }

    /// Event socket of the speech-to-text service.
    pub fn stt_pub(&self) -> (r: &str)
        ensures
            r@ == self.stt_pub@,
    {
        self.stt_pub.as_str()
    }

    /// Command socket of the assistant.
    pub fn assistant_cmd(&self) -> (r: &str)
        ensures
            r@ == self.assistant_cmd@,
    {
        self.assistant_cmd.as_str()
    }
}

/// The mode requested by `vad`: listen and cut turns by voice activity.
pub fn vad() -> (r: &'static str)
    ensures
        r@ == "VAD"@,
{
    "VAD"
}

/// The mode requested by `idle`: stop listening.
pub fn idle() -> (r: &'static str)
    ensures
        r@ == "IDLE"@,
{
    "IDLE"
}

/// The mode requested by `record_start`: record until told to stop.
pub fn record_start() -> (r: &'static str)
    ensures
        r@ == "MANUAL"@,
{
    "MANUAL"
}

} // verus!
