//! The assistant's bookkeeping: the speech events of the current reply,
//! the tool permissions of a session, and the decisions about what to do
//! with a tool call.

use vstd::prelude::*;
use sha2::{Digest, Sha256};
use crate::sentences::views;
use crate::text::{chars_of, trim, trim_bounds, string_of};
use crate::toml_doc::{concat3, concat4, is_blank};
use crate::voices::same_chars;
use crate::cli_config::str_eq;

verus! {

broadcast use vstd::string::group_string_axioms;

// ---------------------------------------------------------------------------
// Speech events of a reply
// ---------------------------------------------------------------------------

/// An event that the speech service publishes while it speaks a reply.
#[derive(Clone, Debug, PartialEq, Eq)]
pub enum TtsEvent {
    /// A sentence started; the sentence's text when the event carries it.
    Speaking(Option<String>),
    /// A sentence finished.
    SentenceDone,
    /// Playback was interrupted.
    Interrupted,
    /// Any other event.
    Other,
}

/// The speech events seen for the current reply.
pub struct TtsEvents {
    pub started_sentences: Vec<String>,
    pub completed_sentences: usize,
    pub interrupted: bool,
    pub active_sentences: usize,
}

/// `n + 1`, staying at `usize::MAX`.
pub open spec fn bump(n: usize) -> usize {
    if n < usize::MAX {
        (n + 1) as usize
    } else {
        n
    }
}

/// `n - 1`, staying at 0.
pub open spec fn drop_one(n: usize) -> usize {
    if n > 0 {
        (n - 1) as usize
    } else {
        0
    }
}

impl TtsEvents {
    /// No events yet.
    pub fn new() -> (r: Self)
        ensures
            r.started_sentences@.len() == 0,
            r.completed_sentences == 0,
            !r.interrupted,
            r.active_sentences == 0,
    {
        TtsEvents { started_sentences: Vec::new(), completed_sentences: 0, interrupted: false, active_sentences: 0 }
    }

    /// Forgets the events of the previous reply.
    pub fn begin_response(&mut self)
        ensures
            final(self).started_sentences@.len() == 0,
            final(self).completed_sentences == 0,
            !final(self).interrupted,
            final(self).active_sentences == 0,
    {
        self.started_sentences = Vec::new();
        self.completed_sentences = 0;
        self.interrupted = false;
        self.active_sentences = 0;
    }

    /// Records an event; returns whether it changed anything (and waiters
    /// should be woken). Counts saturate instead of overflowing.
    pub fn record(&mut self, event: TtsEvent) -> (changed: bool)
        ensures
            match event {
                TtsEvent::Speaking(s) => {
                    &&& changed
                    &&& views(final(self).started_sentences@) == match s {
                        Some(t) => views(old(self).started_sentences@).push(t@),
                        None => views(old(self).started_sentences@),
                    }
                    &&& final(self).active_sentences == bump(old(self).active_sentences)
                    &&& final(self).completed_sentences == old(self).completed_sentences
                    &&& final(self).interrupted == old(self).interrupted
                },
                TtsEvent::SentenceDone => {
                    &&& changed
                    &&& final(self).started_sentences@ == old(self).started_sentences@
                    &&& final(self).completed_sentences == bump(old(self).completed_sentences)
                    &&& final(self).active_sentences == drop_one(old(self).active_sentences)
                    &&& final(self).interrupted == old(self).interrupted
                },
                TtsEvent::Interrupted => {
                    &&& changed
                    &&& final(self).started_sentences@ == old(self).started_sentences@
                    &&& final(self).completed_sentences == bump(old(self).completed_sentences)
                    &&& final(self).active_sentences == drop_one(old(self).active_sentences)
                    &&& final(self).interrupted
                },
                TtsEvent::Other => !changed && *final(self) == *old(self),
            },
    {
        match event {
            TtsEvent::Speaking(sentence) => {
                let ghost before = self.started_sentences@;
                if let Some(s) = sentence {
                    self.started_sentences.push(s);
                    assert(views(self.started_sentences@) =~= views(before).push(self.started_sentences@.last()@));
                }
                self.active_sentences = self.active_sentences.saturating_add(1);
                true
            },
            TtsEvent::SentenceDone => {
                self.completed_sentences = self.completed_sentences.saturating_add(1);
                self.active_sentences = self.active_sentences.saturating_sub(1);
                true
            },
            TtsEvent::Interrupted => {
                self.completed_sentences = self.completed_sentences.saturating_add(1);
                self.interrupted = true;
                self.active_sentences = self.active_sentences.saturating_sub(1);
                true
            },
            TtsEvent::Other => false,
        }
    }

    /// The sentences that started playing, in order.
    pub fn started_sentences(&self) -> (r: Vec<String>)
        ensures
            r@ == self.started_sentences@,
    {
        let mut out: Vec<String> = Vec::new();
        let mut k: usize = 0;
        while k < self.started_sentences.len()
            invariant
                0 <= k <= self.started_sentences@.len(),
                out@ == self.started_sentences@.take(k as int),
            decreases self.started_sentences@.len() - k,
        {
            out.push(self.started_sentences[k].clone());
            assert(out@ =~= self.started_sentences@.take(k + 1));
            k = k + 1;
        }
        assert(self.started_sentences@.take(self.started_sentences@.len() as int) =~= self.started_sentences@);
        out
    }

    /// Whether a sentence is playing now.
    pub fn is_speaking(&self) -> (r: bool)
        ensures
            r == (self.active_sentences > 0),
    {
        self.active_sentences > 0
    }

    /// Whether a conversation in mode `MODE1` still waits for the speech of
    /// `expected` sentences to finish.
    pub fn keep_waiting(&self, expected: usize, cancelled: bool, mode_is_mode1: bool) -> (r: bool)
        ensures
            r == (self.completed_sentences < expected && !cancelled && mode_is_mode1),
    {
        self.completed_sentences < expected && !cancelled && mode_is_mode1
    }
}

// ---------------------------------------------------------------------------
// Tool permissions
// ---------------------------------------------------------------------------

/// A tool found on disk.
#[derive(Clone, Debug, PartialEq, Eq)]
pub struct ToolInfo {
    pub name: String,
    pub filepath: String,
    pub description: String,
    /// The JSON schema of the tool's parameters, as text.
    pub parameters: String,
}

/// The tools of the assistant, their permission levels, and the grants of
/// the current session.
pub struct ToolManager {
    tools: Vec<ToolInfo>,
    config: Vec<(String, String)>,
    granted: Vec<String>,
    pending: Option<String>,
}

/// The level given for `name` in `config`.
pub open spec fn level_in(config: Seq<(String, String)>, name: Seq<char>) -> Option<Seq<char>>
    decreases config.len(),
{
    if config.len() == 0 {
        None
    } else if config.last().0@ == name {
        Some(config.last().1@)
    } else {
        level_in(config.drop_last(), name)
    }
}

/// The names in `s`.
pub open spec fn tool_names(s: Seq<ToolInfo>) -> Seq<Seq<char>> {
    s.map_values(|t: ToolInfo| t.name@)
}

/// Whether `name` is one of `names`.
pub open spec fn has_name(names: Seq<Seq<char>>, name: Seq<char>) -> bool {
    names.contains(name)
}

impl ToolManager {
    /// The tools found, in discovery order.
    pub closed spec fn tool_list(&self) -> Seq<ToolInfo> {
        self.tools@
    }

    /// The permission level of `name`, if one is set.
    pub closed spec fn level(&self, name: Seq<char>) -> Option<Seq<char>> {
        level_in(self.config@, name)
    }

    /// The tools granted for this session.
    pub closed spec fn grants(&self) -> Set<Seq<char>> {
        views(self.granted@).to_set()
    }

    /// The tool last refused for want of a grant.
    pub closed spec fn pending_name(&self) -> Option<Seq<char>> {
        match self.pending {
            Some(p) => Some(p@),
            None => None,
        }
    }

    /// Permission levels from configuration, later entries winning; no
    /// tools yet and nothing granted.
    pub fn new(initial: &[(String, String)]) -> (r: Self)
        ensures
            r.tool_list().len() == 0,
            forall|n: Seq<char>| #[trigger] r.level(n) == level_in(initial@, n),
            r.grants().is_empty(),
            r.pending_name() is None,
    {
        let mut config: Vec<(String, String)> = Vec::new();
        let mut k: usize = 0;
        while k < initial.len()
            invariant
                0 <= k <= initial@.len(),
                forall|n: Seq<char>| #[trigger] level_in(config@, n) == level_in(initial@.take(k as int), n),
            decreases initial@.len() - k,
        {
            let ghost before = config@;
            config.push((initial[k].0.clone(), initial[k].1.clone()));
            proof {
                let t = initial@.take(k + 1);
                assert(config@.drop_last() =~= before);
                assert(t.drop_last() =~= initial@.take(k as int));
                assert(config@.last().0@ == t.last().0@);
                assert(config@.last().1@ == t.last().1@);
                assert forall|n: Seq<char>| #[trigger] level_in(config@, n) == level_in(t, n) by {
                    assert(level_in(before, n) == level_in(initial@.take(k as int), n));
                }
            }
            k = k + 1;
        }
        assert(initial@.take(initial@.len() as int) =~= initial@);
        let r = ToolManager { tools: Vec::new(), config, granted: Vec::new(), pending: None };
        assert(views(r.granted@) =~= Seq::<Seq<char>>::empty());
        r
    }

    /// The permission level of `name`: its configured level, else `deny`.
    pub fn check(&self, name: &str) -> (r: String)
        ensures
            r@ == match self.level(name@) {
                Some(l) => l,
                None => "deny"@,
            },
    {
        let n = chars_of(name);
        let mut k = self.config.len();
        assert(self.config@.take(k as int) =~= self.config@);
        while k > 0
            invariant
                k <= self.config@.len(),
                n@ == name@,
                level_in(self.config@, name@) == level_in(self.config@.take(k as int), name@),
            decreases k,
        {
            assert(self.config@.take(k as int).drop_last() =~= self.config@.take(k - 1));
            if same_chars(&chars_of(self.config[k - 1].0.as_str()), &n) {
                return self.config[k - 1].1.clone();
            }
            k = k - 1;
        }
        "deny".to_string()
    }

    /// Sets the level of `name`.
    fn set_level(&mut self, name: &String, level: &str)
        ensures
            final(self).level(name@) == Some(level@),
            forall|n: Seq<char>| n != name@ ==> #[trigger] final(self).level(n) == old(self).level(n),
            final(self).tools == old(self).tools,
            final(self).granted == old(self).granted,
            final(self).pending == old(self).pending,
    {
        let ghost before = self.config@;
        self.config.push((name.clone(), level.to_string()));
        assert(self.config@.drop_last() =~= before);
    }

    /// Whether a tool of that name was found.
    pub fn has_tool(&self, name: &str) -> (r: bool)
        ensures
            r == has_name(tool_names(self.tool_list()), name@),
    {
        let n = chars_of(name);
        let mut k: usize = 0;
        while k < self.tools.len()
            invariant
                0 <= k <= self.tools@.len(),
                n@ == name@,
                forall|m: int| 0 <= m < k ==> tool_names(self.tools@)[m] != name@,
            decreases self.tools@.len() - k,
        {
            assert(tool_names(self.tools@)[k as int] == self.tools@[k as int].name@);
            if same_chars(&chars_of(self.tools[k].name.as_str()), &n) {
                return true;
            }
            k = k + 1;
        }
        false
    }

    /// Adds a tool found on disk unless one of that name is known; a tool
    /// without a configured level gets `default_permission` (or `ask`).
    /// Returns whether it was added.
    pub fn add_discovered(&mut self, tool: ToolInfo, default_permission: Option<String>) -> (added: bool)
        ensures
            added == !has_name(tool_names(old(self).tool_list()), tool.name@),
            added ==> final(self).tool_list() == old(self).tool_list().push(tool),
            !added ==> final(self).tool_list() == old(self).tool_list(),
            added && old(self).level(tool.name@) is None ==> final(self).level(tool.name@) == Some(
                match default_permission {
                    Some(p) => p@,
                    None => "ask"@,
                },
            ),
            forall|n: Seq<char>| n != tool.name@ ==> #[trigger] final(self).level(n) == old(self).level(n),
            !added || old(self).level(tool.name@) is Some ==> final(self).level(tool.name@) == old(self).level(
                tool.name@,
            ),
            final(self).grants() == old(self).grants(),
            final(self).pending_name() == old(self).pending_name(),
    {
        if self.has_tool(tool.name.as_str()) {
            return false;
        }
        let ghost tname = tool.name@;
        if !self.has_level(tool.name.as_str()) {
            let level = match default_permission {
                Some(p) => p,
                None => "ask".to_string(),
            };
            let name = tool.name.clone();
            self.set_level(&name, level.as_str());
        }
        let ghost mid = *self;
        self.tools.push(tool);
        assert forall|n: Seq<char>| n != tname implies #[trigger] self.level(n) == old(self).level(n) by {
            assert(self.level(n) == mid.level(n));
        }
        assert(self.level(tname) == mid.level(tname));
        true
    }

    /// Whether a level is configured for `name`.
    fn has_level(&self, name: &str) -> (r: bool)
        ensures
            r == self.level(name@) is Some,
    {
        let n = chars_of(name);
        let mut k = self.config.len();
        assert(self.config@.take(k as int) =~= self.config@);
        while k > 0
            invariant
                k <= self.config@.len(),
                n@ == name@,
                level_in(self.config@, name@) == level_in(self.config@.take(k as int), name@),
            decreases k,
        {
            assert(self.config@.take(k as int).drop_last() =~= self.config@.take(k - 1));
            if same_chars(&chars_of(self.config[k - 1].0.as_str()), &n) {
                return true;
            }
            k = k - 1;
        }
        false
    }

    /// Whether `name` is granted for this session.
    pub fn is_granted(&self, name: &str) -> (r: bool)
        ensures
            r == self.grants().contains(name@),
    {
        let n = chars_of(name);
        let mut k: usize = 0;
        while k < self.granted.len()
            invariant
                0 <= k <= self.granted@.len(),
                n@ == name@,
                forall|m: int| 0 <= m < k ==> views(self.granted@)[m] != name@,
            decreases self.granted@.len() - k,
        {
            assert(views(self.granted@)[k as int] == self.granted@[k as int]@);
            if same_chars(&chars_of(self.granted[k].as_str()), &n) {
                assert(views(self.granted@).contains(name@));
                return true;
            }
            k = k + 1;
        }
        assert(!views(self.granted@).contains(name@));
        false
    }

    /// Grants `name` for this session.
    pub fn grant(&mut self, name: &str)
        ensures
            final(self).grants() == old(self).grants().insert(name@),
            final(self).tool_list() == old(self).tool_list(),
            forall|n: Seq<char>| #[trigger] final(self).level(n) == old(self).level(n),
            final(self).pending_name() == old(self).pending_name(),
    {
        if !self.is_granted(name) {
            let ghost before = views(self.granted@);
            self.granted.push(name.to_string());
            assert(views(self.granted@) =~= before.push(name@));
            assert(views(self.granted@).to_set() =~= before.to_set().insert(name@)) by {
                broadcast use vstd::seq_lib::group_seq_properties;

            }
        } else {
            assert(old(self).grants().insert(name@) =~= old(self).grants());
        }
    }

    /// Forgets every grant (a new session starts).
    pub fn reset_session(&mut self)
        ensures
            final(self).grants().is_empty(),
            final(self).tool_list() == old(self).tool_list(),
            forall|n: Seq<char>| #[trigger] final(self).level(n) == old(self).level(n),
            final(self).pending_name() == old(self).pending_name(),
    {
        self.granted = Vec::new();
        assert(views(self.granted@) =~= Seq::<Seq<char>>::empty());
        assert(views(self.granted@).to_set() =~= Set::<Seq<char>>::empty());
    }

    /// Remembers `name` as the tool waiting for a spoken grant.
    pub fn mark_pending(&mut self, name: &str)
        ensures
            final(self).pending_name() == Some(name@),
            final(self).tool_list() == old(self).tool_list(),
            forall|n: Seq<char>| #[trigger] final(self).level(n) == old(self).level(n),
            final(self).grants() == old(self).grants(),
    {
        self.pending = Some(name.to_string());
    }

    /// The tool waiting for a spoken grant, if any.
    pub fn pending_tool(&self) -> (r: Option<String>)
        ensures
            match r {
                Some(p) => self.pending_name() == Some(p@),
                None => self.pending_name() is None,
            },
    {
        match &self.pending {
            Some(p) => Some(p.clone()),
            None => None,
        }
    }
}

/// What the assistant does with a tool call, given the tool's permission.
#[derive(Clone, Debug, PartialEq, Eq)]
pub enum PermissionDecision {
    /// Run the tool.
    Run,
    /// Do not run it; the reason goes back to the model.
    Refuse(String),
    /// Do not run it yet; the user is asked to grant it, and the reason
    /// goes back to the model.
    AskUser(String),
}

/// The message returned to the model for a disabled tool.
pub open spec fn disabled_message(name: Seq<char>) -> Seq<char> {
    "Tool '"@ + name + "' is disabled."@
}

/// The message returned to the model for a tool that needs a grant.
pub open spec fn grant_needed_message(name: Seq<char>) -> Seq<char> {
    "Permission needed: '"@ + name
        + "' is set to ask mode. Tell the user to allow it with set-tools or say 'yes' to grant it for this session."@
}

impl ToolManager {
    /// Decides about a call of `name`: run it when allowed or granted,
    /// refuse it when denied (or unknown), otherwise remember it as pending
    /// and ask the user.
    pub fn decide_permission(&mut self, name: &str) -> (r: PermissionDecision)
        ensures
            ({
                let level = match old(self).level(name@) {
                    Some(l) => l,
                    None => "deny"@,
                };
                if level == "allow"@ {
                    r matches PermissionDecision::Run && *final(self) == *old(self)
                } else if level == "deny"@ {
                    r matches PermissionDecision::Refuse(m) && m@ == disabled_message(name@) && *final(self) == *old(self)
                } else if old(self).grants().contains(name@) {
                    r matches PermissionDecision::Run && *final(self) == *old(self)
                } else {
                    &&& r matches PermissionDecision::AskUser(m) && m@ == grant_needed_message(name@)
                    &&& final(self).pending_name() == Some(name@)
                    &&& final(self).tool_list() == old(self).tool_list()
                    &&& final(self).grants() == old(self).grants()
                    &&& forall|n: Seq<char>| #[trigger] final(self).level(n) == old(self).level(n)
                }
            }),
    {
        let level = self.check(name);
        if same_chars(&chars_of(level.as_str()), &chars_of("allow")) {
            PermissionDecision::Run
        } else if same_chars(&chars_of(level.as_str()), &chars_of("deny")) {
            PermissionDecision::Refuse(concat3("Tool '", name, "' is disabled."))
        } else if self.is_granted(name) {
            PermissionDecision::Run
        } else {
            self.mark_pending(name);
            PermissionDecision::AskUser(
                concat3(
                    "Permission needed: '",
                    name,
                    "' is set to ask mode. Tell the user to allow it with set-tools or say 'yes' to grant it for this session.",
                ),
            )
        }
    }

    /// Applies the levels that name a known tool and a valid level; other
    /// entries are ignored.
    pub fn set_config(&mut self, entries: &Vec<(String, Option<String>)>)
        ensures
            final(self).tool_list() == old(self).tool_list(),
            final(self).grants() == old(self).grants(),
            final(self).pending_name() == old(self).pending_name(),
            forall|n: Seq<char>|
                #[trigger] final(self).level(n) == match accepted_level(entries@, tool_names(old(self).tool_list()), n) {
                    Some(l) => Some(l),
                    None => old(self).level(n),
                },
    {
        let mut k: usize = 0;
        let ghost start = *self;
        while k < entries.len()
            invariant
                0 <= k <= entries@.len(),
                self.tool_list() == start.tool_list(),
                self.grants() == start.grants(),
                self.pending_name() == start.pending_name(),
                forall|n: Seq<char>|
                    #[trigger] self.level(n) == match accepted_level(
                        entries@.take(k as int),
                        tool_names(start.tool_list()),
                        n,
                    ) {
                        Some(l) => Some(l),
                        None => start.level(n),
                    },
            decreases entries@.len() - k,
        {
            let ghost before = *self;
            proof {
                assert(entries@.take(k + 1).drop_last() =~= entries@.take(k as int));
            }
            match &entries[k].1 {
                Some(l) => {
                    if self.has_tool(entries[k].0.as_str()) && crate::cli_config::is_valid_permission(l.as_str()) {
                        self.set_level(&entries[k].0, l.as_str());
                        assert forall|n: Seq<char>|
                            #[trigger] self.level(n) == match accepted_level(
                                entries@.take(k + 1),
                                tool_names(start.tool_list()),
                                n,
                            ) {
                                Some(l) => Some(l),
                                None => start.level(n),
                            } by {
                            assert(before.level(n) == match accepted_level(
                                entries@.take(k as int),
                                tool_names(start.tool_list()),
                                n,
                            ) {
                                Some(l) => Some(l),
                                None => start.level(n),
                            });
                        }
                    } else {
                        assert forall|n: Seq<char>|
                            #[trigger] self.level(n) == match accepted_level(
                                entries@.take(k + 1),
                                tool_names(start.tool_list()),
                                n,
                            ) {
                                Some(l) => Some(l),
                                None => start.level(n),
                            } by {
                            assert(before.level(n) == match accepted_level(
                                entries@.take(k as int),
                                tool_names(start.tool_list()),
                                n,
                            ) {
                                Some(l) => Some(l),
                                None => start.level(n),
                            });
                        }
                    }
                },
                None => {
                    assert forall|n: Seq<char>|
                        #[trigger] self.level(n) == match accepted_level(
                            entries@.take(k + 1),
                            tool_names(start.tool_list()),
                            n,
                        ) {
                            Some(l) => Some(l),
                            None => start.level(n),
                        } by {
                        assert(before.level(n) == match accepted_level(
                            entries@.take(k as int),
                            tool_names(start.tool_list()),
                            n,
                        ) {
                            Some(l) => Some(l),
                            None => start.level(n),
                        });
                    }
                },
            }
            k = k + 1;
        }
        assert(entries@.take(entries@.len() as int) =~= entries@);
    }

    /// Checks levels before they are applied: the first entry that names
    /// no known tool, or gives a level other than `allow`, `ask` or `deny`
    /// (or none), is reported; otherwise the levels are accepted.
    pub fn check_levels(&self, entries: &Vec<(String, Option<String>)>) -> (r: Result<(), ToolLevelError>)
        ensures
            match r {
                Ok(()) => forall|i: int|
                    0 <= i < entries@.len() ==> level_entry_ok(tool_names(self.tool_list()), #[trigger] entries@[i]),
                Err(err) => exists|i: int|
                    0 <= i < entries@.len() && (forall|j: int|
                        0 <= j < i ==> level_entry_ok(tool_names(self.tool_list()), #[trigger] entries@[j]))
                        && !level_entry_ok(tool_names(self.tool_list()), #[trigger] entries@[i]) && err
                        == level_entry_error(tool_names(self.tool_list()), entries@[i]),
            },
    {
        let mut k: usize = 0;
        while k < entries.len()
            invariant
                0 <= k <= entries@.len(),
                forall|j: int| 0 <= j < k ==> level_entry_ok(tool_names(self.tool_list()), #[trigger] entries@[j]),
            decreases entries@.len() - k,
        {
            let name = &entries[k].0;
            if !self.has_tool(name.as_str()) {
                assert(!level_entry_ok(tool_names(self.tool_list()), entries@[k as int]));
                return Err(ToolLevelError::UnknownTool(name.clone()));
            }
            let ok = match &entries[k].1 {
                Some(l) => crate::cli_config::is_valid_permission(l.as_str()),
                None => false,
            };
            if !ok {
                assert(!level_entry_ok(tool_names(self.tool_list()), entries@[k as int]));
                return Err(ToolLevelError::InvalidPermission(name.clone()));
            }
            k = k + 1;
        }
        Ok(())
    }

    /// Each tool with its level (`deny` when none is set), in discovery
    /// order.
    pub fn list_all(&self) -> (r: Vec<(String, String)>)
        ensures
            r@.len() == self.tool_list().len(),
            forall|i: int|
                0 <= i < r@.len() ==> (#[trigger] r@[i]).0@ == self.tool_list()[i].name@ && r@[i].1@ == match self.level(
                    self.tool_list()[i].name@,
                ) {
                    Some(l) => l,
                    None => "deny"@,
                },
    {
        let mut out: Vec<(String, String)> = Vec::new();
        let mut k: usize = 0;
        while k < self.tools.len()
            invariant
                0 <= k <= self.tools@.len(),
                out@.len() == k,
                forall|i: int|
                    0 <= i < k ==> (#[trigger] out@[i]).0@ == self.tools@[i].name@ && out@[i].1@ == match self.level(
                        self.tools@[i].name@,
                    ) {
                        Some(l) => l,
                        None => "deny"@,
                    },
            decreases self.tools@.len() - k,
        {
            let level = self.check(self.tools[k].name.as_str());
            out.push((self.tools[k].name.clone(), level));
            k = k + 1;
        }
        out
    }

    /// Positions (in discovery order) of the tools that are not denied.
    pub fn active_indices(&self) -> (r: Vec<usize>)
        ensures
            r@ == active_from(self.tool_list(), |n: Seq<char>| self.level(n), self.tool_list().len() as int),
    {
        let mut out: Vec<usize> = Vec::new();
        let mut k: usize = 0;
        while k < self.tools.len()
            invariant
                0 <= k <= self.tools@.len(),
                out@ == active_from(self.tools@, |n: Seq<char>| self.level(n), k as int),
            decreases self.tools@.len() - k,
        {
            let denied = self.has_level(self.tools[k].name.as_str()) && same_chars(
                &chars_of(self.check(self.tools[k].name.as_str()).as_str()),
                &chars_of("deny"),
            );
            if !denied {
                out.push(k);
            }
            k = k + 1;
        }
        out
    }

    /// The tools found.
    pub fn tools(&self) -> (r: &Vec<ToolInfo>)
        ensures
            r@ == self.tool_list(),
    {
        &self.tools
    }
}

/// The positions `< k` of the tools whose configured level is not `deny`
/// (a tool without a level is active).
pub open spec fn active_from(tools: Seq<ToolInfo>, levels: spec_fn(Seq<char>) -> Option<Seq<char>>, k: int) -> Seq<usize>
    decreases k,
{
    if k <= 0 {
        Seq::empty()
    } else {
        let rest = active_from(tools, levels, k - 1);
        match levels(tools[k - 1].name@) {
            Some(l) => if l != "deny"@ {
                rest.push((k - 1) as usize)
            } else {
                rest
            },
            None => rest.push((k - 1) as usize),
        }
    }
}

/// The level that the entries last give `n`, counting only entries for a
/// known tool with a valid level.
pub open spec fn accepted_level(entries: Seq<(String, Option<String>)>, known: Seq<Seq<char>>, n: Seq<char>) -> Option<Seq<char>>
    decreases entries.len(),
{
    if entries.len() == 0 {
        None
    } else {
        let e = entries.last();
        match e.1 {
            Some(l) => if e.0@ == n && known.contains(n) && crate::cli_config::valid_permission(l@) {
                Some(l@)
            } else {
                accepted_level(entries.drop_last(), known, n)
            },
            None => accepted_level(entries.drop_last(), known, n),
        }
    }
}

// ---------------------------------------------------------------------------
// Models and memory
// ---------------------------------------------------------------------------

/// Why a set of tool levels is refused; each carries the tool's name.
#[derive(Clone, Debug, PartialEq, Eq)]
pub enum ToolLevelError {
    UnknownTool(String),
    InvalidPermission(String),
}

/// An entry names a known tool and gives a valid level.
pub open spec fn level_entry_ok(known: Seq<Seq<char>>, e: (String, Option<String>)) -> bool {
    has_name(known, e.0@) && match e.1 {
        Some(l) => crate::cli_config::valid_permission(l@),
        None => false,
    }
}

/// The error for an entry that is not accepted: an unknown name comes first.
pub open spec fn level_entry_error(known: Seq<Seq<char>>, e: (String, Option<String>)) -> ToolLevelError {
    if !has_name(known, e.0@) {
        ToolLevelError::UnknownTool(e.0)
    } else {
        ToolLevelError::InvalidPermission(e.0)
    }
}

/// The model after a request to change it: the requested name, trimmed,
/// unless nothing is left of it.
pub open spec fn spec_chosen_model(current: Seq<char>, requested: Option<Seq<char>>) -> Seq<char> {
    match requested {
        Some(m) => if trim(m).len() == 0 {
            current
        } else {
            trim(m)
        },
        None => current,
    }
}

/// The model after a request to change it.
pub fn chosen_model(current: &str, requested: Option<&str>) -> (r: String)
    ensures
        r@ == spec_chosen_model(
            current@,
            match requested {
                Some(m) => Some(m@),
                None => None,
            },
        ),
{
    match requested {
        Some(m) => {
            let v = chars_of(m);
            let (a, b) = trim_bounds(&v, 0, v.len());
            assert(v@.subrange(0, v@.len() as int) =~= v@);
            if a == b {
                current.to_string()
            } else {
                string_of(&v, a, b)
            }
        },
        None => current.to_string(),
    }
}

/// Whether `model` names a cloud model (its name ends with `:cloud`).
pub open spec fn spec_is_cloud_model(model: Seq<char>) -> bool {
    model.len() >= 6 && model.subrange(model.len() - 6, model.len() as int) == ":cloud"@
}

/// Whether `model` is a cloud model.
pub fn is_cloud_model(model: &str) -> (r: bool)
    ensures
        r == spec_is_cloud_model(model@),
{
    let m = chars_of(model);
    let suffix = chars_of(":cloud");
    proof {
        reveal_strlit(":cloud");
        assert(":cloud"@.len() == 6);
    }
    if m.len() < 6 {
        return false;
    }
    let n = m.len();
    let start = n - 6;
    let mut k: usize = 0;
    while k < 6
        invariant
            n == m@.len(),
            0 <= k <= 6,
            m@ == model@,
            suffix@ == ":cloud"@,
            suffix@.len() == 6,
            start + 6 == m@.len(),
            forall|i: int| 0 <= i < k ==> m@[start + i] == suffix@[i],
        decreases 6 - k,
    {
        if m[start + k] != suffix[k] {
            assert(model@.subrange(start as int, model@.len() as int)[k as int] != ":cloud"@[k as int]);
            return false;
        }
        k = k + 1;
    }
    assert(model@.subrange(start as int, model@.len() as int) =~= ":cloud"@);
    true
}

/// Whether memory may be used with `model`: cloud models follow
/// `enabled_cloud`, local ones `enabled_local`.
pub fn memory_allowed_for_model(model: &str, enabled_local: bool, enabled_cloud: bool) -> (r: bool)
    ensures
        r == if spec_is_cloud_model(model@) {
            enabled_cloud
        } else {
            enabled_local
        },
{
    if is_cloud_model(model) {
        enabled_cloud
    } else {
        enabled_local
    }
}

/// Whether a summary is to be made for `trigger`: not on an idle timeout
/// unless `summarize_on_idle`, not on a stop unless `summarize_on_stop`.
pub fn summary_wanted(trigger: &str, summarize_on_idle: bool, summarize_on_stop: bool) -> (r: bool)
    ensures
        r == !((trigger@ == "idle_timeout"@ && !summarize_on_idle) || (trigger@ == "stop"@ && !summarize_on_stop)),
{
    let t = chars_of(trigger);
    if same_chars(&t, &chars_of("idle_timeout")) && !summarize_on_idle {
        return false;
    }
    if same_chars(&t, &chars_of("stop")) && !summarize_on_stop {
        return false;
    }
    true
}

/// What the SHA-256 digest of the UTF-8 bytes of `text` is, in lower-case
/// hexadecimal.
pub uninterp spec fn sha256_hex(text: Seq<char>) -> Seq<char>;

/// Hashes the UTF-8 bytes of `text` with `sha2::Sha256` and formats the
/// digest as lower-case hexadecimal (`{:x}`); the contract names the
/// result.
#[verifier::external_body]
fn sha256_digest(text: &str) -> (r: String)
    ensures
        r@ == sha256_hex(text@),
{
    let mut h = Sha256::new();
    h.update(text.as_bytes());
    format!("{:x}", h.finalize())
}

/// Summaries shorter than this are not stored.
pub const MIN_SUMMARY_CHARS: usize = 24;

/// The digest under which `summary` is stored, unless it is too short or
/// the same as the last one stored (`last_digest`).
pub open spec fn spec_digest_to_store(summary: Seq<char>, last_digest: Option<Seq<char>>) -> Option<Seq<char>> {
    if summary.len() < MIN_SUMMARY_CHARS {
        None
    } else if last_digest == Some(sha256_hex(summary)) {
        None
    } else {
        Some(sha256_hex(summary))
    }
}

/// Decides whether `summary` is new enough to store; returns its digest
/// when it is (see `spec_digest_to_store`).
pub fn digest_to_store(summary: &str, last_digest: Option<&str>) -> (r: Option<String>)
    ensures
        match r {
            Some(d) => spec_digest_to_store(summary@, match last_digest {
                Some(l) => Some(l@),
                None => None,
            }) == Some(d@),
            None => spec_digest_to_store(summary@, match last_digest {
                Some(l) => Some(l@),
                None => None,
            }) is None,
        },
{
    let chars = chars_of(summary);
    if chars.len() < MIN_SUMMARY_CHARS {
        return None;
    }
    let digest = sha256_digest(summary);
    match last_digest {
        Some(last) => {
            if same_chars(&chars_of(last), &chars_of(digest.as_str())) {
                return None;
            }
        },
        None => {},
    }
    Some(digest)
}

/// The header of the memory context message.
pub open spec fn memory_header() -> Seq<char> {
    "Relevant long-term memory from prior sessions. Use it only when helpful and avoid fabricating details.\n"@
}

/// The non-blank documents of `docs`, trimmed, as list items.
pub open spec fn memory_snippets(docs: Seq<Seq<char>>) -> Seq<Seq<char>>
    decreases docs.len(),
{
    if docs.len() == 0 {
        Seq::empty()
    } else if trim(docs.last()).len() == 0 {
        memory_snippets(docs.drop_last())
    } else {
        memory_snippets(docs.drop_last()).push("- "@ + trim(docs.last()))
    }
}

/// The memory context given the retrieved documents: none when no document
/// has text, else the header and one item per document.
pub open spec fn spec_memory_context(docs: Seq<Seq<char>>) -> Option<Seq<char>> {
    if memory_snippets(docs).len() == 0 {
        None
    } else {
        Some(memory_header() + crate::text::join(memory_snippets(docs), "\n"@))
    }
}

/// Joins `parts` with `sep`.
pub fn join_strings(parts: &Vec<String>, sep: &str) -> (r: String)
    ensures
        r@ == crate::text::join(views(parts@), sep@),
{
    let mut out = String::new();
    let mut k: usize = 0;
    while k < parts.len()
        invariant
            0 <= k <= parts@.len(),
            out@ == crate::text::join(views(parts@.take(k as int)), sep@),
        decreases parts@.len() - k,
    {
        let ghost before = views(parts@.take(k as int));
        assert(views(parts@.take(k + 1)) =~= before.push(parts@[k as int]@));
        assert(views(parts@.take(k + 1)).drop_last() =~= before);
        if k > 0 {
            crate::text::append_str(&mut out, sep);
        }
        crate::text::append_str(&mut out, parts[k].as_str());
        k = k + 1;
    }
    assert(parts@.take(parts@.len() as int) =~= parts@);
    out
}

/// The memory context message for the retrieved documents (see
/// `spec_memory_context`).
pub fn memory_context(docs: &Vec<String>) -> (r: Option<String>)
    ensures
        match r {
            Some(t) => spec_memory_context(views(docs@)) == Some(t@),
            None => spec_memory_context(views(docs@)) is None,
        },
{
    let mut snippets: Vec<String> = Vec::new();
    let mut k: usize = 0;
    while k < docs.len()
        invariant
            0 <= k <= docs@.len(),
            views(snippets@) == memory_snippets(views(docs@.take(k as int))),
        decreases docs@.len() - k,
    {
        let ghost before = views(snippets@);
        assert(views(docs@.take(k + 1)).drop_last() =~= views(docs@.take(k as int)));
        assert(views(docs@.take(k + 1)).last() == docs@[k as int]@);
        let v = chars_of(docs[k].as_str());
        let (a, b) = trim_bounds(&v, 0, v.len());
        assert(v@.subrange(0, v@.len() as int) =~= v@);
        if a < b {
            let t = string_of(&v, a, b);
            snippets.push(crate::toml_doc::concat2("- ", t.as_str()));
            assert(views(snippets@) =~= before.push("- "@ + trim(docs@[k as int]@)));
        }
        k = k + 1;
    }
    assert(docs@.take(docs@.len() as int) =~= docs@);
    if snippets.len() == 0 {
        return None;
    }
    let body = join_strings(&snippets, "\n");
    Some(crate::toml_doc::concat2(
        "Relevant long-term memory from prior sessions. Use it only when helpful and avoid fabricating details.\n",
        body.as_str(),
    ))
}

// ---------------------------------------------------------------------------
// Conversation history
// ---------------------------------------------------------------------------

/// One message of the conversation.
#[derive(Clone, Debug, PartialEq, Eq)]
pub struct HistoryEntry {
    pub role: String,
    pub content: String,
    pub tool_name: Option<String>,
}

/// The history without its trailing user messages.
pub open spec fn without_trailing_user(h: Seq<HistoryEntry>) -> Seq<HistoryEntry>
    decreases h.len(),
{
    if h.len() > 0 && h.last().role@ == "user"@ {
        without_trailing_user(h.drop_last())
    } else {
        h
    }
}

/// What an interrupted reply leaves in the history: the spoken sentences
/// joined by spaces, or else the last sentence the speech service reported.
pub open spec fn interrupted_reply(spoken: Seq<Seq<char>>, last_spoken: Seq<char>) -> Seq<char> {
    if spoken.len() > 0 {
        crate::text::join(spoken, " "@)
    } else {
        last_spoken
    }
}

/// After an interruption: drops the unanswered user messages at the end of
/// the history and records what was actually spoken as the reply.
pub fn truncate_history(history: &mut Vec<HistoryEntry>, spoken: &Vec<String>, last_spoken: &str)
    ensures
        ({
            let kept = without_trailing_user(old(history)@);
            let reply = interrupted_reply(views(spoken@), last_spoken@);
            if reply.len() > 0 {
                &&& final(history)@.len() == kept.len() + 1
                &&& final(history)@.take(kept.len() as int) == kept
                &&& final(history)@.last().role@ == "assistant"@
                &&& final(history)@.last().content@ == reply
                &&& final(history)@.last().tool_name is None
            } else {
                final(history)@ == kept
            }
        }),
{
    let ghost start = history@;
    while history.len() > 0 && is_user(&history[history.len() - 1])
        invariant
            without_trailing_user(start) == without_trailing_user(history@),
        decreases history@.len(),
    {
        history.pop();
    }
    let content = if spoken.len() > 0 {
        join_strings(spoken, " ")
    } else {
        last_spoken.to_string()
    };
    if content.as_str().is_empty() {
        return;
    }
    let ghost kept = history@;
    history.push(HistoryEntry { role: "assistant".to_string(), content, tool_name: None });
    assert(history@.take(kept.len() as int) =~= kept);
}

fn is_user(entry: &HistoryEntry) -> (r: bool)
    ensures
        r == (entry.role@ == "user"@),
{
    same_chars(&chars_of(entry.role.as_str()), &chars_of("user"))
}

/// The transcript line of one history entry.
pub open spec fn transcript_line(e: HistoryEntry) -> Seq<char> {
    if e.role@ == "tool"@ {
        "[tool:"@ + (match e.tool_name {
            Some(t) => t@,
            None => "tool"@,
        }) + "] "@ + trim(e.content@)
    } else {
        "["@ + e.role@ + "] "@ + trim(e.content@)
    }
}

/// The transcript lines of the entries, skipping empty messages.
pub open spec fn transcript_lines(h: Seq<HistoryEntry>) -> Seq<Seq<char>>
    decreases h.len(),
{
    if h.len() == 0 {
        Seq::empty()
    } else if trim(h.last().content@).len() == 0 {
        transcript_lines(h.drop_last())
    } else {
        transcript_lines(h.drop_last()).push(transcript_line(h.last()))
    }
}

/// The session transcript that memory summaries are made from: one line
/// per non-empty message after the system message.
pub open spec fn spec_session_transcript(h: Seq<HistoryEntry>) -> Seq<char> {
    if h.len() == 0 {
        Seq::empty()
    } else {
        crate::text::join(transcript_lines(h.skip(1)), "\n"@)
    }
}

fn trimmed_text(s: &str) -> (r: String)
    ensures
        r@ == trim(s@),
{
    let v = chars_of(s);
    let (a, b) = trim_bounds(&v, 0, v.len());
    assert(v@.subrange(0, v@.len() as int) =~= v@);
    string_of(&v, a, b)
}

/// The session transcript (see `spec_session_transcript`).
pub fn session_transcript(history: &Vec<HistoryEntry>) -> (r: String)
    ensures
        r@ == spec_session_transcript(history@),
{
    let mut lines: Vec<String> = Vec::new();
    let ghost rest = history@.skip(1);
    let mut k: usize = 1;
    if history.len() == 0 {
        return String::new();
    }
    assert(rest.take(0) =~= Seq::<HistoryEntry>::empty());
    while k < history.len()
        invariant
            1 <= k <= history@.len(),
            rest == history@.skip(1),
            views(lines@) == transcript_lines(rest.take(k - 1)),
        decreases history@.len() - k,
    {
        let ghost before = views(lines@);
        assert(rest.take(k as int).drop_last() =~= rest.take(k - 1));
        assert(rest.take(k as int).last() == history@[k as int]);
        let e = &history[k];
        let content = trimmed_text(e.content.as_str());
        if !content.as_str().is_empty() {
            let line = if same_chars(&chars_of(e.role.as_str()), &chars_of("tool")) {
                let name: &str = match &e.tool_name {
                    Some(t) => t.as_str(),
                    None => "tool",
                };
                crate::toml_doc::concat4("[tool:", name, "] ", content.as_str())
            } else {
                crate::toml_doc::concat4("[", e.role.as_str(), "] ", content.as_str())
            };
            lines.push(line);
            assert(views(lines@) =~= before.push(transcript_line(history@[k as int])));
        }
        k = k + 1;
    }
    assert(rest.take(history@.len() - 1) =~= rest);
    join_strings(&lines, "\n")
}

/// `text` cut to at most `limit` characters, ending with `...` when cut.
pub open spec fn clip_chars(text: Seq<char>, limit: nat) -> Seq<char> {
    if text.len() <= limit {
        text
    } else {
        text.take(if limit >= 3 {
            limit - 3
        } else {
            0
        }) + "..."@
    }
}

/// Cuts `text` to `limit` characters (see `clip_chars`).
pub fn clip_text(text: &str, limit: usize) -> (r: String)
    ensures
        r@ == clip_chars(text@, limit as nat),
{
    let v = chars_of(text);
    if v.len() <= limit {
        return string_of(&v, 0, v.len());
    }
    let keep = limit.saturating_sub(3);
    let head = string_of(&v, 0, keep);
    assert(v@.subrange(0, keep as int) =~= text@.take(keep as int));
    crate::toml_doc::concat2(head.as_str(), "...")
}

/// The lines of `text` (split at `\n`), trimmed, without the blank ones.
pub open spec fn nonblank_lines(text: Seq<char>) -> Seq<Seq<char>> {
    line_items(text, 0, 0)
}

/// Trimmed non-blank pieces of `text[start..]` separated by `\n`, scanning
/// from `i`.
pub open spec fn line_items(text: Seq<char>, i: int, start: int) -> Seq<Seq<char>>
    decreases text.len() - i,
{
    if i < 0 || i >= text.len() {
        if trim(text.subrange(start, text.len() as int)).len() > 0 {
            seq![trim(text.subrange(start, text.len() as int))]
        } else {
            Seq::empty()
        }
    } else if text[i] == '\n' {
        (if trim(text.subrange(start, i)).len() > 0 {
            seq![trim(text.subrange(start, i))]
        } else {
            Seq::empty()
        }) + line_items(text, i + 1, i + 1)
    } else {
        line_items(text, i + 1, start)
    }
}

/// The summary made without the model: the transcript's non-blank lines
/// joined by spaces, cut to `limit` characters.
pub open spec fn spec_fallback_summary(transcript: Seq<char>, limit: nat) -> Seq<char> {
    clip_chars(crate::text::join(nonblank_lines(transcript), " "@), limit)
}

/// The summary used when the model gives none (see
/// `spec_fallback_summary`).
pub fn fallback_summary(transcript: &str, limit: usize) -> (r: String)
    ensures
        r@ == spec_fallback_summary(transcript@, limit as nat),
{
    let v = chars_of(transcript);
    let n = v.len();
    let mut lines: Vec<String> = Vec::new();
    let ghost mut done: Seq<Seq<char>> = Seq::empty();
    let mut start: usize = 0;
    let mut i: usize = 0;
    while i < n
        invariant
            n == v@.len(),
            v@ == transcript@,
            start <= i <= n,
            views(lines@) == done,
            done + line_items(v@, i as int, start as int) == line_items(v@, 0, 0),
        decreases n - i,
    {
        if v[i] == '\n' {
            let (a, b) = trim_bounds(&v, start, i);
            if a < b {
                let ghost before = views(lines@);
                lines.push(string_of(&v, a, b));
                proof {
                    done = done.push(v@.subrange(a as int, b as int));
                    assert(views(lines@) =~= before.push(v@.subrange(a as int, b as int)));
                }
            }
            start = i + 1;
        }
        i = i + 1;
    }
    let (a, b) = trim_bounds(&v, start, n);
    if a < b {
        let ghost before = views(lines@);
        lines.push(string_of(&v, a, b));
        proof {
            done = done.push(v@.subrange(a as int, b as int));
            assert(views(lines@) =~= before.push(v@.subrange(a as int, b as int)));
        }
    }
    assert(done =~= nonblank_lines(transcript@));
    let joined = join_strings(&lines, " ");
    clip_text(joined.as_str(), limit)
}

// ---------------------------------------------------------------------------
// System message
// ---------------------------------------------------------------------------

/// The line that asks the model to search the web only once per query.
pub open spec fn search_once_line() -> Seq<char> {
    "Search the web at most once per unique query — report what you find and do not re-search the same topic with slightly different queries."@
}

/// The line that lists a tool: its name and description.
pub open spec fn tool_line(t: (Seq<char>, Seq<char>)) -> Seq<char> {
    "- "@ + t.0 + ": "@ + t.1
}

/// The lines of the system message.
pub open spec fn system_lines(
    system_prompt: Seq<char>,
    tools: Seq<(Seq<char>, Seq<char>)>,
    include_tools: bool,
    tool_usage_policy: Seq<char>,
) -> Seq<Seq<char>> {
    if include_tools && tools.len() > 0 {
        seq![system_prompt, Seq::empty(), "You have access to these tools:"@] + tools.map_values(
            |t: (Seq<char>, Seq<char>)| tool_line(t),
        ) + seq![Seq::empty(), tool_usage_policy, search_once_line()]
    } else {
        seq![system_prompt]
    }
}

/// The content of the system message: the prompt, and when tools are
/// included and some are active, their list and the policy for them.
pub fn system_message(
    system_prompt: &str,
    tools: &Vec<(String, String)>,
    include_tools: bool,
    tool_usage_policy: &str,
) -> (r: HistoryEntry)
    ensures
        r.role@ == "system"@,
        r.tool_name is None,
        r.content@ == crate::text::join(
            system_lines(
                system_prompt@,
                tools@.map_values(|t: (String, String)| (t.0@, t.1@)),
                include_tools,
                tool_usage_policy@,
            ),
            "\n"@,
        ),
{
    let mut parts: Vec<String> = Vec::new();
    parts.push(system_prompt.to_string());
    let ghost spec_tools = tools@.map_values(|t: (String, String)| (t.0@, t.1@));
    if include_tools && tools.len() > 0 {
        parts.push(String::new());
        parts.push("You have access to these tools:".to_string());
        let ghost head = views(parts@);
        let mut k: usize = 0;
        while k < tools.len()
            invariant
                0 <= k <= tools@.len(),
                spec_tools == tools@.map_values(|t: (String, String)| (t.0@, t.1@)),
                views(parts@) == head + spec_tools.take(k as int).map_values(
                    |t: (Seq<char>, Seq<char>)| tool_line(t),
                ),
            decreases tools@.len() - k,
        {
            let ghost before = views(parts@);
            parts.push(crate::toml_doc::concat4("- ", tools[k].0.as_str(), ": ", tools[k].1.as_str()));
            assert(spec_tools[k as int] == (tools@[k as int].0@, tools@[k as int].1@));
            assert(spec_tools.take(k + 1) =~= spec_tools.take(k as int).push(spec_tools[k as int]));
            assert(views(parts@) =~= before.push(tool_line(spec_tools[k as int])));
            assert(views(parts@) =~= head + spec_tools.take(k + 1).map_values(
                |t: (Seq<char>, Seq<char>)| tool_line(t),
            ));
            k = k + 1;
        }
        parts.push(String::new());
        parts.push(tool_usage_policy.to_string());
        parts.push(
            "Search the web at most once per unique query — report what you find and do not re-search the same topic with slightly different queries.".to_string(),
        );
        assert(spec_tools.take(tools@.len() as int) =~= spec_tools);
        let ghost listed = spec_tools.map_values(|t: (Seq<char>, Seq<char>)| tool_line(t));
        assert(views(parts@) =~= head + listed + seq![Seq::<char>::empty(), tool_usage_policy@, search_once_line()]);
        assert(head =~= seq![system_prompt@, Seq::<char>::empty(), "You have access to these tools:"@]);
        assert(views(parts@) =~= system_lines(system_prompt@, spec_tools, include_tools, tool_usage_policy@));
    } else {
        assert(views(parts@) =~= system_lines(system_prompt@, spec_tools, include_tools, tool_usage_policy@));
    }
    let content = join_strings(&parts, "\n");
    HistoryEntry { role: "system".to_string(), content, tool_name: None }
}

// ---------------------------------------------------------------------------
// Speaking a streamed reply
// ---------------------------------------------------------------------------

/// A batch is spoken once it holds this many sentences.
pub const MAX_BATCH_SENTENCES: usize = 3;

/// A batch is spoken once its sentences hold this many bytes.
pub const MAX_BATCH_CHARS: usize = 150;

/// Groups the sentences of a streamed reply into what is spoken at once: in
/// batched mode the first sentence is spoken alone and the next ones in
/// batches, otherwise each sentence on its own.
pub struct SpeechBatcher {
    pub batched: bool,
    pub first_done: bool,
    pub batch: Vec<String>,
    pub batch_bytes: usize,
}

impl SpeechBatcher {
    /// A batcher for a new reply; `batched` selects batching.
    pub fn new(batched: bool) -> (r: Self)
        ensures
            r.batched == batched,
            !r.first_done,
            r.batch@.len() == 0,
            r.batch_bytes == 0,
    {
        SpeechBatcher { batched, first_done: false, batch: Vec::new(), batch_bytes: 0 }
    }

    /// Takes the next complete sentence; returns the text to speak now, if
    /// any.
    pub fn push_sentence(&mut self, sentence: String) -> (r: Option<String>)
        ensures
            !old(self).batched ==> (r matches Some(t) && t@ == sentence@) && *final(self) == *old(self),
            old(self).batched && !old(self).first_done ==> (r matches Some(t) && t@ == sentence@)
                && final(self).first_done && final(self).batch == old(self).batch
                && final(self).batch_bytes == old(self).batch_bytes && final(self).batched,
            old(self).batched && old(self).first_done ==> ({
                let batch = views(old(self).batch@).push(sentence@);
                let bytes = old(self).batch_bytes as int + crate::text::capped_byte_len(sentence@);
                &&& final(self).batched && final(self).first_done
                &&& if batch.len() >= MAX_BATCH_SENTENCES || bytes >= MAX_BATCH_CHARS {
                    &&& r matches Some(t) && t@ == crate::text::join(batch, " "@)
                    &&& final(self).batch@.len() == 0
                    &&& final(self).batch_bytes == 0
                } else {
                    &&& r is None
                    &&& views(final(self).batch@) == batch
                    &&& final(self).batch_bytes == bytes
                }
            }),
    {
        if !self.batched {
            return Some(sentence);
        }
        if !self.first_done {
            self.first_done = true;
            return Some(sentence);
        }
        let bytes = crate::text::capped_byte_len_of(&chars_of(sentence.as_str()));
        let ghost before = views(self.batch@);
        self.batch.push(sentence);
        assert(views(self.batch@) =~= before.push(self.batch@.last()@));
        let total = self.batch_bytes.saturating_add(bytes);
        if self.batch.len() >= MAX_BATCH_SENTENCES || total >= MAX_BATCH_CHARS {
            let text = join_strings(&self.batch, " ");
            self.batch = Vec::new();
            self.batch_bytes = 0;
            Some(text)
        } else {
            self.batch_bytes = total;
            None
        }
    }

    /// The end of the reply: what is left to speak, given the trimmed text
    /// after the last complete sentence.
    pub fn finish(&mut self, remaining: String) -> (r: Option<String>)
        ensures
            ({
                let batch = views(old(self).batch@);
                if remaining@.len() > 0 {
                    if old(self).batched && batch.len() > 0 {
                        r matches Some(t) && t@ == crate::text::join(batch.push(remaining@), " "@)
                    } else {
                        r matches Some(t) && t@ == remaining@
                    }
                } else if old(self).batched && batch.len() > 0 {
                    r matches Some(t) && t@ == crate::text::join(batch, " "@)
                } else {
                    r is None
                }
            }),
    {
        if !remaining.as_str().is_empty() {
            if self.batched && self.batch.len() > 0 {
                let ghost before = views(self.batch@);
                self.batch.push(remaining);
                assert(views(self.batch@) =~= before.push(self.batch@.last()@));
                let text = join_strings(&self.batch, " ");
                self.batch = Vec::new();
                Some(text)
            } else {
                Some(remaining)
            }
        } else if self.batched && self.batch.len() > 0 {
            let text = join_strings(&self.batch, " ");
            self.batch = Vec::new();
            Some(text)
        } else {
            None
        }
    }
}

// ---------------------------------------------------------------------------
// Tool calls of a request
// ---------------------------------------------------------------------------

/// The tool calls already run for the current request, by tool name and
/// JSON arguments.
pub struct ToolCallLog {
    pub seen: Vec<(String, String)>,
}

impl ToolCallLog {
    /// No call run yet.
    pub fn new() -> (r: Self)
        ensures
            r.seen@.len() == 0,
    {
        ToolCallLog { seen: Vec::new() }
    }

    /// Records the call; returns whether it is the first with that name and
    /// those arguments (a repeated call is skipped).
    pub fn first_time(&mut self, name: &str, args: &str) -> (r: bool)
        ensures
            r == !(exists|i: int|
                0 <= i < old(self).seen@.len() && (#[trigger] old(self).seen@[i]).0@ == name@
                    && old(self).seen@[i].1@ == args@),
            r ==> final(self).seen@.len() == old(self).seen@.len() + 1 && final(self).seen@.last().0@ == name@
                && final(self).seen@.last().1@ == args@ && final(self).seen@.drop_last() == old(self).seen@,
            !r ==> final(self).seen@ == old(self).seen@,
    {
        let n = chars_of(name);
        let a = chars_of(args);
        let mut k: usize = 0;
        while k < self.seen.len()
            invariant
                0 <= k <= self.seen@.len(),
                n@ == name@,
                a@ == args@,
                forall|i: int|
                    0 <= i < k ==> !((#[trigger] self.seen@[i]).0@ == name@ && self.seen@[i].1@ == args@),
            decreases self.seen@.len() - k,
        {
            if same_chars(&chars_of(self.seen[k].0.as_str()), &n) && same_chars(&chars_of(self.seen[k].1.as_str()), &a) {
                return false;
            }
            k = k + 1;
        }
        let ghost before = self.seen@;
        self.seen.push((name.to_string(), args.to_string()));
        assert(self.seen@.drop_last() =~= before);
        true
    }
}

// ---------------------------------------------------------------------------
// Spoken grants
// ---------------------------------------------------------------------------

/// What `str::to_lowercase` gives for `text`.
pub uninterp spec fn lowercase(text: Seq<char>) -> Seq<char>;

/// Calls `str::to_lowercase`, which maps each character to its Unicode
/// lower case (with the final-sigma rule); the contract names the result.
#[verifier::external_body]
fn to_lowercase(text: &str) -> (r: String)
    ensures
        r@ == lowercase(text@),
{
    text.to_lowercase()
}

/// Whether a tool waits for a grant, is in ask mode and is not granted yet.
pub open spec fn pending_askable(tm: ToolManager) -> bool {
    match tm.pending_name() {
        Some(p) => tm.level(p) == Some("ask"@) && !tm.grants().contains(p),
        None => false,
    }
}

/// The spoken answers that grant a pending tool.
pub open spec fn grant_words() -> Seq<Seq<char>> {
    seq![
        "yes"@, "yeah"@, "yep"@, "sure"@, "ok"@, "okay"@, "go ahead"@, "allow"@, "grant"@, "do it"@,
        "proceed"@,
    ]
}

/// Whether `answer` (lower-cased and trimmed) is or starts with a grant
/// word.
pub open spec fn is_grant(answer: Seq<char>) -> bool {
    exists|i: int|
        0 <= i < grant_words().len() && crate::cli_config::has_prefix(answer, #[trigger] grant_words()[i])
}

impl ToolManager {
    /// When the user's words grant the pending tool and it is in ask mode
    /// and not yet granted, grants it for the session; returns whether it
    /// did.
    pub fn auto_grant_from_text(&mut self, text: &str) -> (r: bool)
        ensures
            r == (is_grant(trim(lowercase(text@))) && pending_askable(*old(self))),
            r ==> final(self).grants() == old(self).grants().insert(old(self).pending_name()->0),
            !r ==> final(self).grants() == old(self).grants(),
            final(self).tool_list() == old(self).tool_list(),
            forall|n: Seq<char>| #[trigger] final(self).level(n) == old(self).level(n),
            final(self).pending_name() == old(self).pending_name(),
    {
        let lower = trimmed_text(to_lowercase(text).as_str());
        let words = vec![
            "yes", "yeah", "yep", "sure", "ok", "okay", "go ahead", "allow", "grant", "do it", "proceed",
        ];
        assert(words@.map_values(|w: &str| w@) =~= grant_words());
        let mut matched = false;
        let mut k: usize = 0;
        while k < words.len()
            invariant
                0 <= k <= words@.len(),
                words@.map_values(|w: &str| w@) == grant_words(),
                matched == exists|i: int|
                    0 <= i < k && crate::cli_config::has_prefix(lower@, #[trigger] grant_words()[i]),
            decreases words@.len() - k,
        {
            assert(grant_words()[k as int] == words@[k as int]@);
            if crate::cli_config::starts_with(lower.as_str(), words[k]) {
                matched = true;
            }
            k = k + 1;
        }
        if !matched {
            return false;
        }
        let name = match self.pending_tool() {
            Some(n) => n,
            None => {
                return false;
            },
        };
        let level = self.check(name.as_str());
        if self.has_level(name.as_str()) && same_chars(&chars_of(level.as_str()), &chars_of("ask"))
            && !self.is_granted(name.as_str()) {
            self.grant(name.as_str());
            true
        } else {
            false
        }
    }
}

// ---------------------------------------------------------------------------
// Model-server errors
// ---------------------------------------------------------------------------

/// Why a request to the model server failed.
#[derive(Clone, Debug, PartialEq, Eq)]
pub enum OllamaError {
    /// The request could not be sent, or the server answered with an error status.
    Http(String),
    /// The answer could not be read or parsed.
    Parse(String),
}

impl OllamaError {
    /// The error's text.
    pub fn message(&self) -> (r: String)
        ensures
            r@ == match self {
                OllamaError::Http(s) => s@,
                OllamaError::Parse(s) => s@,
            },
    {
        match self {
            OllamaError::Http(s) => s.clone(),
            OllamaError::Parse(s) => s.clone(),
        }
    }
}

// ---------------------------------------------------------------------------
// Commands
// ---------------------------------------------------------------------------

/// The commands the assistant service answers.
#[derive(Clone, Copy, Debug, PartialEq, Eq, Structural)]
pub enum AssistantCommand {
    /// Start a session in which the assistant listens again after it speaks.
    Mode1,
    /// Start a session in which the assistant keeps listening while it speaks.
    Mode2,
    Interrupt,
    Stop,
    ListModels,
    SetModel,
    ListTools,
    SetTools,
    GrantTool,
    DenyTool,
    GetState,
    GetHistory,
    ResetMemory,
    /// A command name the service does not know (or none).
    Unknown,
}

/// The command a request's `command` field names (the empty name when the
/// field is missing).
pub open spec fn spec_assistant_command(name: Seq<char>) -> AssistantCommand {
    if name == "mode1"@ {
        AssistantCommand::Mode1
    } else if name == "mode2"@ {
        AssistantCommand::Mode2
    } else if name == "interrupt"@ {
        AssistantCommand::Interrupt
    } else if name == "stop"@ {
        AssistantCommand::Stop
    } else if name == "list_models"@ {
        AssistantCommand::ListModels
    } else if name == "set_model"@ {
        AssistantCommand::SetModel
    } else if name == "list_tools"@ {
        AssistantCommand::ListTools
    } else if name == "set_tools"@ {
        AssistantCommand::SetTools
    } else if name == "grant_tool"@ {
        AssistantCommand::GrantTool
    } else if name == "deny_tool"@ {
        AssistantCommand::DenyTool
    } else if name == "get_state"@ {
        AssistantCommand::GetState
    } else if name == "get_history"@ {
        AssistantCommand::GetHistory
    } else if name == "reset_memory"@ {
        AssistantCommand::ResetMemory
    } else {
        AssistantCommand::Unknown
    }
}

/// The command named `name`.
pub fn assistant_command(name: &str) -> (r: AssistantCommand)
    ensures
        r == spec_assistant_command(name@),
{
    if str_eq(name, "mode1") {
        AssistantCommand::Mode1
    } else if str_eq(name, "mode2") {
        AssistantCommand::Mode2
    } else if str_eq(name, "interrupt") {
        AssistantCommand::Interrupt
    } else if str_eq(name, "stop") {
        AssistantCommand::Stop
    } else if str_eq(name, "list_models") {
        AssistantCommand::ListModels
    } else if str_eq(name, "set_model") {
        AssistantCommand::SetModel
    } else if str_eq(name, "list_tools") {
        AssistantCommand::ListTools
    } else if str_eq(name, "set_tools") {
        AssistantCommand::SetTools
    } else if str_eq(name, "grant_tool") {
        AssistantCommand::GrantTool
    } else if str_eq(name, "deny_tool") {
        AssistantCommand::DenyTool
    } else if str_eq(name, "get_state") {
        AssistantCommand::GetState
    } else if str_eq(name, "get_history") {
        AssistantCommand::GetHistory
    } else if str_eq(name, "reset_memory") {
        AssistantCommand::ResetMemory
    } else {
        AssistantCommand::Unknown
    }
}

// ---------------------------------------------------------------------------
// Sessions and tool rounds
// ---------------------------------------------------------------------------

/// At the start of a session, after `elapsed_ns` nanoseconds without
/// activity: whether the history has been idle longer than `timeout_sec`
/// (then it is cleared, after its summary is stored), and whether the
/// history is started afresh from a new system message (when it was idle,
/// or holds no more than the system message).
pub fn session_start_plan(elapsed_ns: u128, timeout_sec: u64, history_len: usize) -> (r: (bool, bool))
    ensures
        r.0 == (elapsed_ns > timeout_sec * 1_000_000_000),
        r.1 == (r.0 || history_len <= 1),
{
    let limit: u128 = (timeout_sec as u128) * 1_000_000_000;
    let idle = elapsed_ns > limit;
    (idle, idle || history_len <= 1)
}

/// How many times the model may call tools in answer to one utterance.
pub const MAX_TOOL_ROUNDS: usize = 3;

/// The instruction given when the tool rounds are used up.
pub const ROUNDS_EXHAUSTED_PROMPT: &'static str = "Tell the user you searched but could not find a clear answer to their question.";

/// What follows a round of the model's answer.
#[derive(Clone, Copy, Debug, PartialEq, Eq, Structural)]
pub enum RoundStep {
    /// The answer is complete (no tool was called), or it failed.
    Stop,
    /// Run the tools that were called, then ask the model again.
    RunToolsThenAsk,
    /// Run the tools that were called, then ask once more without tools,
    /// with `ROUNDS_EXHAUSTED_PROMPT`: the rounds are used up.
    RunToolsThenGiveUp,
}

/// The step after round `round` (counted from 0), given whether the model
/// answered and whether it called any tool.
pub open spec fn spec_round_step(round: int, answered: bool, called_any: bool) -> RoundStep {
    if !answered || !called_any {
        RoundStep::Stop
    } else if round + 1 < MAX_TOOL_ROUNDS {
        RoundStep::RunToolsThenAsk
    } else {
        RoundStep::RunToolsThenGiveUp
    }
}

/// The step after round `round` (see `spec_round_step`).
pub fn round_step(round: usize, answered: bool, called_any: bool) -> (r: RoundStep)
    requires
        round < MAX_TOOL_ROUNDS,
    ensures
        r == spec_round_step(round as int, answered, called_any),
{
    if !answered || !called_any {
        RoundStep::Stop
    } else if round + 1 < MAX_TOOL_ROUNDS {
        RoundStep::RunToolsThenAsk
    } else {
        RoundStep::RunToolsThenGiveUp
    }
}

/// Whether round `round` carries the memory context (only the first does).
pub fn uses_memory_context(round: usize) -> (r: bool)
    ensures
        r == (round == 0),
{
    round == 0
}

/// Starting from round 0 and going on only while the step is
/// `RunToolsThenAsk`, the rounds end by the last allowed one: a round after
/// it is never asked for.
pub proof fn lemma_rounds_are_bounded(round: int, answered: bool, called_any: bool)
    requires
        0 <= round < MAX_TOOL_ROUNDS,
        spec_round_step(round, answered, called_any) == RoundStep::RunToolsThenAsk,
    ensures
        round + 1 < MAX_TOOL_ROUNDS,
{
}

// ---------------------------------------------------------------------------
// Request messages
// ---------------------------------------------------------------------------

/// A history entry by the views of its role, content and tool name.
pub open spec fn entry_view(e: HistoryEntry) -> (Seq<char>, Seq<char>, Option<Seq<char>>) {
    (e.role@, e.content@, match e.tool_name {
        Some(t) => Some(t@),
        None => None,
    })
}

/// An entry as the model is sent it: a user message carries the time it is
/// answered at, `[now] `, before its text.
pub open spec fn stamped_view(v: (Seq<char>, Seq<char>, Option<Seq<char>>), now: Seq<char>) -> (Seq<char>, Seq<char>, Option<Seq<char>>) {
    if v.0 == "user"@ {
        (v.0, "["@ + now + "] "@ + v.1, v.2)
    } else {
        v
    }
}

/// The messages a request carries: the history with each user message
/// stamped with `now`, and the memory context (when there is one) as a
/// system message after the leading system message, or first when there is
/// none.
pub open spec fn spec_request_history(
    h: Seq<HistoryEntry>,
    now: Seq<char>,
    memory: Option<Seq<char>>,
) -> Seq<(Seq<char>, Seq<char>, Option<Seq<char>>)> {
    let stamped = h.map_values(|e: HistoryEntry| stamped_view(entry_view(e), now));
    match memory {
        None => stamped,
        Some(m) => {
            let at = if h.len() > 0 && h[0].role@ == "system"@ { 1int } else { 0int };
            stamped.insert(at, ("system"@, m, None))
        },
    }
}

/// The messages of a request (see `spec_request_history`).
pub fn request_history(history: &Vec<HistoryEntry>, now: &str, memory: Option<&str>) -> (r: Vec<HistoryEntry>)
    ensures
        r@.map_values(|e: HistoryEntry| entry_view(e)) == spec_request_history(
            history@,
            now@,
            match memory {
                Some(m) => Some(m@),
                None => None,
            },
        ),
{
    let mut out: Vec<HistoryEntry> = Vec::new();
    let mut i: usize = 0;
    while i < history.len()
        invariant
            0 <= i <= history@.len(),
            out@.len() == i,
            forall|k: int| 0 <= k < i ==> entry_view(#[trigger] out@[k]) == stamped_view(entry_view(history@[k]), now@),
        decreases history@.len() - i,
    {
        let e = &history[i];
        let tool_name = match &e.tool_name {
            Some(t) => Some(t.clone()),
            None => None,
        };
        let content = if str_eq(e.role.as_str(), "user") {
            concat4("[", now, "] ", e.content.as_str())
        } else {
            e.content.clone()
        };
        proof {
            reveal_strlit("[");
            reveal_strlit("] ");
        }
        out.push(HistoryEntry { role: e.role.clone(), content, tool_name });
        i = i + 1;
    }
    let ghost stamped = out@.map_values(|e: HistoryEntry| entry_view(e));
    assert(stamped =~= history@.map_values(|e: HistoryEntry| stamped_view(entry_view(e), now@)));
    match memory {
        None => out,
        Some(m) => {
            let at: usize = if history.len() > 0 && str_eq(history[0].role.as_str(), "system") { 1 } else { 0 };
            out.insert(at, HistoryEntry { role: "system".to_string(), content: m.to_string(), tool_name: None });
            assert(out@.map_values(|e: HistoryEntry| entry_view(e)) =~= stamped.insert(at as int, ("system"@, m@, None)));
            out
        },
    }
}

} // verus!
