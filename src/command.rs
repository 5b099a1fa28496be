use vstd::prelude::*;

use crate::manager::{
    binding_for, entries, failed_entries, lemma_failed_entries_in_range, parses, register_entries,
    HotkeyManager,
};
use crate::model::{DetectionState, KeyEvent};
use crate::shortcut::texts;

verus! {

/// One entry of a registration: an id and its shortcut text.
#[derive(Clone, Debug)]
pub struct RegisterCommand {
    pub id: String,
    pub shortcut: String,
}

/// A command of the registration protocol.
#[derive(Clone, Debug)]
pub enum Command {
    /// Parse the shortcut and register it under the id, replacing any
    /// binding with that id.
    Register(RegisterCommand),
    /// Remove the binding with the id; the shortcut is not consulted.
    Unregister(RegisterCommand),
    /// Register each entry independently.
    RegisterBatch { hotkeys: Vec<RegisterCommand> },
    /// Remove every binding.
    UnregisterAll,
    /// Stop the agent.
    Quit,
}

/// An event of the output stream.
#[derive(Clone, Debug)]
pub enum AgentEvent {
    /// A binding's combination became held.
    HotkeyPressed { id: String },
    /// A key transition, passed through as observed.
    RawKey { event_type: String, key: String },
    /// The clipboard holds new text.
    ClipboardChanged { text: String, timestamp: u64 },
    /// The agent has started.
    Ready,
    /// A recoverable failure, with where it happened.
    Error { message: String, context: String },
}

/// A command of the clipboard-aware protocol.
#[derive(Clone, Debug)]
pub enum AgentCommand {
    RegisterHotkey { id: String, shortcut: String },
    UnregisterHotkey { id: String },
    SetClipboard { text: String },
    SetClipboardMonitoring { enabled: bool },
    Quit,
}

/// The answer to an `AgentCommand`.
#[derive(Clone, Debug)]
pub enum AgentResponse {
    Success { command: String, message: Option<String> },
    Error { command: String, error: String, code: Option<String> },
}

impl AgentEvent {
    /// Whether the event may be dropped when the output queue is full: only
    /// raw key pass-through is; hotkeys, errors and the rest never are.
    pub fn is_droppable(&self) -> (r: bool)
        ensures
            r == (*self is RawKey),
    {
        match self {
            AgentEvent::RawKey { .. } => true,
            _ => false,
        }
    }

    /// The error event for an input line that is not a valid command.
    pub fn command_parse_error(detail: &str) -> (r: AgentEvent)
        ensures
            is_error(r, "Failed to parse command: "@ + detail@, "command_parse"@),
    {
        AgentEvent::Error {
            message: String::from_str("Failed to parse command: ").concat(detail),
            context: String::from_str("command_parse"),
        }
    }
}

impl AgentResponse {
    /// A success answer to `command`, with a message.
    pub fn success(command: &str, message: &str) -> (r: AgentResponse)
        ensures
            is_success(r, command@, message@),
    {
        AgentResponse::Success { command: command.to_owned(), message: Some(message.to_owned()) }
    }

    /// A failure answer to `command`, with the error and a code.
    pub fn failure(command: &str, error: &str, code: &str) -> (r: AgentResponse)
        ensures
            is_failure(r, command@, error@, code@),
    {
        AgentResponse::Error { command: command.to_owned(), error: error.to_owned(), code: Some(code.to_owned()) }
    }
}

/// `r` is a success answer to `command` with this message.
pub open spec fn is_success(r: AgentResponse, command: Seq<char>, message: Seq<char>) -> bool {
    match r {
        AgentResponse::Success { command: c, message: Some(m) } => c@ == command && m@ == message,
        _ => false,
    }
}

/// `r` is a failure answer to `command` with this error and code.
pub open spec fn is_failure(r: AgentResponse, command: Seq<char>, error: Seq<char>, code: Seq<char>) -> bool {
    match r {
        AgentResponse::Error { command: c, error: e, code: Some(k) } => c@ == command && e@ == error && k@ == code,
        _ => false,
    }
}

/// `e` is an error event with this message and context.
pub open spec fn is_error(e: AgentEvent, message: Seq<char>, context: Seq<char>) -> bool {
    match e {
        AgentEvent::Error { message: m, context: c } => m@ == message && c@ == context,
        _ => false,
    }
}

/// `e` reports that `shortcut`, given for `id`, could not be parsed, in this
/// context.
pub open spec fn is_parse_error(e: AgentEvent, id: Seq<char>, shortcut: Seq<char>, context: Seq<char>) -> bool {
    is_error(e, "Failed to parse hotkey "@ + shortcut + " for "@ + id, context)
}

/// `e` reports that `id` fired.
pub open spec fn is_hotkey_event(e: AgentEvent, id: Seq<char>) -> bool {
    match e {
        AgentEvent::HotkeyPressed { id: i } => i@ == id,
        _ => false,
    }
}

/// The detection state after a command.
pub open spec fn apply_command(s: DetectionState, cmd: Command) -> DetectionState {
    match cmd {
        Command::Register(c) => if parses(c.shortcut@) {
            s.register(binding_for(c.id@, c.shortcut@))
        } else {
            s
        },
        Command::Unregister(c) => s.unregister(c.id@),
        Command::RegisterBatch { hotkeys } => register_entries(s, entries(hotkeys@)),
        Command::UnregisterAll => s.clear(),
        Command::Quit => s,
    }
}

/// The events a command emits: one error for each shortcut that does not
/// parse, nothing else.
pub open spec fn command_events(cmd: Command, evs: Seq<AgentEvent>) -> bool {
    match cmd {
        Command::Register(c) => if parses(c.shortcut@) {
            evs.len() == 0
        } else {
            evs.len() == 1 && is_parse_error(evs[0], c.id@, c.shortcut@, "hotkey_parse"@)
        },
        Command::RegisterBatch { hotkeys } => {
            let es = entries(hotkeys@);
            let f = failed_entries(es);
            &&& evs.len() == f.len()
            &&& forall|j: int|
                0 <= j < evs.len() ==> is_parse_error(#[trigger] evs[j], es[f[j]].0, es[f[j]].1, "hotkey_parse_batch"@)
        },
        _ => evs.len() == 0,
    }
}

/// The error event for a shortcut that did not parse.
fn parse_error(id: &str, shortcut: &str, context: &str) -> (r: AgentEvent)
    ensures
        is_parse_error(r, id@, shortcut@, context@),
{
    AgentEvent::Error {
        message: String::from_str("Failed to parse hotkey ").concat(shortcut).concat(" for ").concat(id),
        context: context.to_owned(),
    }
}

impl HotkeyManager {
    /// Applies a command to the registry and appends the events it emits to
    /// `out`. Returns whether the agent keeps running.
    pub fn handle_command(&mut self, cmd: &Command, out: &mut Vec<AgentEvent>) -> (r: bool)
        requires
            old(self).wf(),
        ensures
            final(self).wf(),
            final(self)@ == apply_command(old(self)@, *cmd),
            r == !(*cmd is Quit),
            final(out)@.len() >= old(out)@.len(),
            final(out)@.subrange(0, old(out)@.len() as int) == old(out)@,
            command_events(*cmd, final(out)@.subrange(old(out)@.len() as int, final(out)@.len() as int)),
    {
        let ghost start = out@;
        let ghost n = out@.len();
        match cmd {
            Command::Register(c) => {
                if self.register_hotkey(c.id.as_str(), c.shortcut.as_str()).is_err() {
                    let e = parse_error(c.id.as_str(), c.shortcut.as_str(), "hotkey_parse");
                    out.push(e);
                    assert(out@.subrange(n as int, out@.len() as int) =~= seq![e]);
                } else {
                    assert(out@.subrange(n as int, out@.len() as int) =~= Seq::<AgentEvent>::empty());
                }
                assert(out@.subrange(0, n as int) =~= start);
                true
            },
            Command::Unregister(c) => {
                self.unregister_hotkey(c.id.as_str());
                assert(out@.subrange(0, n as int) =~= start);
                assert(out@.subrange(n as int, out@.len() as int) =~= Seq::<AgentEvent>::empty());
                true
            },
            Command::RegisterBatch { hotkeys } => {
                let failed = self.register_batch(hotkeys);
                let ghost es = entries(hotkeys@);
                let ghost f = failed_entries(es);
                assert(failed@.len() == f.len()) by {
                    assert(failed@.map_values(|x: usize| x as int).len() == failed@.len());
                };
                proof {
                    lemma_failed_entries_in_range(es);
                }
                let mut j: usize = 0;
                while j < failed.len()
                    invariant
                        es == entries(hotkeys@),
                        f == failed_entries(es),
                        failed@.map_values(|x: usize| x as int) == f,
                        failed@.len() == f.len(),
                        forall|m: int| 0 <= m < f.len() ==> 0 <= #[trigger] f[m] < es.len(),
                        j <= failed@.len(),
                        out@.len() == n + j,
                        out@.subrange(0, n as int) == start,
                        forall|m: int|
                            0 <= m < j ==> is_parse_error(
                                #[trigger] out@[n + m],
                                es[f[m]].0,
                                es[f[m]].1,
                                "hotkey_parse_batch"@,
                            ),
                    decreases failed@.len() - j,
                {
                    let idx = failed[j];
                    assert(f[j as int] == idx as int);
                    assert(es[idx as int] == (hotkeys@[idx as int].id@, hotkeys@[idx as int].shortcut@));
                    let ghost before = out@;
                    out.push(
                        parse_error(hotkeys[idx].id.as_str(), hotkeys[idx].shortcut.as_str(), "hotkey_parse_batch"),
                    );
                    assert(out@.subrange(0, n as int) =~= before.subrange(0, n as int));
                    j = j + 1;
                }
                let ghost added = out@.subrange(n as int, out@.len() as int);
                assert forall|m: int| 0 <= m < added.len() implies is_parse_error(
                    #[trigger] added[m],
                    es[f[m]].0,
                    es[f[m]].1,
                    "hotkey_parse_batch"@,
                ) by {
                    assert(added[m] == out@[n + m]);
                };
                true
            },
            Command::UnregisterAll => {
                self.unregister_all();
                assert(out@.subrange(0, n as int) =~= start);
                assert(out@.subrange(n as int, out@.len() as int) =~= Seq::<AgentEvent>::empty());
                true
            },
            Command::Quit => {
                assert(out@.subrange(0, n as int) =~= start);
                assert(out@.subrange(n as int, out@.len() as int) =~= Seq::<AgentEvent>::empty());
                false
            },
        }
    }

    /// Applies the hotkey commands of the clipboard-aware protocol and answers
    /// them. The clipboard commands and `Quit` are not the registry's: they
    /// change nothing and get no answer here.
    pub fn handle_agent_command(&mut self, cmd: &AgentCommand) -> (r: Option<AgentResponse>)
        requires
            old(self).wf(),
        ensures
            final(self).wf(),
            match *cmd {
                AgentCommand::RegisterHotkey { id, shortcut } => match r {
                    Some(resp) => if parses(shortcut@) {
                        &&& final(self)@ == old(self)@.register(binding_for(id@, shortcut@))
                        &&& is_success(
                            resp,
                            "register_hotkey"@,
                            "Registered hotkey '"@ + shortcut@ + "' for '"@ + id@ + "'"@,
                        )
                    } else {
                        &&& final(self)@ == old(self)@
                        &&& is_failure(resp, "unknown"@, "Failed to register hotkey"@, "COMMAND_ERROR"@)
                    },
                    None => false,
                },
                AgentCommand::UnregisterHotkey { id } => match r {
                    Some(resp) => {
                        &&& final(self)@ == old(self)@.unregister(id@)
                        &&& is_success(resp, "unregister_hotkey"@, "Unregistered hotkey '"@ + id@ + "'"@)
                    },
                    None => false,
                },
                _ => r is None && final(self)@ == old(self)@,
            },
    {
        match cmd {
            AgentCommand::RegisterHotkey { id, shortcut } => {
                match self.register_hotkey(id.as_str(), shortcut.as_str()) {
                    Ok(()) => {
                        let message = String::from_str("Registered hotkey '").concat(shortcut.as_str()).concat(
                            "' for '",
                        ).concat(id.as_str()).concat("'");
                        Some(AgentResponse::success("register_hotkey", message.as_str()))
                    },
                    Err(_) => Some(AgentResponse::failure("unknown", "Failed to register hotkey", "COMMAND_ERROR")),
                }
            },
            AgentCommand::UnregisterHotkey { id } => {
                self.unregister_hotkey(id.as_str());
                let message = String::from_str("Unregistered hotkey '").concat(id.as_str()).concat("'");
                Some(AgentResponse::success("unregister_hotkey", message.as_str()))
            },
            _ => None,
        }
    }

    /// One key transition from the key source, turned into the events it
    /// emits: a `HotkeyPressed` for each id that fires, in registry order.
    pub fn handle_key(&mut self, e: KeyEvent) -> (r: Vec<AgentEvent>)
        requires
            old(self).wf(),
        ensures
            final(self).wf(),
            final(self)@ == old(self)@.step(e).0,
            r@.len() == old(self)@.step(e).1.len(),
            forall|i: int| 0 <= i < r@.len() ==> is_hotkey_event(#[trigger] r@[i], old(self)@.step(e).1[i]),
    {
        let ids = self.on_key(e);
        let mut r: Vec<AgentEvent> = Vec::new();
        let mut i: usize = 0;
        while i < ids.len()
            invariant
                i <= ids@.len(),
                r@.len() == i,
                forall|m: int| 0 <= m < i ==> is_hotkey_event(#[trigger] r@[m], ids@[m]@),
            decreases ids@.len() - i,
        {
            r.push(AgentEvent::HotkeyPressed { id: ids[i].clone() });
            i = i + 1;
        }
        assert forall|m: int| 0 <= m < r@.len() implies is_hotkey_event(#[trigger] r@[m], old(self)@.step(e).1[m]) by {
            assert(texts(ids@)[m] == ids@[m]@);
        };
        r
    }
}

} // verus!
