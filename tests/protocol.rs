use system_agent::clipboard::ClipboardTracker;
use system_agent::command::{AgentCommand, AgentEvent, AgentResponse, Command, RegisterCommand};
use system_agent::keys::CanonicalKey;
use system_agent::manager::HotkeyManager;
use system_agent::model::KeyEvent;

fn entry(id: &str, shortcut: &str) -> RegisterCommand {
    RegisterCommand { id: id.to_string(), shortcut: shortcut.to_string() }
}

fn error_parts(e: &AgentEvent) -> (String, String) {
    match e {
        AgentEvent::Error { message, context } => (message.clone(), context.clone()),
        other => panic!("not an error event: {:?}", other),
    }
}

#[test]
fn batch_with_bad_entry_reports_one_error_and_registers_the_other() {
    let mut m = HotkeyManager::new();
    let mut out = Vec::new();
    let cmd = Command::RegisterBatch { hotkeys: vec![entry("a", "bad+++"), entry("b", "F5")] };
    assert!(m.handle_command(&cmd, &mut out));
    assert_eq!(out.len(), 1);
    assert_eq!(
        error_parts(&out[0]),
        ("Failed to parse hotkey bad+++ for a".to_string(), "hotkey_parse_batch".to_string())
    );
    let events = m.handle_key(KeyEvent::Press(CanonicalKey::F5));
    assert_eq!(events.len(), 1);
    assert!(matches!(&events[0], AgentEvent::HotkeyPressed { id } if id == "b"));
}

#[test]
fn register_command_with_bad_shortcut_emits_parse_error() {
    let mut m = HotkeyManager::new();
    let mut out = vec![AgentEvent::Ready];
    assert!(m.handle_command(&Command::Register(entry("x", "Ctrl+Bogus")), &mut out));
    assert_eq!(out.len(), 2);
    assert!(matches!(out[0], AgentEvent::Ready));
    assert_eq!(
        error_parts(&out[1]),
        ("Failed to parse hotkey Ctrl+Bogus for x".to_string(), "hotkey_parse".to_string())
    );
    assert!(m.snapshot().is_empty());
}

#[test]
fn register_then_unregister_commands() {
    let mut m = HotkeyManager::new();
    let mut out = Vec::new();
    assert!(m.handle_command(&Command::Register(entry("x", "Ctrl+Alt+T")), &mut out));
    assert_eq!(m.snapshot().len(), 1);
    assert!(m.handle_command(&Command::Unregister(entry("x", "whatever")), &mut out));
    assert!(m.snapshot().is_empty());
    assert!(m.handle_command(&Command::Unregister(entry("x", "Ctrl+Alt+T")), &mut out));
    assert!(out.is_empty());
}

#[test]
fn unregister_all_command_silences_everything() {
    let mut m = HotkeyManager::new();
    let mut out = Vec::new();
    m.handle_command(&Command::RegisterBatch { hotkeys: vec![entry("a", "F5"), entry("b", "Ctrl+Q")] }, &mut out);
    assert!(m.handle_command(&Command::UnregisterAll, &mut out));
    assert!(out.is_empty());
    for k in [CanonicalKey::F5, CanonicalKey::ControlLeft, CanonicalKey::KeyQ] {
        assert!(m.handle_key(KeyEvent::Press(k)).is_empty());
    }
}

#[test]
fn quit_command_stops_the_loop() {
    let mut m = HotkeyManager::new();
    let mut out = Vec::new();
    assert!(!m.handle_command(&Command::Quit, &mut out));
    assert!(out.is_empty());
}

#[test]
fn hotkey_events_carry_the_ids() {
    let mut m = HotkeyManager::new();
    m.register_hotkey("one", "Ctrl+T").unwrap();
    m.register_hotkey("two", "T").unwrap();
    m.handle_key(KeyEvent::Press(CanonicalKey::ControlLeft));
    let events = m.handle_key(KeyEvent::Press(CanonicalKey::KeyT));
    let ids: Vec<String> = events
        .iter()
        .map(|e| match e {
            AgentEvent::HotkeyPressed { id } => id.clone(),
            other => panic!("unexpected {:?}", other),
        })
        .collect();
    assert_eq!(ids, vec!["one".to_string(), "two".to_string()]);
    assert!(m.handle_key(KeyEvent::Release(CanonicalKey::KeyT)).is_empty());
}

#[test]
fn only_raw_key_events_are_droppable() {
    let raw = AgentEvent::RawKey { event_type: "KeyPress".to_string(), key: "KeyA".to_string() };
    assert!(raw.is_droppable());
    assert!(!AgentEvent::HotkeyPressed { id: "x".to_string() }.is_droppable());
    assert!(!AgentEvent::Ready.is_droppable());
    assert!(!AgentEvent::command_parse_error("eof").is_droppable());
}

#[test]
fn command_parse_error_event() {
    let e = AgentEvent::command_parse_error("expected value at line 1 column 1");
    assert_eq!(
        error_parts(&e),
        (
            "Failed to parse command: expected value at line 1 column 1".to_string(),
            "command_parse".to_string()
        )
    );
}

#[test]
fn clipboard_reports_each_new_text_once() {
    let mut c = ClipboardTracker::new();
    match c.observe("hello".to_string(), 17) {
        Some(AgentEvent::ClipboardChanged { text, timestamp }) => {
            assert_eq!(text, "hello");
            assert_eq!(timestamp, 17);
        }
        other => panic!("unexpected {:?}", other),
    }
    assert!(c.observe("hello".to_string(), 18).is_none());
    assert!(c.observe(String::new(), 19).is_none());
    assert!(c.observe("hello".to_string(), 20).is_none());
    assert!(matches!(c.observe("world".to_string(), 21), Some(AgentEvent::ClipboardChanged { .. })));
    assert!(matches!(c.observe("hello".to_string(), 22), Some(AgentEvent::ClipboardChanged { .. })));
}

#[test]
fn clipboard_ignores_empty_text_at_start() {
    let mut c = ClipboardTracker::new();
    assert!(c.observe(String::new(), 1).is_none());
}

#[test]
fn agent_register_hotkey_answers() {
    let mut m = HotkeyManager::new();
    let ok = m.handle_agent_command(&AgentCommand::RegisterHotkey {
        id: "x".to_string(),
        shortcut: "Ctrl+Q".to_string(),
    });
    match ok {
        Some(AgentResponse::Success { command, message }) => {
            assert_eq!(command, "register_hotkey");
            assert_eq!(message, Some("Registered hotkey 'Ctrl+Q' for 'x'".to_string()));
        }
        other => panic!("unexpected {:?}", other),
    }
    let bad = m.handle_agent_command(&AgentCommand::RegisterHotkey {
        id: "y".to_string(),
        shortcut: "Ctrl+???".to_string(),
    });
    match bad {
        Some(AgentResponse::Error { command, error, code }) => {
            assert_eq!(command, "unknown");
            assert_eq!(error, "Failed to register hotkey");
            assert_eq!(code, Some("COMMAND_ERROR".to_string()));
        }
        other => panic!("unexpected {:?}", other),
    }
    assert_eq!(m.snapshot().len(), 1);
}

#[test]
fn agent_unregister_hotkey_answers() {
    let mut m = HotkeyManager::new();
    m.register_hotkey("x", "F5").unwrap();
    match m.handle_agent_command(&AgentCommand::UnregisterHotkey { id: "x".to_string() }) {
        Some(AgentResponse::Success { command, message }) => {
            assert_eq!(command, "unregister_hotkey");
            assert_eq!(message, Some("Unregistered hotkey 'x'".to_string()));
        }
        other => panic!("unexpected {:?}", other),
    }
    assert!(m.snapshot().is_empty());
}

#[test]
fn agent_clipboard_commands_are_not_the_registrys() {
    let mut m = HotkeyManager::new();
    assert!(m.handle_agent_command(&AgentCommand::SetClipboard { text: "t".to_string() }).is_none());
    assert!(m.handle_agent_command(&AgentCommand::SetClipboardMonitoring { enabled: false }).is_none());
    assert!(m.handle_agent_command(&AgentCommand::Quit).is_none());
}

#[test]
fn response_builders() {
    match AgentResponse::success("set_clipboard", "Clipboard updated") {
        AgentResponse::Success { command, message } => {
            assert_eq!(command, "set_clipboard");
            assert_eq!(message.as_deref(), Some("Clipboard updated"));
        }
        other => panic!("unexpected {:?}", other),
    }
    match AgentResponse::failure("unknown", "boom", "COMMAND_ERROR") {
        AgentResponse::Error { command, error, code } => {
            assert_eq!((command.as_str(), error.as_str()), ("unknown", "boom"));
            assert_eq!(code.as_deref(), Some("COMMAND_ERROR"));
        }
        other => panic!("unexpected {:?}", other),
    }
}
