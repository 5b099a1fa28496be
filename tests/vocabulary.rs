use system_agent::keys::{resolve, resolve_lowercase, CanonicalKey};
use system_agent::shortcut::{parse_shortcut, parse_tokens, trim, HotkeyDef, ParseError};

fn keys_of(def: &HotkeyDef) -> Vec<CanonicalKey> {
    let mut keys = def.keys.clone();
    keys.sort_by_key(|k| format!("{:?}", k));
    keys
}

fn sorted(mut keys: Vec<CanonicalKey>) -> Vec<CanonicalKey> {
    keys.sort_by_key(|k| format!("{:?}", k));
    keys
}

#[test]
fn resolve_aliases_of_control() {
    assert_eq!(resolve("ctrl"), Some(CanonicalKey::ControlLeft));
    assert_eq!(resolve("control"), Some(CanonicalKey::ControlLeft));
    assert_eq!(resolve("CTRL"), Some(CanonicalKey::ControlLeft));
    assert_eq!(resolve("Control"), Some(CanonicalKey::ControlLeft));
}

#[test]
fn resolve_named_keys() {
    assert_eq!(resolve("alt"), Some(CanonicalKey::Alt));
    assert_eq!(resolve("F5"), Some(CanonicalKey::F5));
    assert_eq!(resolve("f12"), Some(CanonicalKey::F12));
    assert_eq!(resolve("Enter"), Some(CanonicalKey::Return));
    assert_eq!(resolve("esc"), Some(CanonicalKey::Escape));
    assert_eq!(resolve("win"), Some(CanonicalKey::MetaLeft));
    assert_eq!(resolve("KpPlus"), Some(CanonicalKey::KpPlus));
    assert_eq!(resolve("keyq"), Some(CanonicalKey::KeyQ));
    assert_eq!(resolve("num0"), Some(CanonicalKey::Num0));
}

#[test]
fn resolve_single_letters_and_digits() {
    assert_eq!(resolve("q"), Some(CanonicalKey::KeyQ));
    assert_eq!(resolve("T"), Some(CanonicalKey::KeyT));
    assert_eq!(resolve("5"), Some(CanonicalKey::Num5));
    assert_eq!(resolve("0"), Some(CanonicalKey::Num0));
}

#[test]
fn resolve_unknown_names() {
    assert_eq!(resolve("bad"), None);
    assert_eq!(resolve(""), None);
    assert_eq!(resolve("é"), None);
    assert_eq!(resolve("ctrl "), None);
    assert_eq!(resolve("+"), None);
}

#[test]
fn resolve_lowercase_is_case_sensitive() {
    assert_eq!(resolve_lowercase("shift"), Some(CanonicalKey::ShiftLeft));
    assert_eq!(resolve_lowercase("SHIFT"), None);
    assert_eq!(resolve_lowercase("Q"), None);
}

#[test]
fn trim_removes_unicode_white_space() {
    assert_eq!(trim("  ctrl \t"), "ctrl");
    assert_eq!(trim("\u{3000}alt\u{a0}"), "alt");
    assert_eq!(trim("   "), "");
    assert_eq!(trim("a b"), "a b");
}

#[test]
fn parse_control_alt_t() {
    let def = parse_shortcut("x", "Control+Alt+T").unwrap();
    assert_eq!(def.id, "x");
    assert_eq!(
        keys_of(&def),
        sorted(vec![CanonicalKey::ControlLeft, CanonicalKey::Alt, CanonicalKey::KeyT])
    );
}

#[test]
fn parse_is_case_insensitive_and_trims() {
    let def = parse_shortcut("y", " SHIFT + q ").unwrap();
    assert_eq!(keys_of(&def), sorted(vec![CanonicalKey::ShiftLeft, CanonicalKey::KeyQ]));
}

#[test]
fn parse_order_is_irrelevant() {
    let a = parse_shortcut("x", "Ctrl+Alt+T").unwrap();
    let b = parse_shortcut("x", "t+alt+control").unwrap();
    assert_eq!(a, b);
    let c = parse_shortcut("z", "t+alt+control").unwrap();
    assert_ne!(a, c);
}

#[test]
fn parse_duplicate_tokens_collapse() {
    let def = parse_shortcut("d", "Ctrl+ctrl+Control+K").unwrap();
    assert_eq!(def.keys.len(), 2);
    assert_eq!(keys_of(&def), sorted(vec![CanonicalKey::ControlLeft, CanonicalKey::KeyK]));
}

#[test]
fn parse_single_key() {
    let def = parse_shortcut("b", "F5").unwrap();
    assert_eq!(def.keys, vec![CanonicalKey::F5]);
}

#[test]
fn parse_rejects_unknown_tokens_all_or_nothing() {
    match parse_shortcut("a", "bad+++") {
        Err(ParseError::UnknownKeys { tokens }) => {
            assert_eq!(tokens, vec!["bad".to_string(), String::new(), String::new(), String::new()]);
        }
        other => panic!("unexpected {:?}", other),
    }
    match parse_shortcut("a", "Ctrl+Nope+T") {
        Err(ParseError::UnknownKeys { tokens }) => assert_eq!(tokens, vec!["nope".to_string()]),
        other => panic!("unexpected {:?}", other),
    }
}

#[test]
fn parse_empty_shortcut_names_the_empty_token() {
    match parse_shortcut("a", "") {
        Err(ParseError::UnknownKeys { tokens }) => assert_eq!(tokens, vec![String::new()]),
        other => panic!("unexpected {:?}", other),
    }
}

#[test]
fn parse_tokens_without_tokens_is_empty_combination() {
    let none: Vec<String> = Vec::new();
    assert!(matches!(parse_tokens("a", &none), Err(ParseError::EmptyCombination)));
}

#[test]
fn parse_tokens_expects_lowercase() {
    let toks = vec!["ctrl".to_string(), "q".to_string()];
    let def = parse_tokens("p", &toks).unwrap();
    assert_eq!(def.keys, vec![CanonicalKey::ControlLeft, CanonicalKey::KeyQ]);
    let upper = vec!["CTRL".to_string()];
    assert!(matches!(parse_tokens("p", &upper), Err(ParseError::UnknownKeys { .. })));
}
