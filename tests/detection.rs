use system_agent::keys::CanonicalKey;
use system_agent::keys::CanonicalKey::{Alt, ControlLeft, KeyQ, KeyT, ShiftLeft, F5};
use system_agent::manager::HotkeyManager;
use system_agent::model::KeyEvent;

fn manager_with(bindings: &[(&str, &str)]) -> HotkeyManager {
    let mut m = HotkeyManager::new();
    for (id, shortcut) in bindings {
        m.register_hotkey(id, shortcut).unwrap();
    }
    m
}

fn press(m: &mut HotkeyManager, k: CanonicalKey) -> Vec<String> {
    m.key_press(k)
}

#[test]
fn ctrl_alt_t_fires_once_while_held() {
    let mut m = manager_with(&[("x", "Ctrl+Alt+T")]);
    assert!(press(&mut m, ControlLeft).is_empty());
    assert!(press(&mut m, Alt).is_empty());
    assert_eq!(press(&mut m, KeyT), vec!["x".to_string()]);
    for _ in 0..5 {
        assert!(press(&mut m, KeyT).is_empty());
    }
    assert!(m.is_active("x"));
}

#[test]
fn release_and_repress_each_key_fires_again() {
    for k in [ControlLeft, Alt, KeyT] {
        let mut m = manager_with(&[("x", "Ctrl+Alt+T")]);
        press(&mut m, ControlLeft);
        press(&mut m, Alt);
        assert_eq!(press(&mut m, KeyT), vec!["x".to_string()]);
        m.key_release(k);
        assert!(!m.is_active("x"));
        assert_eq!(press(&mut m, k), vec!["x".to_string()]);
    }
}

#[test]
fn unregister_while_held_then_repress_emits_nothing() {
    let mut m = manager_with(&[("x", "Ctrl+Alt+T")]);
    press(&mut m, ControlLeft);
    press(&mut m, Alt);
    assert_eq!(press(&mut m, KeyT), vec!["x".to_string()]);
    assert!(m.unregister_hotkey("x"));
    assert!(!m.is_active("x"));
    for k in [ControlLeft, Alt, KeyT] {
        m.key_release(k);
    }
    for k in [ControlLeft, Alt, KeyT] {
        assert!(press(&mut m, k).is_empty());
    }
}

#[test]
fn reregistration_replaces_the_combination() {
    let mut m = manager_with(&[("y", "Ctrl+Alt+T"), ("y", "Shift+Q")]);
    let snap = m.snapshot();
    assert_eq!(snap.len(), 1);
    assert_eq!(snap[0].id, "y");
    assert_eq!(snap[0].shortcut, "Shift+Q");
    let mut keys = snap[0].keys.clone();
    keys.sort_by_key(|k| format!("{:?}", k));
    assert_eq!(keys, vec![KeyQ, ShiftLeft]);
    press(&mut m, ControlLeft);
    press(&mut m, Alt);
    assert!(press(&mut m, KeyT).is_empty());
    for k in [ControlLeft, Alt, KeyT] {
        m.key_release(k);
    }
    press(&mut m, ShiftLeft);
    assert_eq!(press(&mut m, KeyQ), vec!["y".to_string()]);
}

#[test]
fn reregistration_keeps_snapshot_position() {
    let m = manager_with(&[("a", "F1"), ("b", "F2"), ("a", "F3")]);
    let ids: Vec<String> = m.snapshot().into_iter().map(|b| b.id).collect();
    assert_eq!(ids, vec!["a".to_string(), "b".to_string()]);
}

#[test]
fn superset_and_subset_bindings_both_fire_in_registry_order() {
    let mut m = manager_with(&[("big", "Ctrl+Alt+T"), ("small", "Ctrl+T")]);
    press(&mut m, ControlLeft);
    press(&mut m, Alt);
    assert_eq!(press(&mut m, KeyT), vec!["big".to_string(), "small".to_string()]);
}

#[test]
fn subset_fires_first_then_superset_on_its_own_press() {
    let mut m = manager_with(&[("big", "Ctrl+Alt+T"), ("small", "Ctrl+T")]);
    press(&mut m, ControlLeft);
    assert_eq!(press(&mut m, KeyT), vec!["small".to_string()]);
    assert_eq!(press(&mut m, Alt), vec!["big".to_string()]);
}

#[test]
fn release_of_unheld_key_is_a_no_op() {
    let mut m = manager_with(&[("b", "F5")]);
    m.key_release(KeyQ);
    assert!(!m.is_pressed(KeyQ));
    assert_eq!(press(&mut m, F5), vec!["b".to_string()]);
    m.key_release(KeyQ);
    assert!(m.is_active("b"));
}

#[test]
fn failed_registration_changes_nothing() {
    let mut m = manager_with(&[("x", "Ctrl+Alt+T")]);
    assert!(m.register_hotkey("x", "Ctrl+Nope").is_err());
    let snap = m.snapshot();
    assert_eq!(snap.len(), 1);
    assert_eq!(snap[0].shortcut, "Ctrl+Alt+T");
}

#[test]
fn unregister_unknown_id_is_a_no_op() {
    let mut m = manager_with(&[("x", "F5")]);
    assert!(!m.unregister_hotkey("nobody"));
    assert_eq!(m.snapshot().len(), 1);
}

#[test]
fn registering_while_held_fires_on_next_press() {
    let mut m = HotkeyManager::new();
    press(&mut m, ControlLeft);
    press(&mut m, KeyT);
    m.register_hotkey("late", "Ctrl+T").unwrap();
    assert!(!m.is_active("late"));
    assert_eq!(press(&mut m, KeyT), vec!["late".to_string()]);
}

#[test]
fn reregistering_a_held_active_id_keeps_it_quiet() {
    let mut m = manager_with(&[("x", "Ctrl+T")]);
    press(&mut m, ControlLeft);
    assert_eq!(press(&mut m, KeyT), vec!["x".to_string()]);
    m.register_hotkey("x", "T+Ctrl").unwrap();
    assert!(m.is_active("x"));
    assert!(press(&mut m, KeyT).is_empty());
    m.register_hotkey("x", "Ctrl+Alt+T").unwrap();
    assert!(!m.is_active("x"));
}

#[test]
fn batch_reports_failures_and_registers_the_rest() {
    let mut m = HotkeyManager::new();
    let batch = vec![
        system_agent::command::RegisterCommand { id: "a".to_string(), shortcut: "bad+++".to_string() },
        system_agent::command::RegisterCommand { id: "b".to_string(), shortcut: "F5".to_string() },
        system_agent::command::RegisterCommand { id: "c".to_string(), shortcut: "nope".to_string() },
    ];
    assert_eq!(m.register_batch(&batch), vec![0, 2]);
    assert_eq!(m.snapshot().len(), 1);
    assert_eq!(press(&mut m, F5), vec!["b".to_string()]);
}

#[test]
fn on_key_follows_press_and_release() {
    let mut m = manager_with(&[("b", "F5")]);
    assert_eq!(m.on_key(KeyEvent::Press(F5)), vec!["b".to_string()]);
    assert!(m.on_key(KeyEvent::Release(F5)).is_empty());
    assert!(!m.is_pressed(F5));
    assert_eq!(m.on_key(KeyEvent::Press(F5)), vec!["b".to_string()]);
}

struct Lcg(u64);

impl Lcg {
    fn next(&mut self) -> u64 {
        self.0 = self.0.wrapping_mul(6364136223846793005).wrapping_add(1442695040888963407);
        self.0 >> 33
    }
}

const UNIVERSE: [CanonicalKey; 6] = [ControlLeft, Alt, ShiftLeft, KeyT, KeyQ, F5];

fn random_event(rng: &mut Lcg) -> KeyEvent {
    let k = UNIVERSE[(rng.next() % UNIVERSE.len() as u64) as usize];
    if rng.next() % 2 == 0 {
        KeyEvent::Press(k)
    } else {
        KeyEvent::Release(k)
    }
}

#[test]
fn active_ids_always_have_their_combination_held() {
    let shortcuts = [("x", "Ctrl+Alt+T"), ("y", "Shift+Q"), ("z", "Ctrl+T"), ("w", "F5"), ("v", "Alt+Shift+Q+F5")];
    for seed in 0..40u64 {
        let mut m = manager_with(&shortcuts);
        let mut rng = Lcg(seed);
        for _ in 0..300 {
            let e = random_event(&mut rng);
            m.on_key(e);
            for b in m.snapshot() {
                if m.is_active(&b.id) {
                    assert!(b.keys.iter().all(|k| m.is_pressed(*k)), "seed {} id {}", seed, b.id);
                }
            }
            for (id, _) in shortcuts.iter() {
                if m.is_active(id) {
                    assert!(m.snapshot().iter().any(|b| b.id == *id));
                }
            }
        }
    }
}

#[test]
fn after_unregister_all_nothing_fires() {
    for seed in 0..40u64 {
        let mut m = manager_with(&[("x", "Ctrl+Alt+T"), ("y", "Shift+Q"), ("w", "F5")]);
        let mut rng = Lcg(seed + 1000);
        for _ in 0..50 {
            m.on_key(random_event(&mut rng));
        }
        m.unregister_all();
        assert!(m.snapshot().is_empty());
        for _ in 0..300 {
            assert!(m.on_key(random_event(&mut rng)).is_empty());
        }
    }
}
