use vstd::prelude::*;

use crate::keys::CanonicalKey;

verus! {

/// A registered hotkey: its id, the shortcut text it was registered with,
/// and the keys that must all be held for it to fire.
pub struct Binding {
    pub id: Seq<char>,
    pub shortcut: Seq<char>,
    pub combination: Set<CanonicalKey>,
}

/// The whole detection state: the registry in snapshot order, the keys
/// currently held, and the ids that have fired and are still held.
pub struct DetectionState {
    pub bindings: Seq<Binding>,
    pub pressed: Set<CanonicalKey>,
    pub active: Set<Seq<char>>,
}

/// A key transition reported by the key source.
#[derive(Clone, Copy, Debug, PartialEq, Eq, Structural)]
pub enum KeyEvent {
    Press(CanonicalKey),
    Release(CanonicalKey),
}

/// No two bindings share an id.
pub open spec fn ids_unique(bs: Seq<Binding>) -> bool {
    forall|i: int, j: int|
        0 <= i < bs.len() && 0 <= j < bs.len() && i != j ==> bs[i].id != bs[j].id
}

/// Some binding has this id.
pub open spec fn has_id(bs: Seq<Binding>, id: Seq<char>) -> bool {
    exists|i: int| 0 <= i < bs.len() && bs[i].id == id
}

/// The position of the binding with this id (meaningful when `has_id`).
pub open spec fn position_of(bs: Seq<Binding>, id: Seq<char>) -> int {
    choose|i: int| 0 <= i < bs.len() && bs[i].id == id
}

/// The ids of the bindings whose whole combination is held.
pub open spec fn satisfied_in(bs: Seq<Binding>, pressed: Set<CanonicalKey>) -> Set<Seq<char>> {
    Set::new(
        |id: Seq<char>|
            exists|i: int|
                0 <= i < bs.len() && bs[i].id == id && bs[i].combination.subset_of(pressed),
    )
}

/// The ids that fire, in registry order: combination held, not already active.
pub open spec fn fired(
    bs: Seq<Binding>,
    pressed: Set<CanonicalKey>,
    active: Set<Seq<char>>,
) -> Seq<Seq<char>>
    decreases bs.len(),
{
    if bs.len() == 0 {
        Seq::empty()
    } else {
        let rest = fired(bs.drop_last(), pressed, active);
        let b = bs.last();
        if b.combination.subset_of(pressed) && !active.contains(b.id) {
            rest.push(b.id)
        } else {
            rest
        }
    }
}

impl DetectionState {
    /// Nothing registered, nothing held.
    pub open spec fn empty() -> DetectionState {
        DetectionState { bindings: Seq::empty(), pressed: Set::empty(), active: Set::empty() }
    }

    /// Ids are unique, and an id is active only while its combination is held.
    pub open spec fn inv(self) -> bool {
        &&& ids_unique(self.bindings)
        &&& self.active.subset_of(satisfied_in(self.bindings, self.pressed))
    }

    /// What a press of `k` emits.
    pub open spec fn press_output(self, k: CanonicalKey) -> Seq<Seq<char>> {
        fired(self.bindings, self.pressed.insert(k), self.active)
    }

    /// The state after a press of `k`: the key is held and what fired is active.
    pub open spec fn press(self, k: CanonicalKey) -> DetectionState {
        DetectionState {
            bindings: self.bindings,
            pressed: self.pressed.insert(k),
            active: self.active + self.press_output(k).to_set(),
        }
    }

    /// The state after a release of `k`: the key is no longer held and only
    /// the ids whose combination is still held stay active.
    pub open spec fn release(self, k: CanonicalKey) -> DetectionState {
        let pressed = self.pressed.remove(k);
        DetectionState {
            bindings: self.bindings,
            pressed,
            active: self.active.intersect(satisfied_in(self.bindings, pressed)),
        }
    }

    /// One key transition: the next state and what it emits.
    pub open spec fn step(self, e: KeyEvent) -> (DetectionState, Seq<Seq<char>>) {
        match e {
            KeyEvent::Press(k) => (self.press(k), self.press_output(k)),
            KeyEvent::Release(k) => (self.release(k), Seq::empty()),
        }
    }

    /// Registers `b`: a binding with the same id is replaced where it stands,
    /// else `b` goes last. The id stays active only if `b` is held.
    pub open spec fn register(self, b: Binding) -> DetectionState {
        DetectionState {
            bindings: if has_id(self.bindings, b.id) {
                self.bindings.update(position_of(self.bindings, b.id), b)
            } else {
                self.bindings.push(b)
            },
            pressed: self.pressed,
            active: if b.combination.subset_of(self.pressed) {
                self.active
            } else {
                self.active.remove(b.id)
            },
        }
    }

    /// Removes the binding with this id, if there is one.
    pub open spec fn unregister(self, id: Seq<char>) -> DetectionState {
        DetectionState {
            bindings: if has_id(self.bindings, id) {
                self.bindings.remove(position_of(self.bindings, id))
            } else {
                self.bindings
            },
            pressed: self.pressed,
            active: self.active.remove(id),
        }
    }

    /// Removes every binding.
    pub open spec fn clear(self) -> DetectionState {
        DetectionState { bindings: Seq::empty(), pressed: self.pressed, active: Set::empty() }
    }
}

/// The state after a sequence of key transitions, and all that they emit.
pub open spec fn run(s: DetectionState, evs: Seq<KeyEvent>) -> (DetectionState, Seq<Seq<char>>)
    decreases evs.len(),
{
    if evs.len() == 0 {
        (s, Seq::empty())
    } else {
        let (s1, out1) = run(s, evs.drop_last());
        let (s2, out2) = s1.step(evs.last());
        (s2, out1 + out2)
    }
}

/// Each id that fires belongs to a binding whose combination is held and
/// that was not active.
pub proof fn lemma_fired_sound(bs: Seq<Binding>, pressed: Set<CanonicalKey>, active: Set<Seq<char>>)
    ensures
        forall|x: int|
            0 <= x < fired(bs, pressed, active).len() ==> exists|j: int|
                0 <= j < bs.len() && #[trigger] fired(bs, pressed, active)[x] == bs[j].id
                    && bs[j].combination.subset_of(pressed) && !active.contains(bs[j].id),
    decreases bs.len(),
{
    if bs.len() > 0 {
        lemma_fired_sound(bs.drop_last(), pressed, active);
        let rest = fired(bs.drop_last(), pressed, active);
        assert forall|x: int|
            0 <= x < fired(bs, pressed, active).len() implies exists|j: int|
                0 <= j < bs.len() && #[trigger] fired(bs, pressed, active)[x] == bs[j].id
                    && bs[j].combination.subset_of(pressed) && !active.contains(bs[j].id) by {
            if x < rest.len() {
                let j = choose|j: int|
                    0 <= j < bs.drop_last().len() && rest[x] == bs.drop_last()[j].id
                        && bs.drop_last()[j].combination.subset_of(pressed) && !active.contains(
                        bs.drop_last()[j].id,
                    );
                assert(bs[j] == bs.drop_last()[j]);
            } else {
                assert(fired(bs, pressed, active)[x] == bs[bs.len() - 1].id);
            }
        };
    }
}

/// A binding whose combination is held and that is not active fires.
pub proof fn lemma_fired_complete(
    bs: Seq<Binding>,
    pressed: Set<CanonicalKey>,
    active: Set<Seq<char>>,
    j: int,
)
    requires
        0 <= j < bs.len(),
        bs[j].combination.subset_of(pressed),
        !active.contains(bs[j].id),
    ensures
        fired(bs, pressed, active).contains(bs[j].id),
    decreases bs.len(),
{
    let rest = fired(bs.drop_last(), pressed, active);
    if j < bs.len() - 1 {
        assert(bs.drop_last()[j] == bs[j]);
        lemma_fired_complete(bs.drop_last(), pressed, active, j);
        let x = choose|x: int| 0 <= x < rest.len() && rest[x] == bs[j].id;
        assert(fired(bs, pressed, active)[x] == bs[j].id);
    } else {
        assert(fired(bs, pressed, active).last() == bs[j].id);
    }
}

/// A press keeps the invariant.
pub proof fn lemma_press_inv(s: DetectionState, k: CanonicalKey)
    requires
        s.inv(),
    ensures
        s.press(k).inv(),
{
    let p = s.pressed.insert(k);
    let out = s.press_output(k);
    lemma_fired_sound(s.bindings, p, s.active);
    assert forall|id: Seq<char>| s.press(k).active.contains(id) implies satisfied_in(
        s.bindings,
        p,
    ).contains(id) by {
        if s.active.contains(id) {
            let i = choose|i: int|
                0 <= i < s.bindings.len() && s.bindings[i].id == id
                    && s.bindings[i].combination.subset_of(s.pressed);
            assert(s.bindings[i].combination.subset_of(p));
        } else {
            let x = choose|x: int| 0 <= x < out.len() && out[x] == id;
            let j = choose|j: int|
                0 <= j < s.bindings.len() && #[trigger] out[x] == s.bindings[j].id
                    && s.bindings[j].combination.subset_of(p) && !s.active.contains(
                    s.bindings[j].id,
                );
        }
    };
}

/// A release keeps the invariant.
pub proof fn lemma_release_inv(s: DetectionState, k: CanonicalKey)
    requires
        s.inv(),
    ensures
        s.release(k).inv(),
{
}

/// Registering keeps the invariant.
pub proof fn lemma_register_inv(s: DetectionState, b: Binding)
    requires
        s.inv(),
    ensures
        s.register(b).inv(),
{
    let t = s.register(b);
    let bs = s.bindings;
    if has_id(bs, b.id) {
        let i = position_of(bs, b.id);
        assert forall|id: Seq<char>| t.active.contains(id) implies satisfied_in(
            t.bindings,
            t.pressed,
        ).contains(id) by {
            if id == b.id {
                assert(t.bindings[i] == b);
            } else {
                let j = choose|j: int|
                    0 <= j < bs.len() && bs[j].id == id && bs[j].combination.subset_of(s.pressed);
                assert(t.bindings[j] == bs[j]);
            }
        };
    } else {
        assert forall|id: Seq<char>| t.active.contains(id) implies satisfied_in(
            t.bindings,
            t.pressed,
        ).contains(id) by {
            if id == b.id {
                assert(t.bindings[bs.len() as int] == b);
            } else {
                let j = choose|j: int|
                    0 <= j < bs.len() && bs[j].id == id && bs[j].combination.subset_of(s.pressed);
                assert(t.bindings[j] == bs[j]);
            }
        };
    }
}

/// Unregistering keeps the invariant.
pub proof fn lemma_unregister_inv(s: DetectionState, id: Seq<char>)
    requires
        s.inv(),
    ensures
        s.unregister(id).inv(),
{
    let t = s.unregister(id);
    let bs = s.bindings;
    if has_id(bs, id) {
        let i = position_of(bs, id);
        assert forall|x: Seq<char>| t.active.contains(x) implies satisfied_in(
            t.bindings,
            t.pressed,
        ).contains(x) by {
            let j = choose|j: int|
                0 <= j < bs.len() && bs[j].id == x && bs[j].combination.subset_of(s.pressed);
            if j < i {
                assert(t.bindings[j] == bs[j]);
            } else {
                assert(j != i);
                assert(t.bindings[j - 1] == bs[j]);
            }
        };
    }
}

/// Clearing the registry keeps the invariant.
pub proof fn lemma_clear_inv(s: DetectionState)
    ensures
        s.clear().inv(),
{
}

/// Key transitions never change the registry.
pub proof fn lemma_run_keeps_bindings(s: DetectionState, evs: Seq<KeyEvent>)
    ensures
        run(s, evs).0.bindings == s.bindings,
    decreases evs.len(),
{
    if evs.len() > 0 {
        lemma_run_keeps_bindings(s, evs.drop_last());
    }
}

} // verus!
