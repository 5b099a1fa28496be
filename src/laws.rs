use vstd::prelude::*;

use crate::keys::CanonicalKey;
use crate::model::{
    fired, has_id, ids_unique, lemma_fired_complete, lemma_fired_sound, lemma_press_inv,
    lemma_release_inv, lemma_run_keeps_bindings, position_of, run, satisfied_in, Binding,
    DetectionState, KeyEvent,
};

verus! {

/// Whatever keys are pressed and released, an id is active only while some
/// binding with that id has its whole combination held.
pub proof fn law_active_only_while_held(s: DetectionState, evs: Seq<KeyEvent>)
    requires
        s.inv(),
    ensures
        run(s, evs).0.inv(),
        run(s, evs).0.active.subset_of(satisfied_in(run(s, evs).0.bindings, run(s, evs).0.pressed)),
    decreases evs.len(),
{
    if evs.len() > 0 {
        law_active_only_while_held(s, evs.drop_last());
        let s1 = run(s, evs.drop_last()).0;
        match evs.last() {
            KeyEvent::Press(k) => lemma_press_inv(s1, k),
            KeyEvent::Release(k) => lemma_release_inv(s1, k),
        }
    }
}

/// With the registry cleared, no sequence of key transitions emits anything.
pub proof fn law_cleared_registry_never_fires(s: DetectionState, evs: Seq<KeyEvent>)
    ensures
        run(s.clear(), evs).1 == Seq::<Seq<char>>::empty(),
    decreases evs.len(),
{
    if evs.len() > 0 {
        law_cleared_registry_never_fires(s, evs.drop_last());
        lemma_run_keeps_bindings(s.clear(), evs.drop_last());
        let s1 = run(s.clear(), evs.drop_last()).0;
        if let KeyEvent::Press(k) = evs.last() {
            assert(fired(s1.bindings, s1.pressed.insert(k), s1.active) == Seq::<Seq<char>>::empty());
        }
        assert(run(s.clear(), evs).1 =~= Seq::<Seq<char>>::empty());
    }
}

/// Holding a key down: a second press of the same key emits nothing.
pub proof fn law_repeated_press_is_silent(s: DetectionState, k: CanonicalKey)
    ensures
        s.press(k).press_output(k) == Seq::<Seq<char>>::empty(),
{
    let t = s.press(k);
    let p = s.pressed.insert(k);
    assert(t.pressed.insert(k) =~= p);
    lemma_fired_sound(t.bindings, p, t.active);
    let out = t.press_output(k);
    if out.len() > 0 {
        let j = choose|j: int|
            0 <= j < t.bindings.len() && #[trigger] out[0] == t.bindings[j].id
                && t.bindings[j].combination.subset_of(p) && !t.active.contains(t.bindings[j].id);
        lemma_fired_complete(s.bindings, p, s.active, j);
        assert(false);
    }
    assert(out =~= Seq::<Seq<char>>::empty());
}

/// Releasing one key of a held combination and pressing it again fires that
/// binding once more.
pub proof fn law_release_then_press_fires_again(s: DetectionState, j: int, k: CanonicalKey)
    requires
        s.inv(),
        0 <= j < s.bindings.len(),
        s.bindings[j].combination.subset_of(s.pressed),
        s.bindings[j].combination.contains(k),
    ensures
        s.release(k).press_output(k).contains(s.bindings[j].id),
{
    let r = s.release(k);
    let b = s.bindings[j];
    assert(!b.combination.subset_of(r.pressed));
    if r.active.contains(b.id) {
        let i = choose|i: int|
            0 <= i < r.bindings.len() && r.bindings[i].id == b.id
                && r.bindings[i].combination.subset_of(r.pressed);
        assert(i == j);
        assert(false);
    }
    assert(b.combination.subset_of(r.pressed.insert(k)));
    lemma_fired_complete(r.bindings, r.pressed.insert(k), r.active, j);
}

/// What a sequence of key transitions emits are ids of registered bindings.
proof fn lemma_run_emits_registered_ids(s: DetectionState, evs: Seq<KeyEvent>)
    ensures
        forall|x: int| 0 <= x < run(s, evs).1.len() ==> has_id(s.bindings, #[trigger] run(s, evs).1[x]),
    decreases evs.len(),
{
    if evs.len() > 0 {
        lemma_run_emits_registered_ids(s, evs.drop_last());
        lemma_run_keeps_bindings(s, evs.drop_last());
        let (s1, out1) = run(s, evs.drop_last());
        let out2 = s1.step(evs.last()).1;
        if let KeyEvent::Press(k) = evs.last() {
            lemma_fired_sound(s1.bindings, s1.pressed.insert(k), s1.active);
        }
        assert forall|x: int| 0 <= x < run(s, evs).1.len() implies has_id(
            s.bindings,
            #[trigger] run(s, evs).1[x],
        ) by {
            if x < out1.len() {
                assert(run(s, evs).1[x] == out1[x]);
            } else {
                assert(run(s, evs).1[x] == out2[x - out1.len()]);
            }
        };
    }
}

/// Once an id is unregistered, no sequence of key transitions emits it,
/// even if its keys were held at the time.
pub proof fn law_unregistered_id_never_fires(s: DetectionState, id: Seq<char>, evs: Seq<KeyEvent>)
    requires
        s.inv(),
    ensures
        !run(s.unregister(id), evs).1.contains(id),
{
    let t = s.unregister(id);
    lemma_run_emits_registered_ids(t, evs);
    if has_id(t.bindings, id) {
        let i = position_of(s.bindings, id);
        let j = choose|j: int| 0 <= j < t.bindings.len() && t.bindings[j].id == id;
        if j < i {
            assert(t.bindings[j] == s.bindings[j]);
        } else {
            assert(t.bindings[j] == s.bindings[j + 1]);
        }
        assert(false);
    }
}

/// Registering an id a second time replaces its binding: exactly one binding
/// has the id afterwards, the second one, and the first combination is gone.
pub proof fn law_reregistration_replaces(s: DetectionState, first: Binding, second: Binding)
    requires
        s.inv(),
        first.id == second.id,
    ensures
        ids_unique(s.register(first).register(second).bindings),
        has_id(s.register(first).register(second).bindings, second.id),
        forall|i: int|
            0 <= i < s.register(first).register(second).bindings.len()
                && #[trigger] s.register(first).register(second).bindings[i].id == second.id
                ==> s.register(first).register(second).bindings[i] == second,
{
    let t1 = s.register(first);
    let t2 = t1.register(second);
    crate::model::lemma_register_inv(s, first);
    crate::model::lemma_register_inv(t1, second);
    if has_id(s.bindings, first.id) {
        assert(t1.bindings[position_of(s.bindings, first.id)].id == first.id);
    } else {
        assert(t1.bindings[s.bindings.len() as int].id == first.id);
    }
    assert(has_id(t1.bindings, second.id));
    let i = position_of(t1.bindings, second.id);
    assert(t2.bindings[i] == second);
}

} // verus!
