use vstd::prelude::*;

use crate::keys::{has_key, keys_within, same_text, CanonicalKey};
use crate::model::{
    fired, has_id, ids_unique, lemma_clear_inv, lemma_fired_sound, lemma_press_inv,
    lemma_register_inv, lemma_release_inv, lemma_unregister_inv, position_of, satisfied_in,
    Binding, DetectionState, KeyEvent,
};
use crate::command::RegisterCommand;
use crate::shortcut::{
    all_known, combination_of, parse_shortcut, shortcut_tokens, texts, unknown_tokens, ParseError,
};

verus! {

/// A registry entry: the id, the shortcut text it was registered with, and
/// its combination, each key listed once.
#[derive(Debug)]
pub struct HotkeyBinding {
    pub id: String,
    pub shortcut: String,
    pub keys: Vec<CanonicalKey>,
}

impl View for HotkeyBinding {
    type V = Binding;

    open spec fn view(&self) -> Binding {
        Binding { id: self.id@, shortcut: self.shortcut@, combination: self.keys@.to_set() }
    }
}

impl HotkeyBinding {
    /// Each key is listed once and the combination is not empty.
    pub open spec fn wf(&self) -> bool {
        &&& self.keys@.no_duplicates()
        &&& self.keys@.len() > 0
    }

    /// A copy of this binding.
    pub fn duplicate(&self) -> (r: HotkeyBinding)
        ensures
            r.id@ == self.id@,
            r.shortcut@ == self.shortcut@,
            r.keys@ == self.keys@,
    {
        HotkeyBinding { id: self.id.clone(), shortcut: self.shortcut.clone(), keys: copy_keys(&self.keys) }
    }
}

/// The views of the bindings, in order.
pub open spec fn binding_views(bs: Seq<HotkeyBinding>) -> Seq<Binding> {
    bs.map_values(|b: HotkeyBinding| b@)
}

fn copy_keys(keys: &Vec<CanonicalKey>) -> (r: Vec<CanonicalKey>)
    ensures
        r@ == keys@,
{
    let mut r: Vec<CanonicalKey> = Vec::new();
    let mut i: usize = 0;
    while i < keys.len()
        invariant
            i <= keys@.len(),
            r@ == keys@.take(i as int),
        decreases keys@.len() - i,
    {
        r.push(keys[i]);
        assert(keys@.take(i + 1) =~= keys@.take(i as int).push(keys@[i as int]));
        i = i + 1;
    }
    assert(keys@.take(keys@.len() as int) =~= keys@);
    r
}

/// Whether some string of `v` holds the characters of `t`.
fn has_text(v: &Vec<String>, t: &str) -> (r: bool)
    ensures
        r == texts(v@).contains(t@),
{
    let mut i: usize = 0;
    while i < v.len()
        invariant
            i <= v@.len(),
            forall|j: int| 0 <= j < i ==> v@[j]@ != t@,
        decreases v@.len() - i,
    {
        if same_text(v[i].as_str(), t) {
            assert(texts(v@)[i as int] == t@);
            return true;
        }
        i = i + 1;
    }
    assert forall|j: int| 0 <= j < texts(v@).len() implies texts(v@)[j] != t@ by {
        assert(texts(v@)[j] == v@[j]@);
    };
    false
}

/// Removes `k` from a list of distinct keys.
fn remove_key(keys: &mut Vec<CanonicalKey>, k: CanonicalKey)
    requires
        old(keys)@.no_duplicates(),
    ensures
        final(keys)@.no_duplicates(),
        final(keys)@.to_set() == old(keys)@.to_set().remove(k),
{
    let ghost before = keys@;
    let mut i: usize = 0;
    while i < keys.len()
        invariant
            keys@ == before,
            before == old(keys)@,
            before.no_duplicates(),
            i <= keys@.len(),
            forall|j: int| 0 <= j < i ==> keys@[j] != k,
        decreases keys@.len() - i,
    {
        if keys[i] == k {
            keys.remove(i);
            let ghost after = keys@;
            assert forall|a: int, b: int|
                0 <= a < after.len() && 0 <= b < after.len() && a != b implies after[a] != after[b] by {
                let a2 = if a < i { a } else { a + 1 };
                let b2 = if b < i { b } else { b + 1 };
                assert(after[a] == before[a2]);
                assert(after[b] == before[b2]);
            };
            assert(keys@.to_set() =~= before.to_set().remove(k)) by {
                assert forall|x: CanonicalKey| keys@.to_set().contains(x) implies before.to_set().remove(k).contains(x) by {
                    let m = choose|m: int| 0 <= m < keys@.len() && keys@[m] == x;
                    let m2 = if m < i { m } else { m + 1 };
                    assert(before[m2] == x);
                    assert(m2 != i);
                };
                assert forall|x: CanonicalKey| before.to_set().remove(k).contains(x) implies keys@.to_set().contains(x) by {
                    let m = choose|m: int| 0 <= m < before.len() && before[m] == x;
                    if m < i {
                        assert(keys@[m] == x);
                    } else {
                        assert(m != i);
                        assert(keys@[m - 1] == x);
                    }
                };
            };
            return;
        }
        i = i + 1;
    }
    assert(keys@.to_set() =~= before.to_set().remove(k));
}

/// Removes the string that holds `t` from a list of distinct strings.
fn remove_text(v: &mut Vec<String>, t: &str)
    requires
        texts(old(v)@).no_duplicates(),
    ensures
        texts(final(v)@).no_duplicates(),
        texts(final(v)@).to_set() == texts(old(v)@).to_set().remove(t@),
{
    let ghost before = texts(v@);
    let mut i: usize = 0;
    while i < v.len()
        invariant
            texts(v@) == before,
            before == texts(old(v)@),
            before.no_duplicates(),
            i <= v@.len(),
            forall|j: int| 0 <= j < i ==> v@[j]@ != t@,
        decreases v@.len() - i,
    {
        if same_text(v[i].as_str(), t) {
            let ghost old_v = v@;
            v.remove(i);
            assert(texts(v@) =~= before.remove(i as int)) by {
                assert(v@ =~= old_v.remove(i as int));
            };
            let ghost after = texts(v@);
            assert(before[i as int] == t@);
            assert forall|a: int, b: int|
                0 <= a < after.len() && 0 <= b < after.len() && a != b implies after[a] != after[b] by {
                let a2 = if a < i { a } else { a + 1 };
                let b2 = if b < i { b } else { b + 1 };
                assert(after[a] == before[a2]);
                assert(after[b] == before[b2]);
            };
            assert(texts(v@).to_set() =~= before.to_set().remove(t@)) by {
                assert forall|x: Seq<char>| texts(v@).to_set().contains(x) implies before.to_set().remove(t@).contains(x) by {
                    let m = choose|m: int| 0 <= m < texts(v@).len() && texts(v@)[m] == x;
                    let m2 = if m < i { m } else { m + 1 };
                    assert(before[m2] == x);
                    assert(m2 != i);
                };
                assert forall|x: Seq<char>| before.to_set().remove(t@).contains(x) implies texts(v@).to_set().contains(x) by {
                    let m = choose|m: int| 0 <= m < before.len() && before[m] == x;
                    if m < i {
                        assert(texts(v@)[m] == x);
                    } else {
                        assert(m != i);
                        assert(texts(v@)[m - 1] == x);
                    }
                };
            };
            return;
        }
        i = i + 1;
    }
    assert forall|j: int| 0 <= j < before.len() implies before[j] != t@ by {
        assert(before[j] == v@[j]@);
    };
    assert(texts(v@).to_set() =~= before.to_set().remove(t@));
}

/// Whether some binding with this id has its whole combination held.
fn is_satisfied(bindings: &Vec<HotkeyBinding>, pressed: &Vec<CanonicalKey>, id: &str) -> (r: bool)
    ensures
        r == satisfied_in(binding_views(bindings@), pressed@.to_set()).contains(id@),
{
    let ghost bs = binding_views(bindings@);
    let mut i: usize = 0;
    while i < bindings.len()
        invariant
            bs == binding_views(bindings@),
            i <= bindings@.len(),
            forall|j: int|
                0 <= j < i ==> !(bs[j].id == id@ && bs[j].combination.subset_of(pressed@.to_set())),
        decreases bindings@.len() - i,
    {
        let b = &bindings[i];
        if same_text(b.id.as_str(), id) && keys_within(&b.keys, pressed) {
            assert(bs[i as int] == b@);
            return true;
        }
        assert(bs[i as int] == b@);
        i = i + 1;
    }
    false
}

/// Where the binding with this id stands, if any.
fn find_binding(bindings: &Vec<HotkeyBinding>, id: &str) -> (r: Option<usize>)
    requires
        ids_unique(binding_views(bindings@)),
    ensures
        match r {
            Some(i) => {
                &&& has_id(binding_views(bindings@), id@)
                &&& i as int == position_of(binding_views(bindings@), id@)
                &&& i < bindings@.len()
            },
            None => !has_id(binding_views(bindings@), id@),
        },
{
    let ghost bs = binding_views(bindings@);
    let mut i: usize = 0;
    while i < bindings.len()
        invariant
            bs == binding_views(bindings@),
            ids_unique(bs),
            i <= bindings@.len(),
            forall|j: int| 0 <= j < i ==> bs[j].id != id@,
        decreases bindings@.len() - i,
    {
        assert(bs[i as int] == bindings@[i as int]@);
        if same_text(bindings[i].id.as_str(), id) {
            assert(has_id(bs, id@));
            let ghost p = position_of(bs, id@);
            assert(0 <= p < bs.len() && bs[p].id == id@);
            assert(bs[p].id == bs[i as int].id);
            assert(p == i as int);
            return Some(i);
        }
        i = i + 1;
    }
    None
}

/// The binding that registering `shortcut` under `id` makes, when every
/// token of the shortcut names a key.
pub open spec fn binding_for(id: Seq<char>, shortcut: Seq<char>) -> Binding {
    Binding { id, shortcut, combination: combination_of(shortcut_tokens(shortcut)) }
}

/// The error names exactly the tokens of `toks` that name no key.
pub open spec fn names_unknown(e: ParseError, toks: Seq<Seq<char>>) -> bool {
    match e {
        ParseError::UnknownKeys { tokens } => texts(tokens@) == unknown_tokens(toks),
        ParseError::EmptyCombination => false,
    }
}

/// The id and shortcut of each entry of a batch.
pub open spec fn entries(cmds: Seq<RegisterCommand>) -> Seq<(Seq<char>, Seq<char>)> {
    cmds.map_values(|c: RegisterCommand| (c.id@, c.shortcut@))
}

/// Every token of the shortcut names a key.
pub open spec fn parses(shortcut: Seq<char>) -> bool {
    all_known(shortcut_tokens(shortcut))
}

/// The state after registering each entry in turn; an entry whose shortcut
/// does not parse is skipped and the others still apply.
pub open spec fn register_entries(s: DetectionState, es: Seq<(Seq<char>, Seq<char>)>) -> DetectionState
    decreases es.len(),
{
    if es.len() == 0 {
        s
    } else {
        let s1 = register_entries(s, es.drop_last());
        let (id, shortcut) = es.last();
        if parses(shortcut) {
            s1.register(binding_for(id, shortcut))
        } else {
            s1
        }
    }
}

/// The positions of the entries whose shortcut does not parse, in order.
pub open spec fn failed_entries(es: Seq<(Seq<char>, Seq<char>)>) -> Seq<int>
    decreases es.len(),
{
    if es.len() == 0 {
        Seq::empty()
    } else if parses(es.last().1) {
        failed_entries(es.drop_last())
    } else {
        failed_entries(es.drop_last()).push(es.len() - 1)
    }
}

/// The positions of failed entries are positions of the batch.
pub proof fn lemma_failed_entries_in_range(es: Seq<(Seq<char>, Seq<char>)>)
    ensures
        forall|m: int| 0 <= m < failed_entries(es).len() ==> 0 <= #[trigger] failed_entries(es)[m] < es.len(),
    decreases es.len(),
{
    if es.len() > 0 {
        lemma_failed_entries_in_range(es.drop_last());
        let f0 = failed_entries(es.drop_last());
        assert forall|m: int| 0 <= m < failed_entries(es).len() implies 0 <= #[trigger] failed_entries(
            es,
        )[m] < es.len() by {
            if m < f0.len() {
                assert(failed_entries(es)[m] == f0[m]);
            }
        };
    }
}

/// The detection state: the hotkey registry in snapshot order, the keys held
/// down, and the ids that have fired and are still held.
pub struct HotkeyManager {
    bindings: Vec<HotkeyBinding>,
    pressed: Vec<CanonicalKey>,
    active: Vec<String>,
}

impl View for HotkeyManager {
    type V = DetectionState;

    closed spec fn view(&self) -> DetectionState {
        DetectionState {
            bindings: binding_views(self.bindings@),
            pressed: self.pressed@.to_set(),
            active: texts(self.active@).to_set(),
        }
    }
}

impl HotkeyManager {
    /// Each binding lists its keys once, no key or id is held twice, and the
    /// model's invariant holds.
    pub closed spec fn wf(&self) -> bool {
        &&& forall|i: int| 0 <= i < self.bindings@.len() ==> #[trigger] self.bindings@[i].wf()
        &&& self.pressed@.no_duplicates()
        &&& texts(self.active@).no_duplicates()
        &&& self@.inv()
    }

    /// Nothing registered and nothing held.
    pub fn new() -> (r: HotkeyManager)
        ensures
            r.wf(),
            r@ == DetectionState::empty(),
    {
        let r = HotkeyManager { bindings: Vec::new(), pressed: Vec::new(), active: Vec::new() };
        assert(r@.bindings =~= Seq::<Binding>::empty());
        assert(r@.pressed =~= Set::<CanonicalKey>::empty());
        assert(r@.active =~= Set::<Seq<char>>::empty());
        r
    }

    /// A press of `k`: records the key, then fires, in registry order, each
    /// binding whose combination is now held and that is not already active.
    /// Returns the ids that fired.
    pub fn key_press(&mut self, k: CanonicalKey) -> (r: Vec<String>)
        requires
            old(self).wf(),
        ensures
            final(self).wf(),
            final(self)@ == old(self)@.press(k),
            texts(r@) == old(self)@.press_output(k),
    {
        let ghost s0 = self@;
        let ghost p = s0.pressed.insert(k);
        if !has_key(&self.pressed, k) {
            let ghost before = self.pressed@;
            self.pressed.push(k);
            proof {
                before.lemma_push_to_set_commute(k);
            }
        } else {
            assert(self.pressed@.to_set() =~= p);
        }
        let mut out: Vec<String> = Vec::new();
        let mut i: usize = 0;
        proof {
            lemma_press_inv(s0, k);
        }
        assert(texts(self.active@).to_set() =~= s0.active + texts(out@).to_set());
        while i < self.bindings.len()
            invariant
                s0.bindings == binding_views(self.bindings@),
                ids_unique(s0.bindings),
                forall|j: int| 0 <= j < self.bindings@.len() ==> #[trigger] self.bindings@[j].wf(),
                self.pressed@.no_duplicates(),
                self.pressed@.to_set() == p,
                i <= self.bindings@.len(),
                texts(out@) == fired(s0.bindings.take(i as int), p, s0.active),
                texts(self.active@).to_set() == s0.active + texts(out@).to_set(),
                texts(self.active@).no_duplicates(),
            decreases self.bindings@.len() - i,
        {
            let ghost done = s0.bindings.take(i as int);
            assert(s0.bindings.take(i + 1).drop_last() =~= done);
            assert(s0.bindings.take(i + 1).last() == self.bindings@[i as int]@);
            proof {
                lemma_fired_sound(done, p, s0.active);
            }
            let b = &self.bindings[i];
            let held = keys_within(&b.keys, &self.pressed);
            assert(b@ == self.bindings@[i as int]@);
            if held && !has_text(&self.active, b.id.as_str()) {
                assert(b@.combination.subset_of(p));
                assert(!texts(self.active@).to_set().contains(b@.id));
                assert(!s0.active.contains(b@.id));
                assert(fired(s0.bindings.take(i + 1), p, s0.active) == fired(done, p, s0.active).push(
                    b.id@,
                ));
                assert(!texts(out@).contains(b.id@)) by {
                    if texts(out@).contains(b.id@) {
                        let x = choose|x: int| 0 <= x < texts(out@).len() && texts(out@)[x] == b.id@;
                        let j = choose|j: int|
                            0 <= j < done.len() && #[trigger] fired(done, p, s0.active)[x] == done[j].id
                                && done[j].combination.subset_of(p) && !s0.active.contains(done[j].id);
                        assert(s0.bindings[j].id == s0.bindings[i as int].id);
                    }
                };
                let ghost before_active = self.active@;
                let ghost before_out = out@;
                self.active.push(b.id.clone());
                out.push(b.id.clone());
                assert(texts(self.active@) =~= texts(before_active).push(b.id@));
                assert(texts(out@) =~= texts(before_out).push(b.id@));
                proof {
                    texts(before_active).lemma_push_to_set_commute(b.id@);
                    texts(before_out).lemma_push_to_set_commute(b.id@);
                }
                assert(texts(self.active@).to_set() =~= s0.active + texts(out@).to_set());
            } else {
                assert(held ==> (s0.active + texts(out@).to_set()).contains(b.id@));
                assert(held ==> s0.active.contains(b.id@)) by {
                    if held && !s0.active.contains(b.id@) {
                        let x = choose|x: int| 0 <= x < texts(out@).len() && texts(out@)[x] == b.id@;
                        let j = choose|j: int|
                            0 <= j < done.len() && #[trigger] fired(done, p, s0.active)[x] == done[j].id
                                && done[j].combination.subset_of(p) && !s0.active.contains(done[j].id);
                        assert(s0.bindings[j].id == s0.bindings[i as int].id);
                    }
                };
                assert(fired(s0.bindings.take(i + 1), p, s0.active) == fired(done, p, s0.active));
            }
            i = i + 1;
        }
        assert(s0.bindings.take(self.bindings@.len() as int) =~= s0.bindings);
        assert(self@.active =~= s0.press(k).active);
        out
    }

    /// A release of `k`: forgets the key, then keeps active only the ids
    /// whose combination is still held.
    pub fn key_release(&mut self, k: CanonicalKey)
        requires
            old(self).wf(),
        ensures
            final(self).wf(),
            final(self)@ == old(self)@.release(k),
    {
        let ghost s0 = self@;
        remove_key(&mut self.pressed, k);
        let ghost sat = satisfied_in(s0.bindings, self.pressed@.to_set());
        let mut kept: Vec<String> = Vec::new();
        let mut j: usize = 0;
        while j < self.active.len()
            invariant
                s0.bindings == binding_views(self.bindings@),
                sat == satisfied_in(s0.bindings, self.pressed@.to_set()),
                s0.active == texts(self.active@).to_set(),
                texts(self.active@).no_duplicates(),
                j <= self.active@.len(),
                texts(kept@).no_duplicates(),
                texts(kept@).to_set() == texts(self.active@).take(j as int).to_set().intersect(sat),
            decreases self.active@.len() - j,
        {
            let ghost all = texts(self.active@);
            assert(all.take(j + 1) =~= all.take(j as int).push(all[j as int]));
            proof {
                all.take(j as int).lemma_push_to_set_commute(all[j as int]);
            }
            assert(all[j as int] == self.active@[j as int]@);
            if is_satisfied(&self.bindings, &self.pressed, self.active[j].as_str()) {
                let ghost before = kept@;
                assert(!texts(before).contains(all[j as int])) by {
                    if texts(before).contains(all[j as int]) {
                        let m = choose|m: int| 0 <= m < texts(before).len() && texts(before)[m] == all[j as int];
                        assert(texts(before).to_set().contains(all[j as int]));
                        let n = choose|n: int| 0 <= n < j && all.take(j as int)[n] == all[j as int];
                        assert(all[n] == all[j as int]);
                    }
                };
                kept.push(self.active[j].clone());
                assert(texts(kept@) =~= texts(before).push(all[j as int]));
                proof {
                    texts(before).lemma_push_to_set_commute(all[j as int]);
                }
                assert(texts(kept@).to_set() =~= all.take(j + 1).to_set().intersect(sat));
            } else {
                assert(texts(kept@).to_set() =~= all.take(j + 1).to_set().intersect(sat));
            }
            j = j + 1;
        }
        assert(texts(self.active@).take(self.active@.len() as int) =~= texts(self.active@));
        self.active = kept;
        assert(self@.active =~= s0.release(k).active);
        assert(self@.pressed =~= s0.release(k).pressed);
        proof {
            lemma_release_inv(s0, k);
        }
    }

    /// One key transition from the key source; returns the ids that fired.
    pub fn on_key(&mut self, e: KeyEvent) -> (r: Vec<String>)
        requires
            old(self).wf(),
        ensures
            final(self).wf(),
            (final(self)@, texts(r@)) == old(self)@.step(e),
    {
        match e {
            KeyEvent::Press(k) => self.key_press(k),
            KeyEvent::Release(k) => {
                self.key_release(k);
                let r: Vec<String> = Vec::new();
                assert(texts(r@) =~= Seq::<Seq<char>>::empty());
                r
            },
        }
    }

    /// Registers a binding: one with the same id is replaced where it
    /// stands, else the binding goes last. If the new combination is not
    /// held, the id is no longer active.
    pub fn register_binding(&mut self, binding: HotkeyBinding)
        requires
            old(self).wf(),
            binding.wf(),
        ensures
            final(self).wf(),
            final(self)@ == old(self)@.register(binding@),
    {
        let ghost s0 = self@;
        proof {
            lemma_register_inv(s0, binding@);
        }
        if !keys_within(&binding.keys, &self.pressed) {
            remove_text(&mut self.active, binding.id.as_str());
        }
        assert(texts(self.active@).to_set() =~= s0.register(binding@).active);
        let ghost bv = binding@;
        match find_binding(&self.bindings, binding.id.as_str()) {
            Some(i) => {
                let ghost before = self.bindings@;
                self.bindings.set(i, binding);
                assert(binding_views(self.bindings@) =~= binding_views(before).update(i as int, bv));
            },
            None => {
                let ghost before = self.bindings@;
                self.bindings.push(binding);
                assert(binding_views(self.bindings@) =~= binding_views(before).push(bv));
            },
        }
        assert(self@ == s0.register(bv));
    }

    /// Parses `shortcut` and registers it under `id`. On a parse failure
    /// nothing changes and the error names the tokens that name no key.
    pub fn register_hotkey(&mut self, id: &str, shortcut: &str) -> (r: Result<(), ParseError>)
        requires
            old(self).wf(),
        ensures
            final(self).wf(),
            r is Ok <==> parses(shortcut@),
            match r {
                Ok(()) => final(self)@ == old(self)@.register(binding_for(id@, shortcut@)),
                Err(e) => final(self)@ == old(self)@ && names_unknown(e, shortcut_tokens(shortcut@)),
            },
    {
        match parse_shortcut(id, shortcut) {
            Ok(def) => {
                let binding = HotkeyBinding { id: def.id, shortcut: shortcut.to_owned(), keys: def.keys };
                assert(binding@ == binding_for(id@, shortcut@));
                self.register_binding(binding);
                Ok(())
            },
            Err(e) => Err(e),
        }
    }

    /// Registers each entry in turn; an entry that does not parse is skipped
    /// and does not stop the others. Returns the positions of those entries.
    pub fn register_batch(&mut self, hotkeys: &Vec<RegisterCommand>) -> (r: Vec<usize>)
        requires
            old(self).wf(),
        ensures
            final(self).wf(),
            final(self)@ == register_entries(old(self)@, entries(hotkeys@)),
            r@.map_values(|x: usize| x as int) == failed_entries(entries(hotkeys@)),
    {
        let ghost s0 = self@;
        let ghost es = entries(hotkeys@);
        let mut failed: Vec<usize> = Vec::new();
        let mut i: usize = 0;
        assert(es.take(0) =~= Seq::<(Seq<char>, Seq<char>)>::empty());
        assert(failed@.map_values(|x: usize| x as int) =~= Seq::<int>::empty());
        while i < hotkeys.len()
            invariant
                self.wf(),
                es == entries(hotkeys@),
                i <= hotkeys@.len(),
                self@ == register_entries(s0, es.take(i as int)),
                failed@.map_values(|x: usize| x as int) == failed_entries(es.take(i as int)),
            decreases hotkeys@.len() - i,
        {
            let entry = &hotkeys[i];
            assert(es.take(i + 1).drop_last() =~= es.take(i as int));
            assert(es.take(i + 1).last() == (entry.id@, entry.shortcut@));
            let ghost before = failed@;
            match self.register_hotkey(entry.id.as_str(), entry.shortcut.as_str()) {
                Ok(()) => {},
                Err(_) => {
                    failed.push(i);
                    assert(failed@.map_values(|x: usize| x as int) =~= before.map_values(
                        |x: usize| x as int,
                    ).push(i as int));
                },
            }
            i = i + 1;
        }
        assert(es.take(hotkeys@.len() as int) =~= es);
        failed
    }

    /// Removes the binding with this id; returns whether there was one.
    /// Removing an id that is not registered changes nothing.
    pub fn unregister_hotkey(&mut self, id: &str) -> (r: bool)
        requires
            old(self).wf(),
        ensures
            final(self).wf(),
            final(self)@ == old(self)@.unregister(id@),
            r == has_id(old(self)@.bindings, id@),
    {
        let ghost s0 = self@;
        proof {
            lemma_unregister_inv(s0, id@);
        }
        remove_text(&mut self.active, id);
        let r = match find_binding(&self.bindings, id) {
            Some(i) => {
                let ghost before = self.bindings@;
                self.bindings.remove(i);
                assert(binding_views(self.bindings@) =~= binding_views(before).remove(i as int));
                true
            },
            None => false,
        };
        assert(self@ == s0.unregister(id@));
        r
    }

    /// Removes every binding.
    pub fn unregister_all(&mut self)
        requires
            old(self).wf(),
        ensures
            final(self).wf(),
            final(self)@ == old(self)@.clear(),
    {
        let ghost s0 = self@;
        self.bindings.clear();
        self.active.clear();
        assert(binding_views(self.bindings@) =~= Seq::<Binding>::empty());
        assert(texts(self.active@).to_set() =~= Set::<Seq<char>>::empty());
        proof {
            lemma_clear_inv(s0);
        }
        assert(self@ == s0.clear());
    }

    /// A copy of the registry, in snapshot order.
    pub fn snapshot(&self) -> (r: Vec<HotkeyBinding>)
        requires
            self.wf(),
        ensures
            binding_views(r@) == self@.bindings,
            forall|i: int| 0 <= i < r@.len() ==> #[trigger] r@[i].wf(),
    {
        let mut r: Vec<HotkeyBinding> = Vec::new();
        let mut i: usize = 0;
        while i < self.bindings.len()
            invariant
                self.wf(),
                i <= self.bindings@.len(),
                binding_views(r@) == binding_views(self.bindings@).take(i as int),
                forall|j: int| 0 <= j < r@.len() ==> #[trigger] r@[j].wf(),
            decreases self.bindings@.len() - i,
        {
            let ghost before = r@;
            let b = self.bindings[i].duplicate();
            assert(self.bindings@[i as int].wf());
            r.push(b);
            assert(binding_views(r@) =~= binding_views(self.bindings@).take(i + 1)) by {
                assert(binding_views(r@) =~= binding_views(before).push(b@));
            };
            i = i + 1;
        }
        assert(binding_views(self.bindings@).take(self.bindings@.len() as int) =~= binding_views(self.bindings@));
        r
    }

    /// Whether `k` is held.
    pub fn is_pressed(&self, k: CanonicalKey) -> (r: bool)
        ensures
            r == self@.pressed.contains(k),
    {
        has_key(&self.pressed, k)
    }

    /// Whether `id` has fired and its combination is still held.
    pub fn is_active(&self, id: &str) -> (r: bool)
        ensures
            r == self@.active.contains(id@),
    {
        has_text(&self.active, id)
    }
}

} // verus!
