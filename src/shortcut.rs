use vstd::prelude::*;

use crate::keys::{
    has_key, key_for, keys_within, lower_of, lowercase, resolve_lowercase, CanonicalKey,
};

verus! {

/// A parsed shortcut: the id it was registered under and its combination,
/// each key listed once.
#[derive(Clone, Debug)]
pub struct HotkeyDef {
    pub id: String,
    pub keys: Vec<CanonicalKey>,
}

impl HotkeyDef {
    /// The combination as a set of keys.
    pub open spec fn combination(&self) -> Set<CanonicalKey> {
        self.keys@.to_set()
    }

    /// Each key is listed once and the combination is not empty.
    pub open spec fn wf(&self) -> bool {
        &&& self.keys@.no_duplicates()
        &&& self.keys@.len() > 0
    }
}

/// Two definitions are equal when their ids and their combinations are: the
/// order in which keys are listed does not matter.
impl PartialEq for HotkeyDef {
    fn eq(&self, other: &HotkeyDef) -> (r: bool) {
        let r = self.id == other.id && keys_within(&self.keys, &other.keys) && keys_within(
            &other.keys,
            &self.keys,
        );
        proof {
            if self.combination().subset_of(other.combination()) && other.combination().subset_of(
                self.combination(),
            ) {
                assert(self.combination() =~= other.combination());
            }
        }
        r
    }
}

impl vstd::std_specs::cmp::PartialEqSpecImpl for HotkeyDef {
    open spec fn obeys_eq_spec() -> bool {
        true
    }

    open spec fn eq_spec(&self, other: &HotkeyDef) -> bool {
        self.id@ == other.id@ && self.combination() == other.combination()
    }
}

impl Eq for HotkeyDef {
}

/// Why a shortcut could not be parsed.
#[derive(Clone, Debug)]
pub enum ParseError {
    /// Tokens that name no key, in the order they appear.
    UnknownKeys { tokens: Vec<String> },
    /// No token at all was given.
    EmptyCombination,
}

/// Unicode's `White_Space` characters, the ones that trimming removes.
pub open spec fn is_white_space(c: char) -> bool {
    let u = c as u32;
    ||| 0x9 <= u <= 0xd
    ||| u == 0x20
    ||| u == 0x85
    ||| u == 0xa0
    ||| u == 0x1680
    ||| 0x2000 <= u <= 0x200a
    ||| u == 0x2028
    ||| u == 0x2029
    ||| u == 0x202f
    ||| u == 0x205f
    ||| u == 0x3000
}

/// `s` without its leading white space.
pub open spec fn trim_start(s: Seq<char>) -> Seq<char>
    decreases s.len(),
{
    if s.len() > 0 && is_white_space(s[0]) {
        trim_start(s.drop_first())
    } else {
        s
    }
}

/// `s` without its trailing white space.
pub open spec fn trim_end(s: Seq<char>) -> Seq<char>
    decreases s.len(),
{
    if s.len() > 0 && is_white_space(s.last()) {
        trim_end(s.drop_last())
    } else {
        s
    }
}

/// `s` without white space at either end.
pub open spec fn trim_ws(s: Seq<char>) -> Seq<char> {
    trim_end(trim_start(s))
}

/// The pieces of `s` between `+` signs; there is always at least one.
pub open spec fn split_plus(s: Seq<char>) -> Seq<Seq<char>>
    decreases s.len(),
{
    if s.len() == 0 {
        seq![Seq::empty()]
    } else {
        let prev = split_plus(s.drop_last());
        if s.last() == '+' {
            prev.push(Seq::empty())
        } else {
            prev.update(prev.len() - 1, prev.last().push(s.last()))
        }
    }
}

/// The tokens of a shortcut as the resolver sees them: split on `+`,
/// trimmed, lowercased.
pub open spec fn shortcut_tokens(s: Seq<char>) -> Seq<Seq<char>> {
    split_plus(s).map_values(|t: Seq<char>| lower_of(trim_ws(t)))
}

/// Every token names a key.
pub open spec fn all_known(toks: Seq<Seq<char>>) -> bool {
    forall|i: int| 0 <= i < toks.len() ==> key_for(#[trigger] toks[i]).is_some()
}

/// The tokens that name no key, in order.
pub open spec fn unknown_tokens(toks: Seq<Seq<char>>) -> Seq<Seq<char>> {
    toks.filter(|t: Seq<char>| key_for(t).is_none())
}

/// The keys that the tokens name.
pub open spec fn combination_of(toks: Seq<Seq<char>>) -> Set<CanonicalKey> {
    Set::new(|k: CanonicalKey| exists|i: int| 0 <= i < toks.len() && key_for(toks[i]) == Some(k))
}

/// The characters of each string.
pub open spec fn texts(v: Seq<String>) -> Seq<Seq<char>> {
    v.map_values(|t: String| t@)
}

/// What parsing the (lowercase) tokens `toks` under `id` gives: all or nothing.
pub open spec fn parsed_as(id: Seq<char>, toks: Seq<Seq<char>>, r: Result<HotkeyDef, ParseError>) -> bool {
    match r {
        Ok(d) => {
            &&& toks.len() > 0
            &&& all_known(toks)
            &&& d.id@ == id
            &&& d.wf()
            &&& d.combination() == combination_of(toks)
        },
        Err(ParseError::EmptyCombination) => toks.len() == 0,
        Err(ParseError::UnknownKeys { tokens }) => {
            &&& toks.len() > 0
            &&& !all_known(toks)
            &&& texts(tokens@) == unknown_tokens(toks)
        },
    }
}

proof fn lemma_split_plus_nonempty(s: Seq<char>)
    ensures
        split_plus(s).len() >= 1,
    decreases s.len(),
{
    if s.len() > 0 {
        lemma_split_plus_nonempty(s.drop_last());
    }
}

/// Splits `s` on every `+`.
fn split_on_plus(s: &str) -> (r: Vec<String>)
    ensures
        texts(r@) == split_plus(s@),
{
    let n = s.unicode_len();
    let mut parts: Vec<String> = Vec::new();
    let mut start: usize = 0;
    let mut i: usize = 0;
    assert(s@.subrange(0, 0) =~= Seq::<char>::empty());
    assert(texts(parts@).push(s@.subrange(0, 0)) =~= seq![Seq::<char>::empty()]);
    while i < n
        invariant
            n == s@.len(),
            start <= i <= n,
            split_plus(s@.subrange(0, i as int)) == texts(parts@).push(s@.subrange(start as int, i as int)),
        decreases n - i,
    {
        let c = s.get_char(i);
        let ghost prefix = s@.subrange(0, i + 1);
        assert(prefix.drop_last() =~= s@.subrange(0, i as int));
        proof {
            lemma_split_plus_nonempty(s@.subrange(0, i as int));
        }
        if c == '+' {
            let piece = s.substring_char(start, i).to_owned();
            let ghost before = parts@;
            parts.push(piece);
            assert(texts(parts@) =~= texts(before).push(piece@));
            start = i + 1;
            assert(s@.subrange(start as int, i + 1) =~= Seq::<char>::empty());
        } else {
            assert(s@.subrange(start as int, i + 1) =~= s@.subrange(start as int, i as int).push(c));
            assert(split_plus(prefix) =~= texts(parts@).push(s@.subrange(start as int, i + 1)));
        }
        i = i + 1;
    }
    assert(s@.subrange(0, n as int) =~= s@);
    let last = s.substring_char(start, n).to_owned();
    parts.push(last);
    assert(texts(parts@) =~= split_plus(s@));
    parts
}

/// Whether `c` is white space (see `is_white_space`).
fn white_space(c: char) -> (r: bool)
    ensures
        r == is_white_space(c),
{
    let u = c as u32;
    (0x9 <= u && u <= 0xd) || u == 0x20 || u == 0x85 || u == 0xa0 || u == 0x1680 || (0x2000
        <= u && u <= 0x200a) || u == 0x2028 || u == 0x2029 || u == 0x202f || u == 0x205f || u
        == 0x3000
}

/// `s` without white space at either end.
pub fn trim(s: &str) -> (r: &str)
    ensures
        r@ == trim_ws(s@),
{
    let n = s.unicode_len();
    let mut a: usize = 0;
    assert(s@.subrange(0, n as int) =~= s@);
    while a < n && white_space(s.get_char(a))
        invariant
            n == s@.len(),
            a <= n,
            trim_start(s@) == trim_start(s@.subrange(a as int, n as int)),
        decreases n - a,
    {
        assert(s@.subrange(a as int, n as int).drop_first() =~= s@.subrange(a + 1, n as int));
        a = a + 1;
    }
    let ghost head = s@.subrange(a as int, n as int);
    assert(trim_start(s@) == head);
    let mut b: usize = n;
    while b > a && white_space(s.get_char(b - 1))
        invariant
            n == s@.len(),
            a <= b <= n,
            head == s@.subrange(a as int, n as int),
            trim_end(head) == trim_end(s@.subrange(a as int, b as int)),
        decreases b - a,
    {
        assert(s@.subrange(a as int, b as int).drop_last() =~= s@.subrange(a as int, b - 1));
        b = b - 1;
    }
    s.substring_char(a, b)
}

/// Parses tokens that are already trimmed and lowercase into the combination
/// of `id`. Parsing is all or nothing: every token must name a key, and
/// naming a key twice names it once.
pub fn parse_tokens(id: &str, tokens: &Vec<String>) -> (r: Result<HotkeyDef, ParseError>)
    ensures
        parsed_as(id@, texts(tokens@), r),
{
    let ghost toks = texts(tokens@);
    if tokens.len() == 0 {
        return Err(ParseError::EmptyCombination);
    }
    let mut keys: Vec<CanonicalKey> = Vec::new();
    let mut unknown: Vec<String> = Vec::new();
    let mut i: usize = 0;
    while i < tokens.len()
        invariant
            toks == texts(tokens@),
            i <= tokens@.len(),
            keys@.no_duplicates(),
            keys@.to_set() == combination_of(toks.take(i as int)),
            texts(unknown@) == unknown_tokens(toks.take(i as int)),
            (unknown@.len() == 0) == all_known(toks.take(i as int)),
        decreases tokens@.len() - i,
    {
        let ghost done = toks.take(i as int);
        let ghost next = toks.take(i + 1);
        assert(next =~= done.push(toks[i as int]));
        proof {
            done.lemma_filter_push(toks[i as int], |t: Seq<char>| key_for(t).is_none());
        }
        match resolve_lowercase(tokens[i].as_str()) {
            Some(k) => {
                let ghost before = keys@;
                if !has_key(&keys, k) {
                    keys.push(k);
                    proof {
                        before.lemma_push_to_set_commute(k);
                    }
                }
                assert(keys@.to_set() =~= combination_of(next)) by {
                    assert forall|x: CanonicalKey| keys@.to_set().contains(x) implies combination_of(next).contains(x) by {
                        if x != k {
                            let j = choose|j: int| 0 <= j < done.len() && key_for(done[j]) == Some(x);
                            assert(next[j] == done[j]);
                        } else {
                            assert(key_for(next[i as int]) == Some(k));
                        }
                    };
                    assert forall|x: CanonicalKey| combination_of(next).contains(x) implies keys@.to_set().contains(x) by {
                        let j = choose|j: int| 0 <= j < next.len() && key_for(next[j]) == Some(x);
                        if j < i {
                            assert(done[j] == next[j]);
                            assert(combination_of(done).contains(x));
                        }
                    };
                };
                assert(texts(unknown@) == unknown_tokens(next));
                assert(all_known(next) == all_known(done)) by {
                    if all_known(done) {
                        assert forall|j: int| 0 <= j < next.len() implies key_for(#[trigger] next[j]).is_some() by {
                            if j < i {
                                assert(next[j] == done[j]);
                            }
                        };
                    }
                    if all_known(next) {
                        assert forall|j: int| 0 <= j < done.len() implies key_for(#[trigger] done[j]).is_some() by {
                            assert(next[j] == done[j]);
                        };
                    }
                };
            },
            None => {
                let t = tokens[i].clone();
                let ghost before = unknown@;
                unknown.push(t);
                assert(texts(unknown@) =~= texts(before).push(t@));
                assert(keys@.to_set() =~= combination_of(next)) by {
                    assert forall|x: CanonicalKey| keys@.to_set().contains(x) implies combination_of(next).contains(x) by {
                        let j = choose|j: int| 0 <= j < done.len() && key_for(done[j]) == Some(x);
                        assert(next[j] == done[j]);
                    };
                    assert forall|x: CanonicalKey| combination_of(next).contains(x) implies keys@.to_set().contains(x) by {
                        let j = choose|j: int| 0 <= j < next.len() && key_for(next[j]) == Some(x);
                        assert(done[j] == next[j]);
                        assert(combination_of(done).contains(x));
                    };
                };
                assert(!all_known(next)) by {
                    assert(key_for(next[i as int]).is_none());
                };
            },
        }
        i = i + 1;
    }
    assert(toks.take(tokens@.len() as int) =~= toks);
    if unknown.len() == 0 {
        assert(keys@.len() > 0) by {
            let k0 = key_for(toks[0]).unwrap();
            assert(combination_of(toks).contains(k0));
            assert(keys@.contains(k0));
        };
        Ok(HotkeyDef { id: id.to_owned(), keys })
    } else {
        Err(ParseError::UnknownKeys { tokens: unknown })
    }
}

/// Parses a shortcut such as `"Control+Alt+T"` into the combination of `id`:
/// split on `+`, each token trimmed and resolved case-insensitively. Any
/// token that names no key fails the whole parse; a shortcut always has at
/// least one token, so an empty combination never comes out.
pub fn parse_shortcut(id: &str, shortcut: &str) -> (r: Result<HotkeyDef, ParseError>)
    ensures
        parsed_as(id@, shortcut_tokens(shortcut@), r),
        !(r matches Err(ParseError::EmptyCombination)),
{
    let parts = split_on_plus(shortcut);
    let mut lowered: Vec<String> = Vec::new();
    let mut i: usize = 0;
    while i < parts.len()
        invariant
            i <= parts@.len(),
            texts(parts@) == split_plus(shortcut@),
            texts(lowered@) == split_plus(shortcut@).take(i as int).map_values(
                |t: Seq<char>| lower_of(trim_ws(t)),
            ),
        decreases parts@.len() - i,
    {
        let t = lowercase(trim(parts[i].as_str()));
        let ghost before = lowered@;
        lowered.push(t);
        assert(texts(lowered@) =~= split_plus(shortcut@).take(i + 1).map_values(
            |t: Seq<char>| lower_of(trim_ws(t)),
        )) by {
            assert(texts(lowered@) =~= texts(before).push(t@));
        };
        i = i + 1;
    }
    assert(split_plus(shortcut@).take(parts@.len() as int) =~= split_plus(shortcut@));
    proof {
        lemma_split_plus_nonempty(shortcut@);
    }
    parse_tokens(id, &lowered)
}

} // verus!
