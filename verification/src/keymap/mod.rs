//! Keymaps: default bindings declared in code, user overrides merged with
//! warnings in place of errors, and lookup of the action bound to a key.
pub mod key;
pub mod overrides;
pub mod model;
pub mod template;

use vstd::prelude::*;
use vstd::laws_eq::obeys_concrete_eq;
use crate::keymap::model::{WarningView, Group, spec_merge, apply_overrides, apply_override, resolve, pre_ok, occurrences, keyed, groups_of, group_insert, group_names, conflict_warnings, in_conflict, round_revert, reverts_any, revert, find_name, lemma_first_index, lemma_round_decreases, lemma_merge_ok};
use crate::keymap::overrides::{KeymapOverrides, KeyList};
use crate::keymap::key::{KeyCombo, Code, key_from_parts, spec_crokey_parts, spec_key_name_with, spec_debug_quote, canonical, distinct_keys, spec_parse_keys, strs_view, strings_view, spec_key_name, parse_keys, key_eq, key_name, contains_key, canonicalize, lemma_parse_keys_ok};

verus! {

/// One binding table entry, as the contracts see it.
pub ghost struct EntryView<A> {
    pub action: A,
    pub name: Seq<char>,
    pub default_keys: Seq<KeyCombo>,
    pub keys: Seq<KeyCombo>,
    pub overridden: bool,
    pub desc: Option<Seq<char>>,
}

struct Entry<A> {
    action: A,
    name: String,
    default_keys: Vec<KeyCombo>,
    keys: Vec<KeyCombo>,
    overridden: bool,
    desc: Option<String>,
}

pub open spec fn opt_str_view(o: Option<String>) -> Option<Seq<char>> {
    match o {
        Some(s) => Some(s@),
        None => None,
    }
}

impl<A> View for Entry<A> {
    type V = EntryView<A>;

    closed spec fn view(&self) -> EntryView<A> {
        EntryView {
            action: self.action,
            name: self.name@,
            default_keys: self.default_keys@,
            keys: self.keys@,
            overridden: self.overridden,
            desc: opt_str_view(self.desc),
        }
    }
}


/// The entries of a table, by position.
spec fn entries_view<A>(v: Seq<Entry<A>>) -> Seq<EntryView<A>> {
    v.map_values(|e: Entry<A>| e@)
}

/// No action is bound twice.
pub open spec fn actions_distinct<A>(es: Seq<EntryView<A>>) -> bool {
    forall|i: int, j: int| 0 <= i < j < es.len() ==> es[i].action != es[j].action
}

/// An entry's own consistency: no repeated key, at least one default key,
/// every key canonical, and an entry that is not overridden has its defaults.
pub open spec fn entry_ok<A>(e: EntryView<A>) -> bool {
    &&& distinct_keys(e.keys)
    &&& distinct_keys(e.default_keys)
    &&& e.default_keys.len() > 0
    &&& !e.overridden ==> e.keys == e.default_keys
    &&& forall|k: KeyCombo| e.keys.contains(k) ==> k == canonical(k)
    &&& forall|k: KeyCombo| e.default_keys.contains(k) ==> k == canonical(k)
}

/// No default key belongs to two entries.
pub open spec fn defaults_disjoint<A>(es: Seq<EntryView<A>>) -> bool {
    forall|i: int, j: int, k: KeyCombo|
        0 <= i < es.len() && 0 <= j < es.len() && i != j && #[trigger] es[i].default_keys.contains(k)
            ==> !#[trigger] es[j].default_keys.contains(k)
}

/// No current key belongs to two entries: each key selects at most one action.
pub open spec fn keys_disjoint<A>(es: Seq<EntryView<A>>) -> bool {
    forall|i: int, j: int, k: KeyCombo|
        0 <= i < es.len() && 0 <= j < es.len() && i != j && #[trigger] es[i].keys.contains(k)
            ==> !#[trigger] es[j].keys.contains(k)
}

/// A default table under construction.
pub open spec fn builder_ok<A>(es: Seq<EntryView<A>>) -> bool {
    &&& actions_distinct(es)
    &&& forall|i: int| 0 <= i < es.len() ==> entry_ok(#[trigger] es[i]) && !es[i].overridden
}

/// A finished keymap.
pub open spec fn keymap_ok<A>(es: Seq<EntryView<A>>) -> bool {
    &&& actions_distinct(es)
    &&& forall|i: int| 0 <= i < es.len() ==> entry_ok(#[trigger] es[i])
    &&& defaults_disjoint(es)
    &&& keys_disjoint(es)
}

/// Whether some entry binds `action`.
pub open spec fn is_bound<A>(es: Seq<EntryView<A>>, action: A) -> bool {
    exists|i: int| 0 <= i < es.len() && es[i].action == action
}

/// The key bindings of a table, entry by entry, each key paired with its
/// entry's action.
pub open spec fn bindings<A>(es: Seq<EntryView<A>>) -> Seq<(KeyCombo, A)>
    decreases es.len(),
{
    if es.len() == 0 {
        Seq::empty()
    } else {
        bindings(es.drop_last()) + es.last().keys.map_values(|k: KeyCombo| (k, es.last().action))
    }
}

/// The action that `key` selects: that of the entry whose current keys hold it.
pub open spec fn spec_action_for<A>(es: Seq<EntryView<A>>, key: KeyCombo) -> Option<A> {
    if exists|i: int| 0 <= i < es.len() && es[i].keys.contains(key) {
        Some(es[choose|i: int| 0 <= i < es.len() && es[i].keys.contains(key)].action)
    } else {
        None
    }
}

/// The current keys of `action` (empty when it is not bound).
pub open spec fn spec_keys<A>(es: Seq<EntryView<A>>, action: A) -> Seq<KeyCombo> {
    if is_bound(es, action) {
        es[choose|i: int| 0 <= i < es.len() && es[i].action == action].keys
    } else {
        Seq::empty()
    }
}

/// The description of `action`, if it is bound and has one.
pub open spec fn spec_desc<A>(es: Seq<EntryView<A>>, action: A) -> Option<Seq<char>> {
    if is_bound(es, action) {
        es[choose|i: int| 0 <= i < es.len() && es[i].action == action].desc
    } else {
        None
    }
}

proof fn lemma_bindings_sound<A>(es: Seq<EntryView<A>>, j: int)
    requires
        0 <= j < bindings(es).len(),
    ensures
        exists|i: int|
            0 <= i < es.len() && es[i].keys.contains(#[trigger] bindings(es)[j].0) && bindings(es)[j].1
                == es[i].action,
    decreases es.len(),
{
    let prev = bindings(es.drop_last());
    if j < prev.len() {
        lemma_bindings_sound(es.drop_last(), j);
        let i = choose|i: int|
            0 <= i < es.drop_last().len() && es.drop_last()[i].keys.contains(#[trigger] prev[j].0)
                && prev[j].1 == es.drop_last()[i].action;
        assert(bindings(es)[j] == prev[j]);
        assert(es[i] == es.drop_last()[i]);
    } else {
        let t = j - prev.len();
        assert(bindings(es)[j] == (es.last().keys[t], es.last().action));
        assert(es.last().keys.contains(es.last().keys[t]));
        assert(es[es.len() - 1] == es.last());
    }
}

proof fn lemma_bindings_complete<A>(es: Seq<EntryView<A>>, i: int, k: KeyCombo)
    requires
        0 <= i < es.len(),
        es[i].keys.contains(k),
    ensures
        exists|j: int| 0 <= j < bindings(es).len() && bindings(es)[j] == (k, es[i].action),
    decreases es.len(),
{
    let prev = bindings(es.drop_last());
    if i < es.len() - 1 {
        assert(es.drop_last()[i] == es[i]);
        lemma_bindings_complete(es.drop_last(), i, k);
        let j = choose|j: int| 0 <= j < prev.len() && prev[j] == (k, es[i].action);
        assert(bindings(es)[j] == prev[j]);
    } else {
        let t = choose|t: int| 0 <= t < es[i].keys.len() && es[i].keys[t] == k;
        assert(bindings(es)[prev.len() + t] == (k, es[i].action));
    }
}

/// Equality of actions, through their `PartialEq`.
fn action_eq<A: PartialEq>(a: &A, b: &A) -> (r: bool)
    requires
        obeys_concrete_eq::<A>(),
    ensures
        r == (*a == *b),
{
    proof {
        reveal(obeys_concrete_eq);
    }
    *a == *b
}

/// A copy of a key list.
fn copy_keys(v: &Vec<KeyCombo>) -> (r: Vec<KeyCombo>)
    ensures
        r@ == v@,
{
    let mut out: Vec<KeyCombo> = Vec::new();
    let mut i: usize = 0;
    while i < v.len()
        invariant
            i <= v.len(),
            out@ == v@.take(i as int),
        decreases v.len() - i,
    {
        out.push(v[i]);
        assert(out@ =~= v@.take(i + 1));
        i = i + 1;
    }
    assert(v@.take(v.len() as int) =~= v@);
    out
}

/// Builder for a `Keymap`: the default bindings, declared in code.
pub struct KeymapBuilder<A: PartialEq> {
    entries: Vec<Entry<A>>,
}

/// One binding table for one scope, with its lookup from key to action.
pub struct Keymap<A: PartialEq> {
    entries: Vec<Entry<A>>,
    lookup: Vec<(KeyCombo, A)>,
}

/// A binding table while overrides are merged into it: between two steps
/// it need not be consistent, and it has no lookup.
struct Table<A> {
    entries: Vec<Entry<A>>,
}

impl<A: PartialEq> KeymapBuilder<A> {
    pub closed spec fn view(&self) -> Seq<EntryView<A>> {
        entries_view(self.entries@)
    }

    /// Every builder holds a table under construction (see `builder_ok`).
    #[verifier::type_invariant]
    spec fn wf(&self) -> bool {
        obeys_concrete_eq::<A>() && builder_ok(self@)
    }
}

impl<A: Copy + PartialEq> KeymapBuilder<A> {
    /// The position of the entry binding `action`, if any.
    fn position(&self, action: &A) -> (r: Option<usize>)
        requires
            self.wf(),
        ensures
            r matches Some(i) ==> i < self@.len() && self@[i as int].action == *action,
            r is None ==> !is_bound(self@, *action),
    {
        let mut i: usize = 0;
        while i < self.entries.len()
            invariant
                self.wf(),
                i <= self.entries.len(),
                forall|j: int| 0 <= j < i ==> self@[j].action != *action,
            decreases self.entries.len() - i,
        {
            if action_eq(&self.entries[i].action, action) {
                return Some(i);
            }
            i = i + 1;
        }
        None
    }

    /// Whether `action` is already bound.
    pub fn has_action(&self, action: A) -> (r: bool)
        ensures
            r == is_bound(self@, action),
    {
        proof {
            use_type_invariant(self);
        }
        self.position(&action).is_some()
    }

    /// Declares the default keys of `action`, whose config name is `name`.
    /// Fails, handing the builder back unchanged, when `action` is already
    /// bound, a key string does not parse (or is a multi-key chord), or the
    /// list is empty. Repeated keys are kept once.
    pub fn try_bind(self, action: A, name: &str, keys: &[&str]) -> (r: Result<Self, Self>)
        ensures
            match r {
                Ok(b) => {
                    &&& !is_bound(self@, action)
                    &&& spec_parse_keys(strs_view(keys@)) matches Ok(p)
                    &&& p.len() > 0
                    &&& b@ == self@.push(
                        EntryView {
                            action,
                            name: name@,
                            default_keys: p,
                            keys: p,
                            overridden: false,
                            desc: None,
                        },
                    )
                },
                Err(b) => {
                    &&& b@ == self@
                    &&& (is_bound(self@, action) || !(spec_parse_keys(strs_view(keys@)) matches Ok(p)
                        && p.len() > 0))
                },
            },
    {
        proof {
            use_type_invariant(&self);
        }
        if self.position(&action).is_some() {
            return Err(self);
        }
        let mut raws: Vec<String> = Vec::new();
        let mut i: usize = 0;
        while i < keys.len()
            invariant
                i <= keys.len(),
                keys.len() == keys@.len(),
                raws@.len() == i,
                strings_view(raws@) == strs_view(keys@).take(i as int),
            decreases keys.len() - i,
        {
            let ghost prev = raws@;
            let owned = String::from_str(keys[i]);
            assert(owned@ == keys@[i as int]@);
            raws.push(owned);
            assert(raws@ == prev.push(owned));
            assert forall|j: int| 0 <= j < i + 1 implies #[trigger] strings_view(raws@)[j] == strs_view(
                keys@,
            ).take(i + 1)[j] by {
                if j < i {
                    assert(strings_view(prev)[j] == strs_view(keys@).take(i as int)[j]);
                }
            }
            assert(strings_view(raws@) =~= strs_view(keys@).take(i + 1));
            i = i + 1;
        }
        assert(strs_view(keys@).take(keys.len() as int) =~= strs_view(keys@));
        let parsed = match parse_keys(&raws) {
            Ok(p) => p,
            Err(_) => return Err(self),
        };
        if parsed.len() == 0 {
            return Err(self);
        }
        proof {
            lemma_parse_keys_ok(strings_view(raws@));
        }
        let defaults = copy_keys(&parsed);
        let ghost es = self@;
        let KeymapBuilder { entries } = self;
        let mut entries = entries;
        let entry = Entry {
            action,
            name: String::from_str(name),
            default_keys: defaults,
            keys: parsed,
            overridden: false,
            desc: None,
        };
        entries.push(entry);
        assert(entries_view(entries@) =~= es.push(entry@));
        assert(builder_ok(entries_view(entries@)));
        Ok(KeymapBuilder { entries })
    }

    /// Declares the default keys of `action` (see `try_bind`); the caller
    /// guarantees that the declaration is valid.
    pub fn bind(self, action: A, name: &str, keys: &[&str]) -> (r: Self)
        requires
            !is_bound(self@, action),
            spec_parse_keys(strs_view(keys@)) matches Ok(p) && p.len() > 0,
        ensures
            r@ == self@.push(
                EntryView {
                    action,
                    name: name@,
                    default_keys: spec_parse_keys(strs_view(keys@))->Ok_0,
                    keys: spec_parse_keys(strs_view(keys@))->Ok_0,
                    overridden: false,
                    desc: None,
                },
            ),
    {
        match self.try_bind(action, name, keys) {
            Ok(b) => b,
            Err(b) => b,
        }
    }

    /// Attaches a description to `action`, or hands the builder back
    /// unchanged when `action` is not bound yet.
    pub fn try_desc(self, action: A, text: &str) -> (r: Result<Self, Self>)
        ensures
            r is Ok <==> is_bound(self@, action),
            r matches Ok(b) ==> exists|i: int|
                0 <= i < self@.len() && self@[i].action == action && b@ == self@.update(
                    i,
                    EntryView { desc: Some(text@), ..self@[i] },
                ),
            r matches Err(b) ==> b@ == self@,
    {
        proof {
            use_type_invariant(&self);
        }
        if self.position(&action).is_none() {
            return Err(self);
        }
        Ok(self.desc(action, text))
    }

    /// Attaches a description to the already bound `action`.
    pub fn desc(self, action: A, text: &str) -> (r: Self)
        requires
            is_bound(self@, action),
        ensures
            exists|i: int|
                0 <= i < self@.len() && self@[i].action == action && r@ == self@.update(
                    i,
                    EntryView { desc: Some(text@), ..self@[i] },
                ),
    {
        proof {
            use_type_invariant(&self);
        }
        let i = match self.position(&action) {
            Some(i) => i,
            None => return self,
        };
        let ghost es = self@;
        let KeymapBuilder { entries } = self;
        let mut entries = entries;
        let mut e = entries.remove(i);
        e.desc = Some(String::from_str(text));
        entries.insert(i, e);
        assert(entries_view(entries@) =~= es.update(i as int, EntryView { desc: Some(text@), ..es[i as int] }));
        KeymapBuilder { entries }
    }

    /// Finishes the table, or reports a default key declared for two actions:
    /// the first such key in declaration order, with the config names of the
    /// earlier action and of the later one.
    pub fn try_build(self) -> (r: Result<Keymap<A>, (KeyCombo, String, String)>)
        ensures
            r is Ok <==> defaults_disjoint(self@),
            r matches Ok(km) ==> keymap_ok(km@) && km@ == self@,
            r matches Err((k, a, b)) ==> exists|i: int, j: int|
                0 <= i < j < self@.len() && self@[i].default_keys.contains(k) && self@[j].default_keys.contains(k)
                    && self@[i].name == a@ && self@[j].name == b@,
    {
        proof {
            use_type_invariant(&self);
        }
        let ghost es = self@;
        let mut j: usize = 0;
        while j < self.entries.len()
            invariant
                es == self@,
                self.wf(),
                j <= self.entries.len(),
                forall|a: int, b: int, k: KeyCombo|
                    0 <= a < b < j && #[trigger] es[a].default_keys.contains(k) ==> !#[trigger] es[b].default_keys.contains(k),
            decreases self.entries.len() - j,
        {
            let keys = &self.entries[j].keys;
            proof {
                assert(entry_ok(es[j as int]));
                assert(keys@ == es[j as int].default_keys);
            }
            let mut x: usize = 0;
            while x < keys.len()
                invariant
                    es == self@,
                    self.wf(),
                    j < self.entries.len(),
                    keys@ == es[j as int].default_keys,
                    x <= keys.len(),
                    forall|a: int, y: int| 0 <= a < j && 0 <= y < x ==> !#[trigger] es[a].default_keys.contains(#[trigger] keys@[y]),
                decreases keys.len() - x,
            {
                let k = keys[x];
                let mut i: usize = 0;
                while i < j
                    invariant
                        es == self@,
                        self.wf(),
                        j < self.entries.len(),
                        i <= j,
                        k == keys@[x as int],
                        keys@ == es[j as int].default_keys,
                        x < keys.len(),
                        forall|a: int| 0 <= a < i ==> !#[trigger] es[a].default_keys.contains(k),
                    decreases j - i,
                {
                    let other = &self.entries[i];
                    proof {
                        assert(entry_ok(es[i as int]));
                    }
                    if contains_key(&other.default_keys, &k) {
                        let a = other.name.clone();
                        let b = self.entries[j].name.clone();
                        proof {
                            assert(es[j as int].default_keys.contains(k));
                        }
                        return Err((k, a, b));
                    }
                    i = i + 1;
                }
                x = x + 1;
            }
            proof {
                assert forall|a: int, b: int, k: KeyCombo|
                    0 <= a < b < j + 1 && #[trigger] es[a].default_keys.contains(k) implies !#[trigger] es[b].default_keys.contains(k) by {
                    if b == j && es[b].default_keys.contains(k) {
                        let y = choose|y: int| 0 <= y < keys@.len() && keys@[y] == k;
                        assert(!es[a].default_keys.contains(keys@[y]));
                    }
                }
            }
            j = j + 1;
        }
        proof {
            assert forall|a: int, b: int, k: KeyCombo|
                0 <= a < es.len() && 0 <= b < es.len() && a != b && #[trigger] es[a].default_keys.contains(k) implies !#[trigger] es[b].default_keys.contains(k) by {
                if a > b && es[b].default_keys.contains(k) {
                    assert(!es[a].default_keys.contains(k));
                }
            }
        }
        Ok(self.build())
    }

    /// Finishes the table; the caller guarantees that no default key is
    /// declared for two actions.
    pub fn build(self) -> (r: Keymap<A>)
        requires
            defaults_disjoint(self@),
        ensures
            keymap_ok(r@),
            r@ == self@,
    {
        proof {
            use_type_invariant(&self);
        }
        let ghost es = self@;
        let KeymapBuilder { entries } = self;
        let lookup = lookup_of(&entries);
        assert(keymap_ok(es));
        Keymap { entries, lookup }
    }
}


/// The action a crokey combination with these parts selects: the lookup of
/// its key (see `key_from_parts`), none for a chord.
pub open spec fn action_of_parts<A>(es: Seq<EntryView<A>>, code: Code, count: usize, modifiers: u8) -> Option<A> {
    match key_from_parts(code, count, modifiers) {
        Some(k) => spec_action_for(es, k),
        None => None,
    }
}

/// Dispatch of a crokey combination matches the key lists: in a consistent
/// keymap the combination selects `action` exactly when it makes a single
/// key that is one of `action`'s keys; a chord selects nothing.
pub proof fn law_parts_dispatch<A>(es: Seq<EntryView<A>>, code: Code, count: usize, modifiers: u8, action: A)
    requires
        keymap_ok(es),
    ensures
        action_of_parts(es, code, count, modifiers) == Some(action) <==> (key_from_parts(code, count, modifiers) matches Some(k)
            && spec_keys(es, action).contains(k)),
        key_from_parts(code, count, modifiers) is None ==> action_of_parts(es, code, count, modifiers) is None,
{
    if let Some(k) = key_from_parts(code, count, modifiers) {
        crate::keymap::model::law_dispatch_matches_keys(es, k, action);
    }
}

impl<A: PartialEq> Keymap<A> {
    pub closed spec fn view(&self) -> Seq<EntryView<A>> {
        entries_view(self.entries@)
    }

    /// Every keymap is consistent (see `keymap_ok`), and its lookup lists
    /// the bindings of its entries.
    #[verifier::type_invariant]
    spec fn wf(&self) -> bool {
        &&& obeys_concrete_eq::<A>()
        &&& keymap_ok(self@)
        &&& self.lookup@ == bindings(self@)
    }
}

/// The key → action lookup of a table: its bindings, entry by entry.
fn lookup_of<A: Copy>(entries: &Vec<Entry<A>>) -> (r: Vec<(KeyCombo, A)>)
    ensures
        r@ == bindings(entries_view(entries@)),
{
    let ghost es = entries_view(entries@);
    let mut lookup: Vec<(KeyCombo, A)> = Vec::new();
    let mut i: usize = 0;
    while i < entries.len()
        invariant
            i <= entries.len(),
            es == entries_view(entries@),
            lookup@ == bindings(es.take(i as int)),
        decreases entries.len() - i,
    {
        let e = &entries[i];
        let mut j: usize = 0;
        while j < e.keys.len()
            invariant
                i < entries.len(),
                es == entries_view(entries@),
                e == &entries[i as int],
                j <= e.keys.len(),
                lookup@ == bindings(es.take(i as int)) + es[i as int].keys.take(j as int).map_values(
                    |k: KeyCombo| (k, es[i as int].action),
                ),
            decreases e.keys.len() - j,
        {
            lookup.push((e.keys[j], e.action));
            assert(es[i as int].keys.take(j + 1) =~= es[i as int].keys.take(j as int).push(e.keys@[j as int]));
            assert(lookup@ =~= bindings(es.take(i as int)) + es[i as int].keys.take(j + 1).map_values(
                |k: KeyCombo| (k, es[i as int].action),
            ));
            j = j + 1;
        }
        assert(es.take(i + 1).drop_last() =~= es.take(i as int));
        assert(es[i as int].keys.take(j as int) =~= es[i as int].keys);
        assert(es.take(i + 1).last() == es[i as int]);
        i = i + 1;
    }
    assert(es.take(entries.len() as int) =~= es);
    lookup
}

impl<A: Copy + PartialEq> Keymap<A> {
    /// Starts a table of default bindings.
    pub fn builder() -> (r: KeymapBuilder<A>)
        requires
            obeys_concrete_eq::<A>(),
        ensures
            r@ == Seq::<EntryView<A>>::empty(),
    {
        let entries: Vec<Entry<A>> = Vec::new();
        assert(entries_view(entries@) =~= Seq::<EntryView<A>>::empty());
        KeymapBuilder { entries }
    }

    /// The action bound to `key` once it is put in canonical form.
    pub fn action_for_key(&self, key: &KeyCombo) -> (r: Option<A>)
        ensures
            r == spec_action_for(self@, canonical(*key)),
            keymap_ok(self@),
    {
        proof {
            use_type_invariant(self);
        }
        let k = canonicalize(*key);
        let mut j: usize = 0;
        while j < self.lookup.len()
            invariant
                self.wf(),
                k == canonical(*key),
                j <= self.lookup.len(),
                forall|t: int| 0 <= t < j ==> self.lookup@[t].0 != k,
            decreases self.lookup.len() - j,
        {
            if key_eq(&self.lookup[j].0, &k) {
                proof {
                    lemma_bindings_sound(self@, j as int);
                    let i = choose|i: int|
                        0 <= i < self@.len() && self@[i].keys.contains(#[trigger] bindings(self@)[j as int].0)
                            && bindings(self@)[j as int].1 == self@[i].action;
                    let c = choose|c: int| 0 <= c < self@.len() && self@[c].keys.contains(k);
                    assert(i == c);
                }
                return Some(self.lookup[j].1);
            }
            j = j + 1;
        }
        proof {
            if exists|i: int| 0 <= i < self@.len() && self@[i].keys.contains(k) {
                let i = choose|i: int| 0 <= i < self@.len() && self@[i].keys.contains(k);
                lemma_bindings_complete(self@, i, k);
            }
        }
        None
    }

    /// The position of the entry binding `action`, if any.
    fn entry(&self, action: &A) -> (r: Option<usize>)
        requires
            self.wf(),
        ensures
            r matches Some(i) ==> i < self@.len() && self@[i as int].action == *action,
            r is None ==> !is_bound(self@, *action),
    {
        let mut i: usize = 0;
        while i < self.entries.len()
            invariant
                self.wf(),
                i <= self.entries.len(),
                forall|j: int| 0 <= j < i ==> self@[j].action != *action,
            decreases self.entries.len() - i,
        {
            if action_eq(&self.entries[i].action, action) {
                return Some(i);
            }
            i = i + 1;
        }
        None
    }

    /// The action bound to a crokey key combination (for instance one made
    /// from a crossterm key event): the lookup of the canonical key that the
    /// combination makes (see `from_crokey`); a combination of several key
    /// codes is bound to nothing.
    pub fn action_for(&self, key: crokey::KeyCombination) -> (r: Option<A>)
        ensures
            r == action_of_parts(self@, spec_crokey_parts(key).0, spec_crokey_parts(key).1, spec_crokey_parts(key).2),
    {
        proof {
            use_type_invariant(self);
        }
        match crate::keymap::key::from_crokey(key) {
            Some(k) => self.action_for_key(&k),
            None => None,
        }
    }

    /// The action a key event dispatches to: only key presses count (not
    /// repeats or releases), and a pressed combination dispatches to the
    /// action bound to it, if any (see `action_for`).
    pub fn action_for_event(&self, pressed: bool, key: crokey::KeyCombination) -> (r: Option<A>)
        ensures
            r == if pressed {
                action_of_parts(self@, spec_crokey_parts(key).0, spec_crokey_parts(key).1, spec_crokey_parts(key).2)
            } else {
                None
            },
    {
        if !pressed {
            return None;
        }
        self.action_for(key)
    }

    /// The currently effective keys of `action` (empty when it is not part of
    /// this keymap).
    pub fn keys(&self, action: A) -> (r: &[KeyCombo])
        ensures
            r@ == spec_keys(self@, action),
            keymap_ok(self@),
    {
        proof {
            use_type_invariant(self);
        }
        match self.entry(&action) {
            Some(i) => {
                proof {
                    let c = choose|c: int| 0 <= c < self@.len() && self@[c].action == action;
                    assert(c == i);
                }
                self.entries[i].keys.as_slice()
            },
            None => &[],
        }
    }

    /// Human-readable names of the keys of `action`, in crokey's standard
    /// format; they follow user overrides.
    pub fn describe(&self, action: A) -> (r: Vec<String>)
        ensures
            r@.len() == spec_keys(self@, action).len(),
            forall|i: int| 0 <= i < r@.len() ==> #[trigger] r@[i]@ == spec_key_name(spec_keys(self@, action)[i]),
    {
        let keys = self.keys(action);
        let mut out: Vec<String> = Vec::new();
        let mut i: usize = 0;
        while i < keys.len()
            invariant
                keys@ == spec_keys(self@, action),
                i <= keys@.len(),
                out@.len() == i,
                forall|j: int| 0 <= j < i ==> #[trigger] out@[j]@ == spec_key_name(keys@[j]),
            decreases keys.len() - i,
        {
            out.push(key_name(&keys[i]));
            i = i + 1;
        }
        out
    }

    /// Like `describe`, with a caller-chosen crokey format.
    pub fn describe_with(&self, format: &crokey::KeyCombinationFormat, action: A) -> (r: Vec<String>)
        ensures
            r@.len() == spec_keys(self@, action).len(),
            forall|i: int| 0 <= i < r@.len() ==> #[trigger] r@[i]@ == spec_key_name_with(*format, spec_keys(self@, action)[i]),
    {
        let keys = self.keys(action);
        let mut out: Vec<String> = Vec::new();
        let mut i: usize = 0;
        while i < keys.len()
            invariant
                keys@ == spec_keys(self@, action),
                i <= keys@.len(),
                out@.len() == i,
                forall|j: int| 0 <= j < i ==> #[trigger] out@[j]@ == spec_key_name_with(*format, keys@[j]),
            decreases keys.len() - i,
        {
            out.push(crate::keymap::key::key_name_with(format, &keys[i]));
            i = i + 1;
        }
        out
    }

    /// The description attached to `action` with `KeymapBuilder::desc`.
    pub fn desc(&self, action: A) -> (r: Option<&str>)
        ensures
            match r {
                Some(s) => spec_desc(self@, action) == Some(s@),
                None => spec_desc(self@, action) is None,
            },
    {
        proof {
            use_type_invariant(self);
        }
        match self.entry(&action) {
            Some(i) => {
                proof {
                    let c = choose|c: int| 0 <= c < self@.len() && self@[c].action == action;
                    assert(c == i);
                }
                match &self.entries[i].desc {
                    Some(d) => Some(d.as_str()),
                    None => None,
                }
            },
            None => None,
        }
    }

    /// A commented configuration template of the default bindings: for each
    /// action in declaration order, its description as `#` comments, then
    /// `name = ["key", ...]` and a blank line.
    pub fn to_toml_example(&self) -> (r: String)
        ensures
            r@ == crate::keymap::template::template_of(self@),
    {
        let mut out = String::new();
        let mut i: usize = 0;
        assert(self@.take(0) =~= Seq::<EntryView<A>>::empty());
        while i < self.entries.len()
            invariant
                i <= self.entries.len(),
                out@ == crate::keymap::template::template_of(self@.take(i as int)),
            decreases self.entries.len() - i,
        {
            let e = &self.entries[i];
            let ghost before = out@;
            match &e.desc {
                Some(d) => crate::keymap::template::push_comment_lines(&mut out, d.as_str()),
                None => {},
            }
            let key = crate::keymap::template::toml_key(e.name.as_str());
            out.append(key.as_str());
            out.append(" = [");
            crate::keymap::template::push_keys_list(&mut out, &e.default_keys);
            out.append("]\n\n");
            proof {
                assert(self@.take(i + 1).drop_last() =~= self@.take(i as int));
                assert(self@.take(i + 1).last() == self@[i as int]);
                let c = match self@[i as int].desc {
                    Some(d) => crate::keymap::template::comment_lines(crate::keymap::template::lines_of(d)),
                    None => Seq::<char>::empty(),
                };
                assert(out@ =~= before + c + crate::keymap::template::spec_toml_key(self@[i as int].name) + " = ["@
                    + crate::keymap::template::keys_list(self@[i as int].default_keys) + "]\n\n"@);
            }
            i = i + 1;
        }
        assert(self@.take(self.entries.len() as int) =~= self@);
        out
    }

    /// All entries in declaration order, for help screens and templates.
    pub fn entries(&self) -> (r: Vec<KeymapEntry<'_, A>>)
        ensures
            r@.len() == self@.len(),
            forall|i: int|
                0 <= i < r@.len() ==> {
                    &&& *(#[trigger] r@[i]).action == self@[i].action
                    &&& r@[i].name@ == self@[i].name
                    &&& r@[i].keys@ == self@[i].keys
                    &&& match r@[i].desc {
                        Some(d) => self@[i].desc == Some(d@),
                        None => self@[i].desc is None,
                    }
                },
    {
        let mut out: Vec<KeymapEntry<'_, A>> = Vec::new();
        let mut i: usize = 0;
        while i < self.entries.len()
            invariant
                i <= self.entries.len(),
                out@.len() == i,
                forall|j: int|
                    0 <= j < i ==> {
                        &&& *(#[trigger] out@[j]).action == self@[j].action
                        &&& out@[j].name@ == self@[j].name
                        &&& out@[j].keys@ == self@[j].keys
                        &&& match out@[j].desc {
                            Some(d) => self@[j].desc == Some(d@),
                            None => self@[j].desc is None,
                        }
                    },
            decreases self.entries.len() - i,
        {
            let e = &self.entries[i];
            let desc = match &e.desc {
                Some(d) => Some(d.as_str()),
                None => None,
            };
            out.push(KeymapEntry { action: &e.action, name: e.name.as_str(), keys: e.keys.as_slice(), desc });
            i = i + 1;
        }
        out
    }
}

/// A read-only view of one keymap entry, in declaration order.
pub struct KeymapEntry<'a, A> {
    /// The action this entry binds.
    pub action: &'a A,
    /// The action's config key name.
    pub name: &'a str,
    /// Currently effective key combinations.
    pub keys: &'a [KeyCombo],
    /// Optional description, as set with `KeymapBuilder::desc`.
    pub desc: Option<&'a str>,
}


/// A non-fatal problem found while merging user overrides. The affected
/// entry falls back to its defaults (or the override is ignored); the keymap
/// stays usable.
#[non_exhaustive]
#[derive(Debug, Clone, PartialEq, Eq)]
pub enum KeymapWarning {
    /// A key string of this action failed to parse (or was a multi-key
    /// chord); the action fell back to its default keys.
    ParseError { action: String, input: String, message: String },
    /// The override's value has the wrong type; the action fell back to its
    /// default keys.
    InvalidEntry { action: String },
    /// One key ended up bound to several actions; the overridden ones among
    /// them fell back to their default keys.
    Conflict { key: KeyCombo, actions: Vec<String> },
    /// The override names no known action; it was ignored.
    UnknownAction { name: String },
}

impl View for KeymapWarning {
    type V = WarningView;

    open spec fn view(&self) -> WarningView {
        match self {
            KeymapWarning::ParseError { action, input, message } => WarningView::ParseError {
                action: action@,
                input: input@,
                message: message@,
            },
            KeymapWarning::InvalidEntry { action } => WarningView::InvalidEntry { action: action@ },
            KeymapWarning::Conflict { key, actions } => WarningView::Conflict {
                key: *key,
                actions: crate::keymap::key::strings_view(actions@),
            },
            KeymapWarning::UnknownAction { name } => WarningView::UnknownAction { name: name@ },
        }
    }
}

/// The names joined by `", "`.
pub open spec fn comma_joined(names: Seq<Seq<char>>) -> Seq<char>
    decreases names.len(),
{
    if names.len() == 0 {
        Seq::empty()
    } else if names.len() == 1 {
        names[0]
    } else {
        comma_joined(names.drop_last()) + ", "@ + names.last()
    }
}

/// The message of a warning: what went wrong (names and inputs quoted as
/// `{:?}` quotes them, the key in crokey's standard format) and what the
/// merge did about it.
pub open spec fn warning_message(w: WarningView) -> Seq<char> {
    match w {
        WarningView::ParseError { action, input, message } => "invalid key "@ + spec_debug_quote(input)
            + " for action "@ + spec_debug_quote(action) + " ("@ + message + "); using default keys"@,
        WarningView::InvalidEntry { action } => "invalid value for action "@ + spec_debug_quote(action)
            + ": expected a key string or a list of key strings; using default keys"@,
        WarningView::Conflict { key, actions } => "key \""@ + spec_key_name(key)
            + "\" bound to several actions ("@ + comma_joined(actions)
            + "); overridden ones reverted to defaults"@,
        WarningView::UnknownAction { name } => "unknown action "@ + spec_debug_quote(name) + "; entry ignored"@,
    }
}

impl KeymapWarning {
    /// The human-readable message of this warning.
    pub fn message(&self) -> (r: String)
        ensures
            r@ == warning_message(self@),
    {
        let mut out = String::new();
        match self {
            KeymapWarning::ParseError { action, input, message } => {
                out.append("invalid key ");
                out.append(crate::keymap::key::debug_quote(input.as_str()).as_str());
                out.append(" for action ");
                out.append(crate::keymap::key::debug_quote(action.as_str()).as_str());
                out.append(" (");
                out.append(message.as_str());
                out.append("); using default keys");
            },
            KeymapWarning::InvalidEntry { action } => {
                out.append("invalid value for action ");
                out.append(crate::keymap::key::debug_quote(action.as_str()).as_str());
                out.append(": expected a key string or a list of key strings; using default keys");
            },
            KeymapWarning::Conflict { key, actions } => {
                out.append("key \"");
                out.append(key_name(key).as_str());
                out.append("\" bound to several actions (");
                let mut i: usize = 0;
                let ghost base = out@;
                while i < actions.len()
                    invariant
                        i <= actions.len(),
                        out@ == base + comma_joined(strings_view(actions@.take(i as int))),
                    decreases actions.len() - i,
                {
                    if i > 0 {
                        out.append(", ");
                    }
                    out.append(actions[i].as_str());
                    proof {
                        let t = strings_view(actions@.take(i + 1));
                        assert(t.drop_last() =~= strings_view(actions@.take(i as int)));
                        assert(t.last() == actions@[i as int]@);
                        if i == 0 {
                            assert(t.len() == 1);
                            assert(comma_joined(strings_view(actions@.take(0))) =~= Seq::<char>::empty());
                        }
                    }
                    i = i + 1;
                }
                assert(actions@.take(actions.len() as int) =~= actions@);
                out.append("); overridden ones reverted to defaults");
            },
            KeymapWarning::UnknownAction { name } => {
                out.append("unknown action ");
                out.append(crate::keymap::key::debug_quote(name.as_str()).as_str());
                out.append("; entry ignored");
            },
        }
        assert(out@ =~= warning_message(self@));
        out
    }
}

pub open spec fn warnings_view(v: Seq<KeymapWarning>) -> Seq<WarningView> {
    v.map_values(|w: KeymapWarning| w@)
}

/// The bindings of one key name, while grouping.
struct KeyGroup {
    name: Vec<char>,
    key: KeyCombo,
    members: Vec<usize>,
}

spec fn members_view(m: Seq<usize>) -> Seq<int> {
    m.map_values(|x: usize| x as int)
}

impl View for KeyGroup {
    type V = Group;

    closed spec fn view(&self) -> Group {
        Group { name: self.name@, key: self.key, members: members_view(self.members@) }
    }
}

spec fn groups_view(v: Seq<KeyGroup>) -> Seq<Group> {
    v.map_values(|g: KeyGroup| g@)
}

impl<A: Copy + PartialEq> Keymap<A> {
    /// Merges user overrides into this keymap. Each named action has its key
    /// list replaced entirely (an empty list unbinds it); problems come back
    /// as warnings and the affected entries fall back to their defaults.
    pub fn merge(&mut self, overrides: KeymapOverrides) -> (r: Vec<KeymapWarning>)
        ensures
            keymap_ok(final(self)@),
            final(self)@ == spec_merge(old(self)@, overrides@).0,
            warnings_view(r@) == spec_merge(old(self)@, overrides@).1,
    {
        proof {
            use_type_invariant(&*self);
        }
        let ghost es0 = self@;
        let ghost ovs = overrides@;
        let none: Vec<Entry<A>> = Vec::new();
        assert(entries_view(none@) =~= Seq::<EntryView<A>>::empty());
        let mut taken = Keymap { entries: none, lookup: Vec::new() };
        std::mem::swap(self, &mut taken);
        let Keymap { entries, lookup: _ } = taken;
        let mut table = Table { entries };
        assert(table@ == es0);
        let mut warnings: Vec<KeymapWarning> = Vec::new();
        let n = overrides.len();
        let mut t: usize = 0;
        assert(ovs.take(0) =~= Seq::<(Seq<char>, Option<Seq<Seq<char>>>)>::empty());
        while t < n
            invariant
                n == ovs.len(),
                ovs == overrides@,
                t <= n,
                pre_ok(table@),
                table@.len() == es0.len(),
                (table@, warnings_view(warnings@)) == apply_overrides(es0, ovs.take(t as int)),
            decreases n - t,
        {
            let ghost st = (table@, warnings_view(warnings@));
            let (name, value) = overrides.get(t);
            assert(ovs.take(t + 1).drop_last() =~= ovs.take(t as int));
            assert(ovs.take(t + 1).last() == ovs[t as int]);
            table.apply_one(&mut warnings, name, value);
            t = t + 1;
        }
        assert(ovs.take(n as int) =~= ovs);
        let mut more = table.resolve_conflicts();
        let ghost w1 = warnings@;
        let ghost w2 = more@;
        warnings.append(&mut more);
        assert(warnings_view(warnings@) =~= warnings_view(w1) + warnings_view(w2));
        let lookup = lookup_of(&table.entries);
        proof {
            lemma_merge_ok(es0, ovs);
        }
        let Table { entries } = table;
        *self = Keymap { entries, lookup };
        warnings
    }
}

impl<A: PartialEq> Table<A> {
    spec fn view(&self) -> Seq<EntryView<A>> {
        entries_view(self.entries@)
    }
}

impl<A: Copy + PartialEq> Table<A> {

    /// Applies one override to the entries (see `apply_override`).
    fn apply_one(&mut self, warnings: &mut Vec<KeymapWarning>, name: &String, value: &KeyList)
        requires
            pre_ok(old(self)@),
        ensures
            (final(self)@, warnings_view(final(warnings)@)) == apply_override(
                (old(self)@, warnings_view(old(warnings)@)),
                name@,
                value.strings(),
            ),
            pre_ok(final(self)@),
            final(self)@.len() == old(self)@.len(),
    {
        let ghost es = self@;
        let mut i: usize = 0;
        while i < self.entries.len() && self.entries[i].name != *name
            invariant
                i <= self.entries.len(),
                es == self@,
                forall|j: int| 0 <= j < i ==> es[j].name != name@,
            decreases self.entries.len() - i,
        {
            i = i + 1;
        }
        proof {
            crate::keymap::model::lemma_apply_override_ok((es, warnings_view(warnings@)), name@, value.strings());
            reveal(find_name);
            reveal(crate::keymap::model::after_override);
            reveal(crate::keymap::model::override_warnings);
        }
        if i == self.entries.len() {
            warnings.push(KeymapWarning::UnknownAction { name: name.clone() });
            assert(warnings_view(warnings@) =~= warnings_view(old(warnings)@).push(
                WarningView::UnknownAction { name: name@ },
            ));
            return;
        }
        proof {
            lemma_first_index(es, name@, i as int);
        }
        match value.as_strings() {
            None => {
                warnings.push(KeymapWarning::InvalidEntry { action: name.clone() });
                assert(warnings_view(warnings@) =~= warnings_view(old(warnings)@) + seq![
                    WarningView::InvalidEntry { action: name@ },
                ]);
                self.revert_entry(i);
            },
            Some(raws) => {
                match parse_keys(&raws) {
                    Ok(parsed) => {
                        let mut e = self.entries.remove(i);
                        e.keys = parsed;
                        e.overridden = true;
                        self.entries.insert(i, e);
                        assert(self@ =~= es.update(
                            i as int,
                            EntryView { keys: parsed@, overridden: true, ..es[i as int] },
                        ));
                        assert(warnings_view(warnings@) =~= warnings_view(old(warnings)@) + Seq::<WarningView>::empty());
                    },
                    Err((input, message)) => {
                        warnings.push(KeymapWarning::ParseError { action: name.clone(), input, message });
                        assert(warnings_view(warnings@) =~= warnings_view(old(warnings)@) + seq![
                            WarningView::ParseError { action: name@, input: input@, message: message@ },
                        ]);
                        self.revert_entry(i);
                    },
                }
            },
        }
    }

    /// Puts entry `i` back on its default keys.
    fn revert_entry(&mut self, i: usize)
        requires
            i < old(self)@.len(),
        ensures
            final(self)@ == old(self)@.update(i as int, revert(old(self)@[i as int])),
            final(self).entries@.len() == old(self).entries@.len(),
    {
        let ghost es = self@;
        let mut e = self.entries.remove(i);
        e.keys = copy_keys(&e.default_keys);
        e.overridden = false;
        self.entries.insert(i, e);
        assert(self@ =~= es.update(i as int, revert(es[i as int])));
    }

    /// Groups the current bindings by key name, in name order (see `groups_of`).
    fn conflict_groups(&self) -> (r: Vec<KeyGroup>)
        ensures
            groups_view(r@) == groups_of(occurrences(self@)),
            forall|g: int, x: int|
                0 <= g < r@.len() && 0 <= x < r@[g].members@.len() ==> #[trigger] r@[g].members@[x] < self@.len(),
    {
        let ghost es = self@;
        let mut groups: Vec<KeyGroup> = Vec::new();
        let mut i: usize = 0;
        assert(groups_view(groups@) =~= groups_of(occurrences(es.take(0))));
        while i < self.entries.len()
            invariant
                i <= self.entries.len(),
                es == self@,
                groups_view(groups@) == groups_of(occurrences(es.take(i as int))),
                forall|g: int, x: int|
                    0 <= g < groups@.len() && 0 <= x < groups@[g].members@.len() ==> #[trigger] groups@[g].members@[x] < es.len(),
            decreases self.entries.len() - i,
        {
            let e = &self.entries[i];
            let mut j: usize = 0;
            assert(occurrences(es.take(i as int)) + keyed(i as int, es[i as int].keys.take(0)) =~= occurrences(es.take(i as int)));
            while j < e.keys.len()
                invariant
                    i < self.entries.len(),
                    es == self@,
                    e == &self.entries[i as int],
                    j <= e.keys.len(),
                    groups_view(groups@) == groups_of(
                        occurrences(es.take(i as int)) + keyed(i as int, es[i as int].keys.take(j as int)),
                    ),
                    forall|g: int, x: int|
                        0 <= g < groups@.len() && 0 <= x < groups@[g].members@.len() ==> #[trigger] groups@[g].members@[x] < es.len(),
                decreases e.keys.len() - j,
            {
                let ghost occ = occurrences(es.take(i as int)) + keyed(i as int, es[i as int].keys.take(j as int));
                let k = e.keys[j];
                insert_binding(&mut groups, k, i);
                proof {
                    let occ2 = occurrences(es.take(i as int)) + keyed(i as int, es[i as int].keys.take(j + 1));
                    assert(occ2.drop_last() =~= occ);
                    assert(occ2.last() == (i as int, k));
                }
                j = j + 1;
            }
            proof {
                assert(es.take(i + 1).drop_last() =~= es.take(i as int));
                assert(es[i as int].keys.take(j as int) =~= es[i as int].keys);
                assert(occurrences(es.take(i + 1)) =~= occurrences(es.take(i as int)) + keyed(i as int, es[i as int].keys));
            }
            i = i + 1;
        }
        assert(es.take(self.entries.len() as int) =~= es);
        groups
    }

    /// Conflict resolution (see `resolve`): rounds of conflict warnings and
    /// reverts of the overridden entries in conflict, until a round reverts
    /// nothing. Each round reverts at least one override, so rounds end.
    fn resolve_conflicts(&mut self) -> (r: Vec<KeymapWarning>)
        requires
            pre_ok(old(self)@),
        ensures
            final(self)@ == resolve(old(self)@).0,
            warnings_view(r@) == resolve(old(self)@).1,
    {
        let ghost es0 = self@;
        let mut warnings: Vec<KeymapWarning> = Vec::new();
        loop
            invariant
                es0 == old(self)@,
                pre_ok(self@),
                resolve(self@).0 == resolve(es0).0,
                warnings_view(warnings@) + resolve(self@).1 == resolve(es0).1,
            decreases crate::keymap::model::count_overridden(self@),
        {
            let ghost es = self@;
            let groups = self.conflict_groups();
            let ghost gs = groups_view(groups@);
            let round = self.round_warnings(&groups);
            let marks = conflict_marks(&groups, self.entries.len());
            let mut reverted = false;
            let mut x: usize = 0;
            while x < self.entries.len()
                invariant
                    x <= self.entries.len(),
                    self@.len() == es.len(),
                    self.entries@.len() == es.len(),
                    marks@.len() == es.len(),
                    forall|y: int| 0 <= y < es.len() ==> marks@[y] == in_conflict(gs, y),
                    forall|y: int| 0 <= y < x ==> #[trigger] self@[y] == round_revert(es, gs)[y],
                    forall|y: int| x <= y < es.len() ==> #[trigger] self@[y] == es[y],
                    reverted == exists|y: int| 0 <= y < x && es[y].overridden && in_conflict(gs, y),
                decreases self.entries.len() - x,
            {
                assert(self@[x as int] == es[x as int]);
                if marks[x] && self.entries[x].overridden {
                    self.revert_entry(x);
                    reverted = true;
                }
                assert(self@[x as int] == round_revert(es, gs)[x as int]);
                x = x + 1;
            }
            assert(self@ =~= round_revert(es, gs));
            let ghost ws_round = warnings_view(round@);
            let mut round = round;
            let ghost before = warnings@;
            warnings.append(&mut round);
            assert(warnings_view(warnings@) =~= warnings_view(before) + ws_round);
            if !reverted {
                assert(self@ =~= es);
                assert(!reverts_any(es, gs));
                assert(gs == groups_of(occurrences(es)));
                assert(resolve(es) == (es, conflict_warnings(es, gs)));
                assert(warnings_view(warnings@) =~= resolve(es0).1);
                return warnings;
            }
            proof {
                lemma_round_decreases(es, gs);
                crate::keymap::model::lemma_round_pre_ok(es, gs);
                assert(resolve(es).1 =~= ws_round + resolve(self@).1);
            }
        }
    }

    /// The conflict warnings of one round (see `conflict_warnings`).
    fn round_warnings(&self, groups: &Vec<KeyGroup>) -> (r: Vec<KeymapWarning>)
        requires
            forall|g: int, x: int|
                0 <= g < groups@.len() && 0 <= x < groups@[g].members@.len() ==> #[trigger] groups@[g].members@[x] < self@.len(),
        ensures
            warnings_view(r@) == conflict_warnings(self@, groups_view(groups@)),
    {
        let ghost es = self@;
        let ghost gs = groups_view(groups@);
        let mut out: Vec<KeymapWarning> = Vec::new();
        let mut g: usize = 0;
        assert(gs.take(0) =~= Seq::<Group>::empty());
        while g < groups.len()
            invariant
                g <= groups.len(),
                es == self@,
                gs == groups_view(groups@),
                warnings_view(out@) == conflict_warnings(es, gs.take(g as int)),
                forall|gg: int, x: int|
                    0 <= gg < groups@.len() && 0 <= x < groups@[gg].members@.len() ==> #[trigger] groups@[gg].members@[x] < es.len(),
            decreases groups.len() - g,
        {
            let grp = &groups[g];
            assert(gs.take(g + 1).drop_last() =~= gs.take(g as int));
            assert(gs.take(g + 1).last() == grp@);
            if grp.members.len() >= 2 {
                let mut actions: Vec<String> = Vec::new();
                let mut y: usize = 0;
                while y < grp.members.len()
                    invariant
                        y <= grp.members.len(),
                        es == self@,
                        grp == &groups[g as int],
                        g < groups@.len(),
                        forall|x: int| 0 <= x < grp.members@.len() ==> #[trigger] grp.members@[x] < es.len(),
                        actions@.len() == y,
                        forall|x: int| 0 <= x < y ==> #[trigger] actions@[x]@ == es[grp.members@[x] as int].name,
                    decreases grp.members.len() - y,
                {
                    let m = grp.members[y];
                    actions.push(self.entries[m].name.clone());
                    y = y + 1;
                }
                let ghost prev = out@;
                out.push(KeymapWarning::Conflict { key: grp.key, actions });
                assert(crate::keymap::key::strings_view(actions@) =~= grp@.members.map_values(|m: int| es[m].name));
                assert(warnings_view(out@) =~= warnings_view(prev) + seq![
                    WarningView::Conflict { key: grp@.key, actions: grp@.members.map_values(|m: int| es[m].name) },
                ]);
            } else {
                assert(warnings_view(out@) =~= conflict_warnings(es, gs.take(g as int)) + Seq::<WarningView>::empty());
            }
            g = g + 1;
        }
        assert(gs.take(groups.len() as int) =~= gs);
        out
    }
}

/// Adds the binding (`i`, `key`) to groups kept in key-name order (see
/// `group_insert`).
fn insert_binding(groups: &mut Vec<KeyGroup>, key: KeyCombo, i: usize)
    ensures
        groups_view(final(groups)@) == group_insert(groups_view(old(groups)@), key, i as int),
        forall|g: int, x: int|
            0 <= g < final(groups)@.len() && 0 <= x < final(groups)@[g].members@.len() ==> (#[trigger] final(groups)@[g].members@[x] == i
                || exists|g0: int, x0: int| 0 <= g0 < old(groups)@.len() && 0 <= x0 < old(groups)@[g0].members@.len() && final(groups)@[g].members@[x] == old(groups)@[g0].members@[x0]),
{
    let ghost gs = groups_view(groups@);
    let ghost names = group_names(gs);
    let name_text = key_name(&key);
    let name = crate::text::chars_of(name_text.as_str());
    proof {
        crate::text::lemma_insert_pos(names, name@);
    }
    let mut p: usize = 0;
    while p < groups.len() && crate::text::chars_less(&groups[p].name, &name)
        invariant
            p <= groups.len(),
            gs == groups_view(groups@),
            names == group_names(gs),
            name@ == spec_key_name(key),
            p <= crate::text::insert_pos(names, name@),
            forall|q: int| 0 <= q < p ==> crate::text::seq_lt(names[q], name@),
        decreases groups.len() - p,
    {
        assert(names[p as int] == groups@[p as int].name@);
        proof {
            crate::text::lemma_insert_pos(names, name@);
        }
        p = p + 1;
    }
    proof {
        if p < groups.len() {
            assert(names[p as int] == groups@[p as int].name@);
        }
    }
    assert(p == crate::text::insert_pos(names, name@));
    let ghost old_groups = groups@;
    if p < groups.len() && crate::text::chars_eq(&groups[p].name, &name) {
        let mut g = groups.remove(p);
        let ghost old_g = g@;
        g.members.push(i);
        assert(members_view(g.members@) =~= old_g.members.push(i as int));
        groups.insert(p, g);
        assert(groups_view(groups@) =~= gs.update(p as int, Group { members: gs[p as int].members.push(i as int), ..gs[p as int] }));
        assert forall|gi: int, x: int|
            0 <= gi < groups@.len() && 0 <= x < groups@[gi].members@.len() implies (#[trigger] groups@[gi].members@[x] == i
                || exists|g0: int, x0: int| 0 <= g0 < old_groups.len() && 0 <= x0 < old_groups[g0].members@.len() && groups@[gi].members@[x] == old_groups[g0].members@[x0]) by {
            if gi != p && x < groups@[gi].members@.len() {
                assert(groups@[gi] == old_groups[gi]);
            } else if gi == p && x < old_groups[p as int].members@.len() {
                assert(groups@[gi].members@[x] == old_groups[p as int].members@[x]);
            }
        }
    } else {
        let mut members: Vec<usize> = Vec::new();
        members.push(i);
        let g = KeyGroup { name, key, members };
        assert(members_view(g.members@) =~= seq![i as int]);
        groups.insert(p, g);
        assert(groups_view(groups@) =~= gs.insert(p as int, Group { name: spec_key_name(key), key, members: seq![i as int] }));
        assert forall|gi: int, x: int|
            0 <= gi < groups@.len() && 0 <= x < groups@[gi].members@.len() implies (#[trigger] groups@[gi].members@[x] == i
                || exists|g0: int, x0: int| 0 <= g0 < old_groups.len() && 0 <= x0 < old_groups[g0].members@.len() && groups@[gi].members@[x] == old_groups[g0].members@[x0]) by {
            if gi < p {
                assert(groups@[gi] == old_groups[gi]);
            } else if gi > p {
                assert(groups@[gi] == old_groups[gi - 1]);
            }
        }
    }
}

/// For each entry, whether it has a binding in a group of two or more.
fn conflict_marks(groups: &Vec<KeyGroup>, n: usize) -> (r: Vec<bool>)
    requires
        forall|g: int, x: int|
            0 <= g < groups@.len() && 0 <= x < groups@[g].members@.len() ==> #[trigger] groups@[g].members@[x] < n,
    ensures
        r@.len() == n,
        forall|y: int| 0 <= y < n ==> r@[y] == in_conflict(groups_view(groups@), y),
{
    let ghost gs = groups_view(groups@);
    let mut marks: Vec<bool> = Vec::new();
    let mut y: usize = 0;
    while y < n
        invariant
            y <= n,
            marks@.len() == y,
            forall|z: int| 0 <= z < y ==> marks@[z] == false,
        decreases n - y,
    {
        marks.push(false);
        y = y + 1;
    }
    let mut g: usize = 0;
    while g < groups.len()
        invariant
            g <= groups.len(),
            gs == groups_view(groups@),
            marks@.len() == n,
            forall|gg: int, x: int|
                0 <= gg < groups@.len() && 0 <= x < groups@[gg].members@.len() ==> #[trigger] groups@[gg].members@[x] < n,
            forall|z: int| 0 <= z < n ==> marks@[z] == exists|gg: int|
                0 <= gg < g && gs[gg].members.len() >= 2 && #[trigger] gs[gg].members.contains(z),
        decreases groups.len() - g,
    {
        let grp = &groups[g];
        assert(gs[g as int] == grp@);
        if grp.members.len() >= 2 {
            let mut x: usize = 0;
            while x < grp.members.len()
                invariant
                    x <= grp.members.len(),
                    g < groups@.len(),
                    grp == &groups[g as int],
                    gs == groups_view(groups@),
                    gs[g as int] == grp@,
                    grp.members@.len() >= 2,
                    marks@.len() == n,
                    forall|xx: int| 0 <= xx < grp.members@.len() ==> #[trigger] grp.members@[xx] < n,
                    forall|z: int| 0 <= z < n ==> marks@[z] == ((exists|gg: int|
                        0 <= gg < g && gs[gg].members.len() >= 2 && #[trigger] gs[gg].members.contains(z)) || members_view(grp.members@).take(x as int).contains(z)),
                decreases grp.members.len() - x,
            {
                let m = grp.members[x];
                let ghost before = marks@;
                marks.set(m, true);
                proof {
                    assert(members_view(grp.members@)[x as int] == m as int);
                    assert forall|z: int| 0 <= z < n implies marks@[z] == ((exists|gg: int|
                        0 <= gg < g && gs[gg].members.len() >= 2 && #[trigger] gs[gg].members.contains(z)) || members_view(grp.members@).take(x + 1).contains(z)) by {
                        assert(members_view(grp.members@).take(x + 1) =~= members_view(grp.members@).take(x as int).push(m as int));
                        if z != m as int {
                            assert(marks@[z] == before[z]);
                            assert(members_view(grp.members@).take(x + 1).contains(z) == members_view(grp.members@).take(x as int).contains(z)) by {
                                if members_view(grp.members@).take(x + 1).contains(z) {
                                    let w = choose|w: int| 0 <= w < x + 1 && #[trigger] members_view(grp.members@).take(x + 1)[w] == z;
                                    assert(w < x);
                                    assert(members_view(grp.members@).take(x as int)[w] == z);
                                }
                            }
                        } else {
                            assert(members_view(grp.members@).take(x + 1)[x as int] == z);
                        }
                    }
                }
                x = x + 1;
            }
            assert(members_view(grp.members@).take(x as int) =~= gs[g as int].members);
            assert forall|z: int| 0 <= z < n implies marks@[z] == exists|gg: int|
                0 <= gg < g + 1 && gs[gg].members.len() >= 2 && #[trigger] gs[gg].members.contains(z) by {
                if gs[g as int].members.contains(z) {
                    assert(0 <= g < g + 1 && gs[g as int].members.len() >= 2 && gs[g as int].members.contains(z));
                }
            }
        } else {
            assert forall|z: int| 0 <= z < n implies marks@[z] == exists|gg: int|
                0 <= gg < g + 1 && gs[gg].members.len() >= 2 && #[trigger] gs[gg].members.contains(z) by {
                if exists|gg: int| 0 <= gg < g + 1 && gs[gg].members.len() >= 2 && #[trigger] gs[gg].members.contains(z) {
                    let gg = choose|gg: int| 0 <= gg < g + 1 && gs[gg].members.len() >= 2 && #[trigger] gs[gg].members.contains(z);
                    assert(gg != g);
                }
            }
        }
        g = g + 1;
    }
    marks
}

} // verus!
