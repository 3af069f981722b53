//! User overrides: action config name → the key strings that replace the
//! action's keys, as read from a config file.
use vstd::prelude::*;
use crate::keymap::key::strings_view;
use crate::text::{chars_of, chars_less, chars_eq, sorted_names, insert_pos, lemma_insert_pos, lemma_sorted_insert};

verus! {

/// The value given for one action: one key string, a list of them, or a
/// value of any other type (reported as an invalid entry when merged).
pub enum KeyList {
    One(String),
    Many(Vec<String>),
    Invalid,
}

impl KeyList {
    /// The key strings, or `None` for a value of the wrong type.
    pub open spec fn strings(&self) -> Option<Seq<Seq<char>>> {
        match self {
            KeyList::One(s) => Some(seq![s@]),
            KeyList::Many(v) => Some(strings_view(v@)),
            KeyList::Invalid => None,
        }
    }

    /// A copy of the key strings, or `None` for a value of the wrong type.
    pub fn as_strings(&self) -> (r: Option<Vec<String>>)
        ensures
            match r {
                Some(v) => self.strings() == Some(strings_view(v@)),
                None => self.strings() is None,
            },
    {
        match self {
            KeyList::One(s) => {
                let mut v: Vec<String> = Vec::new();
                v.push(s.clone());
                assert(strings_view(v@) =~= seq![s@]);
                Some(v)
            },
            KeyList::Many(list) => {
                let mut v: Vec<String> = Vec::new();
                let mut i: usize = 0;
                while i < list.len()
                    invariant
                        i <= list.len(),
                        v@.len() == i,
                        forall|j: int| 0 <= j < i ==> #[trigger] v@[j]@ == list@[j]@,
                    decreases list.len() - i,
                {
                    v.push(list[i].clone());
                    i = i + 1;
                }
                assert(strings_view(v@) =~= strings_view(list@));
                Some(v)
            },
            KeyList::Invalid => None,
        }
    }
}

/// User overrides for one keymap, keyed by action config name and kept in
/// name order (the order in which they are merged and warned about).
pub struct KeymapOverrides {
    entries: Vec<(String, KeyList)>,
}

/// The names of an override list.
pub open spec fn override_names(s: Seq<(Seq<char>, Option<Seq<Seq<char>>>)>) -> Seq<Seq<char>> {
    s.map_values(|e: (Seq<char>, Option<Seq<Seq<char>>>)| e.0)
}

/// Ordered-map insertion: a present name gets the new value in place, an
/// absent one is inserted at its position.
pub open spec fn override_insert(
    s: Seq<(Seq<char>, Option<Seq<Seq<char>>>)>,
    name: Seq<char>,
    value: Option<Seq<Seq<char>>>,
) -> Seq<(Seq<char>, Option<Seq<Seq<char>>>)> {
    let p = insert_pos(override_names(s), name);
    if p < s.len() && s[p].0 == name {
        s.update(p, (name, value))
    } else {
        s.insert(p, (name, value))
    }
}

/// Name and key strings of each override.
spec fn list_view(v: Seq<(String, KeyList)>) -> Seq<(Seq<char>, Option<Seq<Seq<char>>>)> {
    v.map_values(|e: (String, KeyList)| (e.0@, e.1.strings()))
}

impl KeymapOverrides {
    /// Name and key strings of each override, in name order.
    pub closed spec fn view(&self) -> Seq<(Seq<char>, Option<Seq<Seq<char>>>)> {
        list_view(self.entries@)
    }

    /// Overrides are kept in strictly increasing name order.
    #[verifier::type_invariant]
    spec fn wf(&self) -> bool {
        sorted_names(override_names(self@))
    }

    /// The number of overrides.
    pub fn len(&self) -> (r: usize)
        ensures
            r == self@.len(),
    {
        self.entries.len()
    }

    /// The name and value of the `i`-th override, in name order.
    pub fn get(&self, i: usize) -> (r: (&String, &KeyList))
        requires
            i < self@.len(),
        ensures
            r.0@ == self@[i as int].0,
            r.1.strings() == self@[i as int].1,
    {
        let e = &self.entries[i];
        (&e.0, &e.1)
    }

    /// No overrides.
    pub fn new() -> (r: Self)
        ensures
            r@ == Seq::<(Seq<char>, Option<Seq<Seq<char>>>)>::empty(),
            sorted_names(override_names(r@)),
    {
        let entries: Vec<(String, KeyList)> = Vec::new();
        assert(list_view(entries@) =~= Seq::<(Seq<char>, Option<Seq<Seq<char>>>)>::empty());
        assert(override_names(list_view(entries@)) =~= Seq::<Seq<char>>::empty());
        KeymapOverrides { entries }
    }


    /// Sets the value for `name`, replacing an earlier one.
    pub fn insert(&mut self, name: String, keys: KeyList)
        ensures
            final(self)@ == override_insert(old(self)@, name@, keys.strings()),
            sorted_names(override_names(final(self)@)),
    {
        proof {
            use_type_invariant(&*self);
        }
        let ghost names = override_names(self@);
        let none: Vec<(String, KeyList)> = Vec::new();
        assert(override_names(list_view(none@)) =~= Seq::<Seq<char>>::empty());
        let mut taken = KeymapOverrides { entries: none };
        std::mem::swap(self, &mut taken);
        let KeymapOverrides { entries } = taken;
        let mut entries = entries;
        proof {
            lemma_insert_pos(names, name@);
            lemma_sorted_insert(names, name@);
        }
        let target = chars_of(name.as_str());
        let mut p: usize = 0;
        while p < entries.len() && chars_less(&chars_of(entries[p].0.as_str()), &target)
            invariant
                p <= entries.len(),
                names == override_names(list_view(entries@)),
                target@ == name@,
                p <= insert_pos(names, name@),
                forall|q: int| 0 <= q < p ==> crate::text::seq_lt(names[q], name@),
            decreases entries.len() - p,
        {
            assert(names[p as int] == entries@[p as int].0@);
            proof {
                lemma_insert_pos(names, name@);
            }
            p = p + 1;
        }
        proof {
            if p < entries.len() {
                assert(names[p as int] == entries@[p as int].0@);
            }
            if p < insert_pos(names, name@) {
                assert(crate::text::seq_lt(names[p as int], name@));
            }
        }
        assert(p == insert_pos(names, name@));
        let ghost old_view = list_view(entries@);
        if p < entries.len() && chars_eq(&chars_of(entries[p].0.as_str()), &target) {
            let _ = entries.remove(p);
            entries.insert(p, (name, keys));
            assert(list_view(entries@) =~= old_view.update(p as int, (name@, keys.strings())));
            assert(override_names(list_view(entries@)) =~= names);
        } else {
            entries.insert(p, (name, keys));
            assert(list_view(entries@) =~= old_view.insert(p as int, (name@, keys.strings())));
            assert(override_names(list_view(entries@)) =~= names.insert(p as int, name@));
        }
        *self = KeymapOverrides { entries };
    }

    /// Overrides from `(action name, key strings)` pairs; a later pair for
    /// the same name replaces an earlier one.
    pub fn from_pairs(pairs: Vec<(String, Vec<String>)>) -> (r: Self)
        ensures
            sorted_names(override_names(r@)),
            r@ == overrides_from_pairs(pairs_view(pairs@)),
    {
        let ghost all = pairs_view(pairs@);
        let mut r = KeymapOverrides::new();
        let mut pairs = pairs;
        let mut taken: usize = 0;
        let ghost total = pairs@.len();
        assert(all.skip(0) =~= all);
        assert(pairs@.len() == pairs.len());
        while pairs.len() > 0
            invariant
                sorted_names(override_names(r@)),
                taken + pairs@.len() == total,
                total == pairs_view(pairs@).len() + taken,
                all.len() == total,
                total <= usize::MAX,
                r@ == overrides_from_pairs(all.take(taken as int)),
                pairs_view(pairs@) == all.skip(taken as int),
            decreases pairs.len(),
        {
            let ghost before = pairs@;
            let (name, keys) = pairs.remove(0);
            assert(pairs_view(before)[0] == all[taken as int]);
            assert(all.take(taken + 1).drop_last() =~= all.take(taken as int));
            assert(KeyList::Many(keys).strings() == Some(all[taken as int].1));
            r.insert(name, KeyList::Many(keys));
            taken = taken + 1;
            assert forall|j: int| 0 <= j < pairs@.len() implies #[trigger] pairs_view(pairs@)[j] == all.skip(
                taken as int,
            )[j] by {
                assert(pairs@[j] == before[j + 1]);
                assert(pairs_view(before)[j + 1] == all.skip(taken - 1)[j + 1]);
            }
            assert(pairs_view(pairs@) =~= all.skip(taken as int));
        }
        assert(all.take(total as int) =~= all);
        r
    }
}

/// The views of `(name, key strings)` pairs.
pub open spec fn pairs_view(p: Seq<(String, Vec<String>)>) -> Seq<(Seq<char>, Seq<Seq<char>>)> {
    p.map_values(|e: (String, Vec<String>)| (e.0@, strings_view(e.1@)))
}

/// Pairs inserted one after the other into empty overrides.
pub open spec fn overrides_from_pairs(p: Seq<(Seq<char>, Seq<Seq<char>>)>) -> Seq<
    (Seq<char>, Option<Seq<Seq<char>>>),
>
    decreases p.len(),
{
    if p.len() == 0 {
        Seq::empty()
    } else {
        override_insert(overrides_from_pairs(p.drop_last()), p.last().0, Some(p.last().1))
    }
}

} // verus!
