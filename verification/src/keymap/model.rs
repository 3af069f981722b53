//! What merging user overrides does to a keymap, stated over entry views:
//! each override applied in name order, then conflicting overrides reverted
//! to their defaults, round after round, until no round reverts anything.
use vstd::prelude::*;
use crate::keymap::key::{KeyCombo, spec_key_name, spec_parse_keys, spec_parse_key, distinct_keys};
use crate::keymap::{EntryView, spec_action_for, spec_keys, is_bound, actions_distinct, entry_ok, defaults_disjoint, keys_disjoint, keymap_ok};
use crate::keymap::key::lemma_parse_keys_ok;
use crate::keymap::overrides::override_names;
use crate::keymap::template::template_of;
use crate::text::{seq_lt, sorted_names, insert_pos, lemma_insert_pos, lemma_sorted_insert};

verus! {

/// A non-fatal problem found while merging, as the contracts see it.
pub ghost enum WarningView {
    ParseError { action: Seq<char>, input: Seq<char>, message: Seq<char> },
    InvalidEntry { action: Seq<char> },
    Conflict { key: KeyCombo, actions: Seq<Seq<char>> },
    UnknownAction { name: Seq<char> },
}

/// An entry back on its default keys.
pub open spec fn revert<A>(e: EntryView<A>) -> EntryView<A> {
    EntryView { keys: e.default_keys, overridden: false, ..e }
}

/// The first entry whose config name is `name`.
#[verifier::opaque]
pub open spec fn find_name<A>(es: Seq<EntryView<A>>, name: Seq<char>) -> Option<int> {
    if exists|i: int| 0 <= i < es.len() && es[i].name == name {
        Some(
            choose|i: int|
                0 <= i < es.len() && es[i].name == name && forall|j: int| 0 <= j < i ==> es[j].name != name,
        )
    } else {
        None
    }
}

/// What one override makes of the entry it names: a value of the wrong
/// type, or a key string that does not parse, puts the entry back on its
/// defaults; otherwise the parsed keys replace its keys and mark it
/// overridden.
#[verifier::opaque]
pub open spec fn after_override<A>(e: EntryView<A>, value: Option<Seq<Seq<char>>>) -> EntryView<A> {
    match value {
        None => revert(e),
        Some(raws) => match spec_parse_keys(raws) {
            Ok(p) => EntryView { keys: p, overridden: true, ..e },
            Err(_) => revert(e),
        },
    }
}

/// An override changes only an entry's keys and override mark; when the
/// entry was consistent it stays so.
pub proof fn lemma_after_override<A>(e: EntryView<A>, value: Option<Seq<Seq<char>>>)
    ensures
        after_override(e, value).name == e.name,
        after_override(e, value).action == e.action,
        after_override(e, value).default_keys == e.default_keys,
        after_override(e, value).desc == e.desc,
        entry_ok(e) ==> entry_ok(after_override(e, value)),
{
    reveal(after_override);
    if let Some(raws) = value {
        lemma_parse_keys_ok(raws);
    }
}

/// What one override for a known action reports.
#[verifier::opaque]
pub open spec fn override_warnings(name: Seq<char>, value: Option<Seq<Seq<char>>>) -> Seq<WarningView> {
    match value {
        None => seq![WarningView::InvalidEntry { action: name }],
        Some(raws) => match spec_parse_keys(raws) {
            Ok(_) => Seq::empty(),
            Err((input, message)) => seq![WarningView::ParseError { action: name, input, message }],
        },
    }
}

/// One override: an unknown name is reported and ignored; a known one
/// changes its entry (see `after_override`) and may report.
pub open spec fn apply_override<A>(
    st: (Seq<EntryView<A>>, Seq<WarningView>),
    name: Seq<char>,
    value: Option<Seq<Seq<char>>>,
) -> (Seq<EntryView<A>>, Seq<WarningView>) {
    let (es, ws) = st;
    match find_name(es, name) {
        None => (es, ws.push(WarningView::UnknownAction { name })),
        Some(i) => (es.update(i, after_override(es[i], value)), ws + override_warnings(name, value)),
    }
}

/// All overrides, in order.
pub open spec fn apply_overrides<A>(
    es: Seq<EntryView<A>>,
    ovs: Seq<(Seq<char>, Option<Seq<Seq<char>>>)>,
) -> (Seq<EntryView<A>>, Seq<WarningView>)
    decreases ovs.len(),
{
    if ovs.len() == 0 {
        (es, Seq::empty())
    } else {
        apply_override(apply_overrides(es, ovs.drop_last()), ovs.last().0, ovs.last().1)
    }
}

/// The keys of entry `i`, each paired with `i`.
pub open spec fn keyed(i: int, keys: Seq<KeyCombo>) -> Seq<(int, KeyCombo)> {
    keys.map_values(|k: KeyCombo| (i, k))
}

/// Every (entry index, key) binding, entry by entry.
pub open spec fn occurrences<A>(es: Seq<EntryView<A>>) -> Seq<(int, KeyCombo)>
    decreases es.len(),
{
    if es.len() == 0 {
        Seq::empty()
    } else {
        occurrences(es.drop_last()) + keyed(es.len() - 1, es.last().keys)
    }
}

/// The bindings that share one key name: that name, the first such key, and
/// the entry of each binding, in order.
pub ghost struct Group {
    pub name: Seq<char>,
    pub key: KeyCombo,
    pub members: Seq<int>,
}

pub open spec fn group_names(gs: Seq<Group>) -> Seq<Seq<char>> {
    gs.map_values(|g: Group| g.name)
}

/// Adds one binding to groups kept in name order (an ordered map from key
/// name to bindings, as keyed by crokey's key order, which compares names).
pub open spec fn group_insert(gs: Seq<Group>, key: KeyCombo, i: int) -> Seq<Group> {
    let name = spec_key_name(key);
    let p = insert_pos(group_names(gs), name);
    if p < gs.len() && gs[p].name == name {
        gs.update(p, Group { members: gs[p].members.push(i), ..gs[p] })
    } else {
        gs.insert(p, Group { name, key, members: seq![i] })
    }
}

pub open spec fn groups_of(occ: Seq<(int, KeyCombo)>) -> Seq<Group>
    decreases occ.len(),
{
    if occ.len() == 0 {
        Seq::empty()
    } else {
        group_insert(groups_of(occ.drop_last()), occ.last().1, occ.last().0)
    }
}

/// A conflict warning for every group of two bindings or more, in name order.
pub open spec fn conflict_warnings<A>(es: Seq<EntryView<A>>, gs: Seq<Group>) -> Seq<WarningView>
    decreases gs.len(),
{
    if gs.len() == 0 {
        Seq::empty()
    } else {
        let g = gs.last();
        conflict_warnings(es, gs.drop_last()) + if g.members.len() >= 2 {
            seq![WarningView::Conflict { key: g.key, actions: g.members.map_values(|m: int| es[m].name) }]
        } else {
            Seq::empty()
        }
    }
}

/// Entry `i` has a binding in a group of two bindings or more.
pub open spec fn in_conflict(gs: Seq<Group>, i: int) -> bool {
    exists|g: int| 0 <= g < gs.len() && gs[g].members.len() >= 2 && #[trigger] gs[g].members.contains(i)
}

/// One round: overridden entries in conflict go back to their defaults.
pub open spec fn round_revert<A>(es: Seq<EntryView<A>>, gs: Seq<Group>) -> Seq<EntryView<A>> {
    Seq::new(es.len(), |i: int| if es[i].overridden && in_conflict(gs, i) { revert(es[i]) } else { es[i] })
}

pub open spec fn reverts_any<A>(es: Seq<EntryView<A>>, gs: Seq<Group>) -> bool {
    exists|i: int| 0 <= i < es.len() && es[i].overridden && in_conflict(gs, i)
}

pub open spec fn count_overridden<A>(es: Seq<EntryView<A>>) -> nat
    decreases es.len(),
{
    if es.len() == 0 {
        0
    } else {
        count_overridden(es.drop_last()) + if es.last().overridden { 1nat } else { 0nat }
    }
}

pub proof fn lemma_count_decreases<A>(es: Seq<EntryView<A>>, es2: Seq<EntryView<A>>)
    requires
        es2.len() == es.len(),
        forall|i: int| 0 <= i < es.len() && es2[i].overridden ==> es[i].overridden,
    ensures
        count_overridden(es2) <= count_overridden(es),
        (exists|i: int| 0 <= i < es.len() && es[i].overridden && !es2[i].overridden) ==> count_overridden(
            es2,
        ) < count_overridden(es),
    decreases es.len(),
{
    if es.len() > 0 {
        lemma_count_decreases(es.drop_last(), es2.drop_last());
        if exists|i: int| 0 <= i < es.len() && es[i].overridden && !es2[i].overridden {
            let i = choose|i: int| 0 <= i < es.len() && es[i].overridden && !es2[i].overridden;
            if i < es.len() - 1 {
                assert(es.drop_last()[i] == es[i]);
                assert(es2.drop_last()[i] == es2[i]);
            }
        }
    }
}

pub proof fn lemma_round_decreases<A>(es: Seq<EntryView<A>>, gs: Seq<Group>)
    requires
        reverts_any(es, gs),
    ensures
        count_overridden(round_revert(es, gs)) < count_overridden(es),
{
    let es2 = round_revert(es, gs);
    let i = choose|i: int| 0 <= i < es.len() && es[i].overridden && in_conflict(gs, i);
    assert(es[i].overridden && !es2[i].overridden);
    lemma_count_decreases(es, es2);
}

/// Conflict resolution: rounds of conflict warnings and reverts, until a
/// round reverts nothing; every round's warnings are kept, the last one's too.
pub open spec fn resolve<A>(es: Seq<EntryView<A>>) -> (Seq<EntryView<A>>, Seq<WarningView>)
    decreases count_overridden(es),
{
    let gs = groups_of(occurrences(es));
    let ws = conflict_warnings(es, gs);
    if reverts_any(es, gs) {
        proof {
            lemma_round_decreases(es, gs);
        }
        let (f, w) = resolve(round_revert(es, gs));
        (f, ws + w)
    } else {
        (es, ws)
    }
}

/// `Keymap::merge`: the overrides in order, then conflict resolution; the
/// warnings of both, in that order.
pub open spec fn spec_merge<A>(
    es: Seq<EntryView<A>>,
    ovs: Seq<(Seq<char>, Option<Seq<Seq<char>>>)>,
) -> (Seq<EntryView<A>>, Seq<WarningView>) {
    let (e1, w1) = apply_overrides(es, ovs);
    let (e2, w2) = resolve(e1);
    (e2, w1 + w2)
}


/// The table's consistency apart from the disjointness of current keys.
pub open spec fn pre_ok<A>(es: Seq<EntryView<A>>) -> bool {
    &&& actions_distinct(es)
    &&& forall|i: int| 0 <= i < es.len() ==> entry_ok(#[trigger] es[i])
    &&& defaults_disjoint(es)
}

/// The entry index of every binding whose key has name `n`, in order.
pub open spec fn entries_named(occ: Seq<(int, KeyCombo)>, n: Seq<char>) -> Seq<int>
    decreases occ.len(),
{
    if occ.len() == 0 {
        Seq::empty()
    } else {
        entries_named(occ.drop_last(), n) + if spec_key_name(occ.last().1) == n {
            seq![occ.last().0]
        } else {
            Seq::empty()
        }
    }
}

proof fn lemma_entries_named_contains(occ: Seq<(int, KeyCombo)>, t: int)
    requires
        0 <= t < occ.len(),
    ensures
        entries_named(occ, spec_key_name(occ[t].1)).contains(occ[t].0),
    decreases occ.len(),
{
    let n = spec_key_name(occ[t].1);
    if t < occ.len() - 1 {
        assert(occ.drop_last()[t] == occ[t]);
        lemma_entries_named_contains(occ.drop_last(), t);
        let x = choose|x: int| 0 <= x < entries_named(occ.drop_last(), n).len() && entries_named(occ.drop_last(), n)[x] == occ[t].0;
        assert(entries_named(occ, n)[x] == occ[t].0);
    } else {
        let prev = entries_named(occ.drop_last(), n);
        assert(entries_named(occ, n)[prev.len() as int] == occ[t].0);
    }
}

/// Groups are in strictly increasing name order; each group holds exactly
/// the bindings of its name; every name that some binding has has a group.
proof fn lemma_groups_of(occ: Seq<(int, KeyCombo)>)
    ensures
        sorted_names(group_names(groups_of(occ))),
        forall|g: int| 0 <= g < groups_of(occ).len() ==> #[trigger] groups_of(occ)[g].members == entries_named(occ, groups_of(occ)[g].name),
        forall|n: Seq<char>| #[trigger] entries_named(occ, n).len() > 0 ==> exists|g: int|
            0 <= g < groups_of(occ).len() && groups_of(occ)[g].name == n,
    decreases occ.len(),
{
    if occ.len() > 0 {
        let prev_occ = occ.drop_last();
        lemma_groups_of(prev_occ);
        let gs = groups_of(prev_occ);
        let key = occ.last().1;
        let i = occ.last().0;
        let n0 = spec_key_name(key);
        let names = group_names(gs);
        lemma_insert_pos(names, n0);
        lemma_sorted_insert(names, n0);
        let p = insert_pos(names, n0);
        let gs2 = groups_of(occ);
        assert(gs2 == group_insert(gs, key, i));
        if p < gs.len() && gs[p].name == n0 {
            assert(group_names(gs2) =~= names);
            assert forall|g: int| 0 <= g < gs2.len() implies #[trigger] gs2[g].members == entries_named(occ, gs2[g].name) by {
                if g == p {
                } else {
                    assert(names[g] != n0) by {
                        if names[g] == n0 {
                            crate::text::lemma_seq_lt_irreflexive(n0);
                            if g < p {
                            } else {
                                assert(seq_lt(names[p], names[g]));
                            }
                        }
                    }
                }
            }
            assert forall|n: Seq<char>| #[trigger] entries_named(occ, n).len() > 0 implies exists|g: int|
                0 <= g < gs2.len() && gs2[g].name == n by {
                if n != n0 {
                    assert(entries_named(occ, n) =~= entries_named(prev_occ, n));
                    let g = choose|g: int| 0 <= g < gs.len() && gs[g].name == n;
                    assert(gs2[g].name == n);
                } else {
                    assert(gs2[p].name == n);
                }
            }
        } else {
            assert(group_names(gs2) =~= names.insert(p, n0));
            assert(entries_named(prev_occ, n0).len() == 0) by {
                if entries_named(prev_occ, n0).len() > 0 {
                    let g = choose|g: int| 0 <= g < gs.len() && gs[g].name == n0;
                    assert(names[g] == n0);
                }
            }
            assert forall|g: int| 0 <= g < gs2.len() implies #[trigger] gs2[g].members == entries_named(occ, gs2[g].name) by {
                if g == p {
                    assert(entries_named(occ, n0) =~= seq![i]);
                } else if g < p {
                    assert(gs2[g] == gs[g]);
                    assert(names[g] != n0);
                } else {
                    assert(gs2[g] == gs[g - 1]);
                    assert(names[g - 1] != n0);
                }
            }
            assert forall|n: Seq<char>| #[trigger] entries_named(occ, n).len() > 0 implies exists|g: int|
                0 <= g < gs2.len() && gs2[g].name == n by {
                if n != n0 {
                    assert(entries_named(occ, n) =~= entries_named(prev_occ, n));
                    let g = choose|g: int| 0 <= g < gs.len() && gs[g].name == n;
                    if g < p {
                        assert(gs2[g].name == n);
                    } else {
                        assert(gs2[g + 1].name == n);
                    }
                } else {
                    assert(gs2[p].name == n);
                }
            }
        }
    }
}

proof fn lemma_occurrences_complete<A>(es: Seq<EntryView<A>>, i: int, k: KeyCombo)
    requires
        0 <= i < es.len(),
        es[i].keys.contains(k),
    ensures
        exists|t: int| 0 <= t < occurrences(es).len() && occurrences(es)[t] == (i, k),
    decreases es.len(),
{
    let prev = occurrences(es.drop_last());
    if i < es.len() - 1 {
        assert(es.drop_last()[i] == es[i]);
        lemma_occurrences_complete(es.drop_last(), i, k);
        let t = choose|t: int| 0 <= t < prev.len() && prev[t] == (i, k);
        assert(occurrences(es)[t] == prev[t]);
    } else {
        let x = choose|x: int| 0 <= x < es[i].keys.len() && es[i].keys[x] == k;
        assert(occurrences(es)[prev.len() + x] == (i, k));
    }
}

/// When a round reverts nothing, no key is bound to two entries: two
/// bindings of one key share its name, so their entries are in conflict,
/// hence not overridden, hence on their disjoint defaults.
proof fn lemma_settled_disjoint<A>(es: Seq<EntryView<A>>)
    requires
        pre_ok(es),
        !reverts_any(es, groups_of(occurrences(es))),
    ensures
        keys_disjoint(es),
{
    let occ = occurrences(es);
    let gs = groups_of(occ);
    lemma_groups_of(occ);
    assert forall|i: int, j: int, k: KeyCombo|
        0 <= i < es.len() && 0 <= j < es.len() && i != j && #[trigger] es[i].keys.contains(k) implies !#[trigger] es[j].keys.contains(k) by {
        if es[j].keys.contains(k) {
            lemma_occurrences_complete(es, i, k);
            lemma_occurrences_complete(es, j, k);
            let ti = choose|t: int| 0 <= t < occ.len() && occ[t] == (i, k);
            let tj = choose|t: int| 0 <= t < occ.len() && occ[t] == (j, k);
            lemma_entries_named_contains(occ, ti);
            lemma_entries_named_contains(occ, tj);
            let n = spec_key_name(k);
            let members = entries_named(occ, n);
            let g = choose|g: int| 0 <= g < gs.len() && gs[g].name == n;
            assert(gs[g].members == members);
            let xi = choose|x: int| 0 <= x < members.len() && members[x] == i;
            let xj = choose|x: int| 0 <= x < members.len() && members[x] == j;
            assert(xi != xj);
            assert(members.len() >= 2);
            assert(gs[g].members.contains(i));
            assert(gs[g].members.contains(j));
            assert(in_conflict(gs, i));
            assert(in_conflict(gs, j));
            assert(entry_ok(es[i]));
            assert(entry_ok(es[j]));
            assert(es[i].default_keys.contains(k));
            assert(es[j].default_keys.contains(k));
        }
    }
}

proof fn lemma_revert_ok<A>(e: EntryView<A>)
    requires
        entry_ok(e),
    ensures
        entry_ok(revert(e)),
{
}

/// A round of reverts keeps the table consistent.
pub proof fn lemma_round_pre_ok<A>(es: Seq<EntryView<A>>, gs: Seq<Group>)
    requires
        pre_ok(es),
    ensures
        pre_ok(round_revert(es, gs)),
{
    let es2 = round_revert(es, gs);
    assert forall|i: int| 0 <= i < es2.len() implies entry_ok(#[trigger] es2[i]) by {
        lemma_revert_ok(es[i]);
    }
}

/// Conflict resolution keeps the table consistent and leaves every key
/// bound to at most one entry; it changes only keys and override marks.
proof fn lemma_resolve<A>(es: Seq<EntryView<A>>)
    requires
        pre_ok(es),
    ensures
        keymap_ok(resolve(es).0),
        resolve(es).0.len() == es.len(),
        forall|i: int| 0 <= i < es.len() ==> #[trigger] resolve(es).0[i] == es[i] || resolve(es).0[i] == revert(es[i]),
    decreases count_overridden(es),
{
    let gs = groups_of(occurrences(es));
    if reverts_any(es, gs) {
        let es2 = round_revert(es, gs);
        lemma_round_decreases(es, gs);
        assert forall|i: int| 0 <= i < es2.len() implies entry_ok(#[trigger] es2[i]) by {
            lemma_revert_ok(es[i]);
        }
        assert(pre_ok(es2));
        lemma_resolve(es2);
        assert forall|i: int| 0 <= i < es.len() implies #[trigger] resolve(es).0[i] == es[i] || resolve(es).0[i] == revert(es[i]) by {
            assert(resolve(es).0[i] == resolve(es2).0[i]);
            assert(revert(revert(es[i])) == revert(es[i]));
        }
    } else {
        lemma_settled_disjoint(es);
    }
}

/// Replacing one entry by another with the same action and defaults, itself
/// consistent, keeps the table consistent.
proof fn lemma_update_pre_ok<A>(es: Seq<EntryView<A>>, i: int, e: EntryView<A>)
    requires
        pre_ok(es),
        0 <= i < es.len(),
        e.action == es[i].action,
        e.default_keys == es[i].default_keys,
        entry_ok(e),
    ensures
        pre_ok(es.update(i, e)),
{
    let es2 = es.update(i, e);
    assert forall|a: int| 0 <= a < es2.len() implies entry_ok(#[trigger] es2[a]) by {
        if a != i {
            assert(es2[a] == es[a]);
        }
    }
    assert forall|a: int, b: int| 0 <= a < b < es2.len() implies es2[a].action != es2[b].action by {
        assert(es2[a].action == es[a].action);
        assert(es2[b].action == es[b].action);
    }
    assert forall|a: int, b: int, k: KeyCombo|
        0 <= a < es2.len() && 0 <= b < es2.len() && a != b && #[trigger] es2[a].default_keys.contains(k) implies !#[trigger] es2[b].default_keys.contains(k) by {
        assert(es2[a].default_keys == es[a].default_keys);
        assert(es2[b].default_keys == es[b].default_keys);
    }
}

/// One override keeps the table consistent.
pub proof fn lemma_apply_override_ok<A>(
    st: (Seq<EntryView<A>>, Seq<WarningView>),
    name: Seq<char>,
    value: Option<Seq<Seq<char>>>,
)
    requires
        pre_ok(st.0),
    ensures
        pre_ok(apply_override(st, name, value).0),
        apply_override(st, name, value).0.len() == st.0.len(),
{
    reveal(find_name);
    let es = st.0;
    if exists|i: int| 0 <= i < es.len() && es[i].name == name {
        let w = choose|i: int| 0 <= i < es.len() && es[i].name == name;
        lemma_first_index(es, name, w);
        let i = find_name(es, name)->Some_0;
        lemma_after_override(es[i], value);
        lemma_update_pre_ok(es, i, after_override(es[i], value));
    }
}

/// A name that some entry has has a first entry with it.
pub proof fn lemma_first_index<A>(es: Seq<EntryView<A>>, name: Seq<char>, w: int)
    requires
        0 <= w < es.len(),
        es[w].name == name,
    ensures
        find_name(es, name) is Some,
        0 <= find_name(es, name)->Some_0 <= w,
        es[find_name(es, name)->Some_0].name == name,
        forall|j: int| 0 <= j < find_name(es, name)->Some_0 ==> es[j].name != name,
    decreases w,
{
    reveal(find_name);
    if exists|j: int| 0 <= j < w && es[j].name == name {
        let j = choose|j: int| 0 <= j < w && es[j].name == name;
        lemma_first_index(es, name, j);
    } else {
        assert(0 <= w < es.len() && es[w].name == name && forall|j: int| 0 <= j < w ==> es[j].name != name);
    }
}

proof fn lemma_apply_overrides<A>(es: Seq<EntryView<A>>, ovs: Seq<(Seq<char>, Option<Seq<Seq<char>>>)>)
    requires
        pre_ok(es),
    ensures
        pre_ok(apply_overrides(es, ovs).0),
        apply_overrides(es, ovs).0.len() == es.len(),
    decreases ovs.len(),
{
    if ovs.len() > 0 {
        lemma_apply_overrides(es, ovs.drop_last());
        lemma_apply_override_ok(apply_overrides(es, ovs.drop_last()), ovs.last().0, ovs.last().1);
    }
}

/// After a merge the keymap is consistent again; in particular no key is
/// bound to two actions, whatever the overrides said.
pub proof fn lemma_merge_ok<A>(es: Seq<EntryView<A>>, ovs: Seq<(Seq<char>, Option<Seq<Seq<char>>>)>)
    requires
        keymap_ok(es),
    ensures
        keymap_ok(spec_merge(es, ovs).0),
        spec_merge(es, ovs).0.len() == es.len(),
{
    lemma_apply_overrides(es, ovs);
    lemma_resolve(apply_overrides(es, ovs).0);
}


/// `find_name` looks at names only.
proof fn lemma_find_name_names<A>(es: Seq<EntryView<A>>, es2: Seq<EntryView<A>>, name: Seq<char>)
    requires
        es.len() == es2.len(),
        forall|j: int| 0 <= j < es.len() ==> #[trigger] es[j].name == es2[j].name,
    ensures
        find_name(es, name) == find_name(es2, name),
{
    reveal(find_name);
    if exists|i: int| 0 <= i < es.len() && es[i].name == name {
        let w = choose|i: int| 0 <= i < es.len() && es[i].name == name;
        lemma_first_index(es, name, w);
        assert(es2[w].name == name);
        lemma_first_index(es2, name, w);
        let a = find_name(es, name)->Some_0;
        let b = find_name(es2, name)->Some_0;
        if a < b {
            assert(es2[a].name == name);
        } else if b < a {
            assert(es[b].name == name);
        }
    } else {
        assert(!exists|i: int| 0 <= i < es2.len() && es2[i].name == name) by {
            if exists|i: int| 0 <= i < es2.len() && es2[i].name == name {
                let w = choose|i: int| 0 <= i < es2.len() && es2[i].name == name;
                assert(es[w].name == name);
            }
        }
    }
}

/// The override at position `t` names entry `i`.
pub open spec fn targets<A>(es: Seq<EntryView<A>>, ovs: Seq<(Seq<char>, Option<Seq<Seq<char>>>)>, t: int, i: int) -> bool {
    0 <= t < ovs.len() && find_name(es, ovs[t].0) == Some(i)
}

/// `find_name` finds an entry with the name.
proof fn lemma_find_name_some<A>(es: Seq<EntryView<A>>, name: Seq<char>)
    requires
        find_name(es, name) is Some,
    ensures
        0 <= find_name(es, name)->Some_0 < es.len(),
        es[find_name(es, name)->Some_0].name == name,
{
    reveal(find_name);
    let w = choose|i: int| 0 <= i < es.len() && es[i].name == name;
    lemma_first_index(es, name, w);
}

/// At most one override names a given entry.
proof fn lemma_unique_target<A>(
    es: Seq<EntryView<A>>,
    ovs: Seq<(Seq<char>, Option<Seq<Seq<char>>>)>,
    t1: int,
    t2: int,
    j: int,
)
    requires
        sorted_names(override_names(ovs)),
        targets(es, ovs, t1, j),
        targets(es, ovs, t2, j),
    ensures
        t1 == t2,
{
    lemma_find_name_some(es, ovs[t1].0);
    lemma_find_name_some(es, ovs[t2].0);
    assert(override_names(ovs)[t1] == ovs[t1].0);
    assert(override_names(ovs)[t2] == ovs[t2].0);
    crate::text::lemma_seq_lt_irreflexive(ovs[t1].0);
}

/// Applying overrides keeps the number of entries and their names, actions,
/// defaults and descriptions.
proof fn lemma_apply_overrides_shape<A>(
    es: Seq<EntryView<A>>,
    ovs: Seq<(Seq<char>, Option<Seq<Seq<char>>>)>,
)
    ensures
        apply_overrides(es, ovs).0.len() == es.len(),
        forall|j: int|
            0 <= j < es.len() ==> (#[trigger] apply_overrides(es, ovs).0[j]).name == es[j].name
                && apply_overrides(es, ovs).0[j].action == es[j].action
                && apply_overrides(es, ovs).0[j].default_keys == es[j].default_keys
                && apply_overrides(es, ovs).0[j].desc == es[j].desc,
    decreases ovs.len(),
{
    if ovs.len() > 0 {
        lemma_apply_overrides_shape(es, ovs.drop_last());
        let prev = apply_overrides(es, ovs.drop_last()).0;
        if find_name(prev, ovs.last().0) is Some {
            lemma_find_name_some(prev, ovs.last().0);
            lemma_after_override(prev[find_name(prev, ovs.last().0)->Some_0], ovs.last().1);
        }
    }
}

/// The entry in the state after the first `u` overrides.
spec fn entry_after<A>(es: Seq<EntryView<A>>, ovs: Seq<(Seq<char>, Option<Seq<Seq<char>>>)>, u: int, j: int) -> EntryView<A> {
    apply_overrides(es, ovs.take(u)).0[j]
}

/// An entry that no override among the first `u` names is unchanged.
proof fn lemma_untargeted<A>(
    es: Seq<EntryView<A>>,
    ovs: Seq<(Seq<char>, Option<Seq<Seq<char>>>)>,
    u: int,
    j: int,
)
    requires
        0 <= u <= ovs.len(),
        0 <= j < es.len(),
        forall|t: int| 0 <= t < u ==> !targets(es, ovs, t, j),
    ensures
        entry_after(es, ovs, u, j) == es[j],
    decreases u,
{
    if u > 0 {
        lemma_untargeted(es, ovs, u - 1, j);
        assert(ovs.take(u).drop_last() =~= ovs.take(u - 1));
        assert(ovs.take(u).last() == ovs[u - 1]);
        let prev = apply_overrides(es, ovs.take(u - 1)).0;
        lemma_apply_overrides_shape(es, ovs.take(u - 1));
        lemma_find_name_names(es, prev, ovs[u - 1].0);
        assert(!targets(es, ovs, u - 1, j));
        if find_name(prev, ovs[u - 1].0) is Some {
            lemma_find_name_some(prev, ovs[u - 1].0);
        }
    } else {
        assert(ovs.take(0) =~= Seq::<(Seq<char>, Option<Seq<Seq<char>>>)>::empty());
    }
}

/// An entry that override `t` names ends as that override makes it.
proof fn lemma_targeted<A>(
    es: Seq<EntryView<A>>,
    ovs: Seq<(Seq<char>, Option<Seq<Seq<char>>>)>,
    t: int,
    u: int,
    j: int,
)
    requires
        sorted_names(override_names(ovs)),
        0 <= t < u <= ovs.len(),
        targets(es, ovs, t, j),
    ensures
        entry_after(es, ovs, u, j) == after_override(es[j], ovs[t].1),
    decreases u,
{
    lemma_find_name_some(es, ovs[t].0);
    assert(ovs.take(u).drop_last() =~= ovs.take(u - 1));
    assert(ovs.take(u).last() == ovs[u - 1]);
    let prev = apply_overrides(es, ovs.take(u - 1)).0;
    lemma_apply_overrides_shape(es, ovs.take(u - 1));
    lemma_find_name_names(es, prev, ovs[u - 1].0);
    if u - 1 == t {
        assert forall|x: int| 0 <= x < t implies !targets(es, ovs, x, j) by {
            if targets(es, ovs, x, j) {
                lemma_unique_target(es, ovs, x, t, j);
            }
        }
        lemma_untargeted(es, ovs, t, j);
    } else {
        lemma_targeted(es, ovs, t, u - 1, j);
        if targets(es, ovs, u - 1, j) {
            lemma_unique_target(es, ovs, u - 1, t, j);
        }
        if find_name(prev, ovs[u - 1].0) is Some {
            lemma_find_name_some(prev, ovs[u - 1].0);
        }
    }
}

/// Warnings only accumulate while overrides are applied.
proof fn lemma_apply_overrides_warnings<A>(
    es: Seq<EntryView<A>>,
    ovs: Seq<(Seq<char>, Option<Seq<Seq<char>>>)>,
    t: int,
    u: int,
)
    requires
        0 <= t <= u <= ovs.len(),
    ensures
        apply_overrides(es, ovs.take(u)).1.take(apply_overrides(es, ovs.take(t)).1.len() as int)
            == apply_overrides(es, ovs.take(t)).1,
        apply_overrides(es, ovs.take(t)).1.len() <= apply_overrides(es, ovs.take(u)).1.len(),
    decreases u - t,
{
    if u > t {
        lemma_apply_overrides_warnings(es, ovs, t, u - 1);
        assert(ovs.take(u).drop_last() =~= ovs.take(u - 1));
        let a = apply_overrides(es, ovs.take(t)).1;
        let b = apply_overrides(es, ovs.take(u - 1)).1;
        let c = apply_overrides(es, ovs.take(u)).1;
        assert(c.take(b.len() as int) =~= b);
        assert(c.take(a.len() as int) =~= b.take(a.len() as int));
    } else {
        let a = apply_overrides(es, ovs.take(t)).1;
        assert(a.take(a.len() as int) =~= a);
    }
}

/// The warnings of the override at position `t`.
pub open spec fn step_warnings<A>(es: Seq<EntryView<A>>, name: Seq<char>, value: Option<Seq<Seq<char>>>) -> Seq<WarningView> {
    match find_name(es, name) {
        None => seq![WarningView::UnknownAction { name }],
        Some(_) => override_warnings(name, value),
    }
}

proof fn lemma_step_warnings_in_merge<A>(
    es: Seq<EntryView<A>>,
    ovs: Seq<(Seq<char>, Option<Seq<Seq<char>>>)>,
    t: int,
    x: int,
)
    requires
        sorted_names(override_names(ovs)),
        0 <= t < ovs.len(),
        0 <= x < step_warnings(es, ovs[t].0, ovs[t].1).len(),
    ensures
        spec_merge(es, ovs).1.contains(step_warnings(es, ovs[t].0, ovs[t].1)[x]),
{
    let prev = apply_overrides(es, ovs.take(t));
    lemma_apply_overrides_shape(es, ovs.take(t));
    lemma_find_name_names(es, prev.0, ovs[t].0);
    assert(ovs.take(t + 1).drop_last() =~= ovs.take(t));
    assert(ovs.take(t + 1).last() == ovs[t]);
    let after = apply_overrides(es, ovs.take(t + 1)).1;
    let w = step_warnings(es, ovs[t].0, ovs[t].1);
    assert(after =~= prev.1 + w);
    lemma_apply_overrides_warnings(es, ovs, t + 1, ovs.len() as int);
    assert(ovs.take(ovs.len() as int) =~= ovs);
    let all = apply_overrides(es, ovs).1;
    assert(all[prev.1.len() + x] == after[prev.1.len() + x]);
    let m = spec_merge(es, ovs).1;
    assert(m[prev.1.len() + x] == all[prev.1.len() + x]);
}

proof fn lemma_occurrences_sound<A>(es: Seq<EntryView<A>>, t: int)
    requires
        0 <= t < occurrences(es).len(),
    ensures
        0 <= occurrences(es)[t].0 < es.len(),
        es[occurrences(es)[t].0].keys.contains(occurrences(es)[t].1),
    decreases es.len(),
{
    let prev = occurrences(es.drop_last());
    if t < prev.len() {
        lemma_occurrences_sound(es.drop_last(), t);
        assert(occurrences(es)[t] == prev[t]);
    } else {
        let x = t - prev.len();
        assert(occurrences(es)[t] == (es.len() - 1, es.last().keys[x]));
        assert(es.last().keys.contains(es.last().keys[x]));
    }
}

proof fn lemma_entries_named_from(occ: Seq<(int, KeyCombo)>, n: Seq<char>, x: int)
    requires
        0 <= x < entries_named(occ, n).len(),
    ensures
        exists|t: int|
            0 <= t < occ.len() && occ[t].0 == entries_named(occ, n)[x] && spec_key_name(occ[t].1) == n,
    decreases occ.len(),
{
    let prev = entries_named(occ.drop_last(), n);
    if x < prev.len() {
        lemma_entries_named_from(occ.drop_last(), n, x);
        let t = choose|t: int|
            0 <= t < occ.drop_last().len() && occ.drop_last()[t].0 == prev[x] && spec_key_name(occ.drop_last()[t].1) == n;
        assert(occ[t] == occ.drop_last()[t]);
    } else {
        assert(spec_key_name(occ.last().1) == n);
        assert(occ[occ.len() - 1].0 == entries_named(occ, n)[x]);
    }
}

/// An entry in conflict has keys.
proof fn lemma_conflict_has_keys<A>(es: Seq<EntryView<A>>, i: int)
    requires
        in_conflict(groups_of(occurrences(es)), i),
    ensures
        es[i].keys.len() > 0,
        0 <= i < es.len(),
{
    let occ = occurrences(es);
    let gs = groups_of(occ);
    lemma_groups_of(occ);
    let g = choose|g: int| 0 <= g < gs.len() && gs[g].members.len() >= 2 && #[trigger] gs[g].members.contains(i);
    let x = choose|x: int| 0 <= x < gs[g].members.len() && gs[g].members[x] == i;
    lemma_entries_named_from(occ, gs[g].name, x);
    let t = choose|t: int| 0 <= t < occ.len() && occ[t].0 == entries_named(occ, gs[g].name)[x];
    lemma_occurrences_sound(es, t);
}

/// Conflict resolution never touches an entry without keys.
proof fn lemma_resolve_keyless<A>(es: Seq<EntryView<A>>, i: int)
    requires
        0 <= i < es.len(),
        es[i].keys.len() == 0,
    ensures
        resolve(es).0.len() == es.len(),
        resolve(es).0[i] == es[i],
    decreases count_overridden(es),
{
    let gs = groups_of(occurrences(es));
    if in_conflict(gs, i) {
        lemma_conflict_has_keys(es, i);
    }
    if reverts_any(es, gs) {
        lemma_round_decreases(es, gs);
        lemma_resolve_keyless(round_revert(es, gs), i);
    }
}

proof fn lemma_resolve_len<A>(es: Seq<EntryView<A>>)
    ensures
        resolve(es).0.len() == es.len(),
    decreases count_overridden(es),
{
    let gs = groups_of(occurrences(es));
    if reverts_any(es, gs) {
        lemma_round_decreases(es, gs);
        lemma_resolve_len(round_revert(es, gs));
    }
}

/// Every key of a consistent keymap selects its own entry's action.
pub proof fn law_lookup_finds_binding<A>(es: Seq<EntryView<A>>, i: int, k: KeyCombo)
    requires
        keymap_ok(es),
        0 <= i < es.len(),
        es[i].keys.contains(k),
    ensures
        spec_action_for(es, k) == Some(es[i].action),
        k == crate::keymap::key::canonical(k),
{
    let c = choose|c: int| 0 <= c < es.len() && es[c].keys.contains(k);
    assert(c == i);
}

/// An override that names an action and parses replaces the action's keys
/// entirely; only a conflict with another binding can put the action back on
/// its defaults instead, and then it is no longer marked overridden.
pub proof fn law_override_replaces_keys<A>(
    es: Seq<EntryView<A>>,
    ovs: Seq<(Seq<char>, Option<Seq<Seq<char>>>)>,
    t: int,
)
    requires
        keymap_ok(es),
        sorted_names(override_names(ovs)),
        0 <= t < ovs.len(),
        find_name(es, ovs[t].0) is Some,
        ovs[t].1 matches Some(raws) && spec_parse_keys(raws) is Ok,
    ensures
        ({
            let i = find_name(es, ovs[t].0)->Some_0;
            let p = spec_parse_keys(ovs[t].1->Some_0)->Ok_0;
            let f = spec_merge(es, ovs).0[i];
            &&& f.overridden ==> f.keys == p
            &&& !f.overridden ==> f.keys == es[i].default_keys
            &&& f.keys == p || f.keys == es[i].default_keys
        }),
{
    let i = find_name(es, ovs[t].0)->Some_0;
    lemma_find_name_some(es, ovs[t].0);
    lemma_targeted(es, ovs, t, ovs.len() as int, i);
    assert(ovs.take(ovs.len() as int) =~= ovs);
    let e1 = apply_overrides(es, ovs).0;
    assert(e1[i] == entry_after(es, ovs, ovs.len() as int, i));
    lemma_apply_overrides_shape(es, ovs);
    reveal(after_override);
    reveal(override_warnings);
    lemma_apply_overrides(es, ovs);
    lemma_resolve(e1);
}

/// An override that names an action but whose value has the wrong type, or
/// whose keys do not parse, puts the action back on its default keys (even
/// over an earlier merge's override) and is reported.
pub proof fn law_bad_override_reverts<A>(
    es: Seq<EntryView<A>>,
    ovs: Seq<(Seq<char>, Option<Seq<Seq<char>>>)>,
    t: int,
)
    requires
        keymap_ok(es),
        sorted_names(override_names(ovs)),
        0 <= t < ovs.len(),
        find_name(es, ovs[t].0) is Some,
        !(ovs[t].1 matches Some(raws) && spec_parse_keys(raws) is Ok),
    ensures
        spec_merge(es, ovs).0[find_name(es, ovs[t].0)->Some_0] == revert(es[find_name(es, ovs[t].0)->Some_0]),
        override_warnings(ovs[t].0, ovs[t].1).len() == 1,
        spec_merge(es, ovs).1.contains(override_warnings(ovs[t].0, ovs[t].1)[0]),
{
    let i = find_name(es, ovs[t].0)->Some_0;
    lemma_find_name_some(es, ovs[t].0);
    lemma_targeted(es, ovs, t, ovs.len() as int, i);
    assert(ovs.take(ovs.len() as int) =~= ovs);
    let e1 = apply_overrides(es, ovs).0;
    assert(e1[i] == entry_after(es, ovs, ovs.len() as int, i));
    lemma_apply_overrides_shape(es, ovs);
    reveal(after_override);
    reveal(override_warnings);
    lemma_apply_overrides(es, ovs);
    lemma_resolve(e1);
    assert(entry_ok(e1[i]));
    lemma_step_warnings_in_merge(es, ovs, t, 0);
}

/// An explicit empty key list unbinds its action, without a warning of its own.
pub proof fn law_empty_override_unbinds<A>(
    es: Seq<EntryView<A>>,
    ovs: Seq<(Seq<char>, Option<Seq<Seq<char>>>)>,
    t: int,
)
    requires
        keymap_ok(es),
        sorted_names(override_names(ovs)),
        0 <= t < ovs.len(),
        find_name(es, ovs[t].0) is Some,
        ovs[t].1 == Some(Seq::<Seq<char>>::empty()),
    ensures
        spec_merge(es, ovs).0[find_name(es, ovs[t].0)->Some_0].keys == Seq::<KeyCombo>::empty(),
        override_warnings(ovs[t].0, ovs[t].1) == Seq::<WarningView>::empty(),
{
    let i = find_name(es, ovs[t].0)->Some_0;
    lemma_find_name_some(es, ovs[t].0);
    lemma_targeted(es, ovs, t, ovs.len() as int, i);
    assert(ovs.take(ovs.len() as int) =~= ovs);
    let e1 = apply_overrides(es, ovs).0;
    assert(e1[i] == entry_after(es, ovs, ovs.len() as int, i));
    lemma_apply_overrides_shape(es, ovs);
    reveal(after_override);
    reveal(override_warnings);
    assert(spec_parse_keys(Seq::<Seq<char>>::empty()) == Ok::<Seq<KeyCombo>, (Seq<char>, Seq<char>)>(Seq::empty()));
    lemma_resolve_keyless(e1, i);
}

/// An action that no override names keeps its keys, unless it had been
/// overridden by an earlier merge and now conflicts, in which case it falls
/// back to its defaults; an action on its defaults keeps them.
pub proof fn law_unnamed_action_kept<A>(
    es: Seq<EntryView<A>>,
    ovs: Seq<(Seq<char>, Option<Seq<Seq<char>>>)>,
    i: int,
)
    requires
        keymap_ok(es),
        sorted_names(override_names(ovs)),
        0 <= i < es.len(),
        forall|t: int| 0 <= t < ovs.len() ==> find_name(es, #[trigger] ovs[t].0) != Some(i),
    ensures
        spec_merge(es, ovs).0[i] == es[i] || spec_merge(es, ovs).0[i] == revert(es[i]),
        !es[i].overridden ==> spec_merge(es, ovs).0[i] == es[i],
{
    lemma_untargeted(es, ovs, ovs.len() as int, i);
    assert(ovs.take(ovs.len() as int) =~= ovs);
    let e1 = apply_overrides(es, ovs).0;
    assert(e1[i] == entry_after(es, ovs, ovs.len() as int, i));
    lemma_apply_overrides_shape(es, ovs);
    reveal(after_override);
    reveal(override_warnings);
    lemma_apply_overrides(es, ovs);
    lemma_resolve(e1);
    assert(entry_ok(es[i]));
}

/// An override that names no action is reported and changes nothing.
pub proof fn law_unknown_action_reported<A>(
    es: Seq<EntryView<A>>,
    ovs: Seq<(Seq<char>, Option<Seq<Seq<char>>>)>,
    t: int,
)
    requires
        sorted_names(override_names(ovs)),
        0 <= t < ovs.len(),
        find_name(es, ovs[t].0) is None,
    ensures
        spec_merge(es, ovs).1.contains(WarningView::UnknownAction { name: ovs[t].0 }),
{
    lemma_step_warnings_in_merge(es, ovs, t, 0);
}

/// The names of keys, in crokey's standard format.
pub open spec fn key_names(ks: Seq<KeyCombo>) -> Seq<Seq<char>> {
    ks.map_values(|k: KeyCombo| spec_key_name(k))
}

/// No two entries share a config name.
pub open spec fn names_distinct<A>(es: Seq<EntryView<A>>) -> bool {
    forall|i: int, j: int| 0 <= i < j < es.len() ==> es[i].name != es[j].name
}

/// crokey reads every default key back from its own name.
pub open spec fn defaults_round_trip<A>(es: Seq<EntryView<A>>) -> bool {
    forall|i: int, k: KeyCombo|
        0 <= i < es.len() && #[trigger] es[i].default_keys.contains(k) ==> spec_parse_key(spec_key_name(k)) == Ok::<
            KeyCombo,
            Seq<char>,
        >(k)
}

/// What the configuration template reads back as: in name order, one
/// override per entry, giving the names of its default keys.
pub open spec fn reads_template<A>(es: Seq<EntryView<A>>, ovs: Seq<(Seq<char>, Option<Seq<Seq<char>>>)>) -> bool {
    &&& sorted_names(override_names(ovs))
    &&& forall|t: int|
        0 <= t < ovs.len() ==> exists|i: int|
            0 <= i < es.len() && #[trigger] ovs[t] == (es[i].name, Some(key_names(es[i].default_keys)))
    &&& forall|i: int|
        0 <= i < es.len() ==> exists|t: int| 0 <= t < ovs.len() && #[trigger] ovs[t].0 == #[trigger] es[i].name
}

proof fn lemma_parse_names(d: Seq<KeyCombo>)
    requires
        distinct_keys(d),
        forall|k: KeyCombo| #[trigger] d.contains(k) ==> spec_parse_key(spec_key_name(k)) == Ok::<KeyCombo, Seq<char>>(k),
    ensures
        spec_parse_keys(key_names(d)) == Ok::<Seq<KeyCombo>, (Seq<char>, Seq<char>)>(d),
    decreases d.len(),
{
    if d.len() > 0 {
        let p = d.drop_last();
        assert forall|k: KeyCombo| #[trigger] p.contains(k) implies spec_parse_key(spec_key_name(k)) == Ok::<KeyCombo, Seq<char>>(k) by {
            let x = choose|x: int| 0 <= x < p.len() && p[x] == k;
            assert(d[x] == k);
            assert(d.contains(k));
        }
        lemma_parse_names(p);
        assert(key_names(d).drop_last() =~= key_names(p));
        assert(d.contains(d.last()));
        assert(!p.contains(d.last())) by {
            if p.contains(d.last()) {
                let x = choose|x: int| 0 <= x < p.len() && p[x] == d.last();
                assert(d[x] == d[d.len() - 1]);
            }
        }
        assert(p.push(d.last()) =~= d);
    } else {
        assert(key_names(d) =~= Seq::<Seq<char>>::empty());
        assert(d =~= Seq::<KeyCombo>::empty());
    }
}

/// The override of entry `i` in a read-back template.
proof fn lemma_template_override<A>(es: Seq<EntryView<A>>, ovs: Seq<(Seq<char>, Option<Seq<Seq<char>>>)>, t: int) -> (i: int)
    requires
        keymap_ok(es),
        names_distinct(es),
        defaults_round_trip(es),
        reads_template(es, ovs),
        0 <= t < ovs.len(),
    ensures
        0 <= i < es.len(),
        find_name(es, ovs[t].0) == Some(i),
        ovs[t] == (es[i].name, Some(key_names(es[i].default_keys))),
        spec_parse_keys(key_names(es[i].default_keys)) == Ok::<Seq<KeyCombo>, (Seq<char>, Seq<char>)>(es[i].default_keys),
{
    let i = choose|i: int| 0 <= i < es.len() && ovs[t] == (es[i].name, Some(key_names(es[i].default_keys)));
    lemma_first_index(es, es[i].name, i);
    let f = find_name(es, es[i].name)->Some_0;
    if f != i {
        assert(es[f].name != es[i].name);
    }
    assert(entry_ok(es[i]));
    assert forall|k: KeyCombo| #[trigger] es[i].default_keys.contains(k) implies spec_parse_key(spec_key_name(k)) == Ok::<KeyCombo, Seq<char>>(k) by {
    }
    lemma_parse_names(es[i].default_keys);
    i
}

proof fn lemma_template_no_warnings<A>(es: Seq<EntryView<A>>, ovs: Seq<(Seq<char>, Option<Seq<Seq<char>>>)>, u: int)
    requires
        keymap_ok(es),
        names_distinct(es),
        defaults_round_trip(es),
        reads_template(es, ovs),
        0 <= u <= ovs.len(),
    ensures
        apply_overrides(es, ovs.take(u)).1 == Seq::<WarningView>::empty(),
    decreases u,
{
    if u == 0 {
        assert(ovs.take(0) =~= Seq::<(Seq<char>, Option<Seq<Seq<char>>>)>::empty());
    } else {
        lemma_template_no_warnings(es, ovs, u - 1);
        let pre = ovs.take(u - 1);
        assert(ovs.take(u).drop_last() =~= pre);
        assert(ovs.take(u).last() == ovs[u - 1]);
        let st = apply_overrides(es, pre);
        lemma_apply_overrides_shape(es, pre);
        lemma_find_name_names(es, st.0, ovs[u - 1].0);
        let i = lemma_template_override(es, ovs, u - 1);
        reveal(override_warnings);
        assert(apply_overrides(es, ovs.take(u)).1 =~= Seq::<WarningView>::empty());
    }
}

proof fn lemma_entries_named_two(occ: Seq<(int, KeyCombo)>, n: Seq<char>)
    requires
        entries_named(occ, n).len() >= 1,
    ensures
        exists|t: int| 0 <= t < occ.len() && spec_key_name(occ[t].1) == n,
        entries_named(occ, n).len() >= 2 ==> exists|t1: int, t2: int|
            0 <= t1 < t2 < occ.len() && spec_key_name(#[trigger] occ[t1].1) == n && spec_key_name(
                #[trigger] occ[t2].1,
            ) == n,
    decreases occ.len(),
{
    let prev = occ.drop_last();
    let last_match = spec_key_name(occ.last().1) == n;
    if entries_named(prev, n).len() >= 1 {
        lemma_entries_named_two(prev, n);
        let t = choose|t: int| 0 <= t < prev.len() && spec_key_name(prev[t].1) == n;
        assert(occ[t] == prev[t]);
        if entries_named(occ, n).len() >= 2 {
            if entries_named(prev, n).len() >= 2 {
                let (t1, t2) = choose|t1: int, t2: int|
                    0 <= t1 < t2 < prev.len() && spec_key_name(#[trigger] prev[t1].1) == n && spec_key_name(#[trigger] prev[t2].1) == n;
                assert(occ[t1] == prev[t1]);
                assert(occ[t2] == prev[t2]);
            } else {
                assert(last_match);
                assert(spec_key_name(occ[occ.len() - 1].1) == n);
            }
        }
    } else {
        assert(last_match);
        assert(spec_key_name(occ[occ.len() - 1].1) == n);
    }
}

proof fn lemma_occurrences_unique<A>(es: Seq<EntryView<A>>, t1: int, t2: int)
    requires
        forall|i: int| 0 <= i < es.len() ==> distinct_keys(#[trigger] es[i].keys),
        0 <= t1 < t2 < occurrences(es).len(),
    ensures
        occurrences(es)[t1] != occurrences(es)[t2],
    decreases es.len(),
{
    let prev = occurrences(es.drop_last());
    let n = es.len() - 1;
    if t2 < prev.len() {
        assert forall|i: int| 0 <= i < es.drop_last().len() implies distinct_keys(#[trigger] es.drop_last()[i].keys) by {
            assert(es.drop_last()[i] == es[i]);
        }
        lemma_occurrences_unique(es.drop_last(), t1, t2);
        assert(occurrences(es)[t1] == prev[t1]);
        assert(occurrences(es)[t2] == prev[t2]);
    } else if t1 < prev.len() {
        lemma_occurrences_sound(es.drop_last(), t1);
        assert(occurrences(es)[t1] == prev[t1]);
        assert(occurrences(es)[t2].0 == n);
    } else {
        let x1 = t1 - prev.len();
        let x2 = t2 - prev.len();
        assert(occurrences(es)[t1] == (n, es.last().keys[x1]));
        assert(occurrences(es)[t2] == (n, es.last().keys[x2]));
        assert(distinct_keys(es[n].keys));
    }
}

proof fn lemma_conflict_warnings_empty<A>(es: Seq<EntryView<A>>, gs: Seq<Group>)
    requires
        forall|g: int| 0 <= g < gs.len() ==> #[trigger] gs[g].members.len() < 2,
    ensures
        conflict_warnings(es, gs) == Seq::<WarningView>::empty(),
    decreases gs.len(),
{
    if gs.len() > 0 {
        assert forall|g: int| 0 <= g < gs.drop_last().len() implies #[trigger] gs.drop_last()[g].members.len() < 2 by {
            assert(gs.drop_last()[g] == gs[g]);
        }
        lemma_conflict_warnings_empty(es, gs.drop_last());
        assert(gs.last() == gs[gs.len() - 1]);
        assert(conflict_warnings(es, gs) =~= Seq::<WarningView>::empty());
    }
}

/// A table on its defaults, whose key names read back as the same keys,
/// has no group of two bindings.
proof fn lemma_no_conflicts<A>(es: Seq<EntryView<A>>)
    requires
        pre_ok(es),
        forall|i: int| 0 <= i < es.len() ==> #[trigger] es[i].keys == es[i].default_keys,
        defaults_round_trip(es),
    ensures
        resolve(es) == (es, Seq::<WarningView>::empty()),
{
    let occ = occurrences(es);
    let gs = groups_of(occ);
    lemma_groups_of(occ);
    assert forall|g: int| 0 <= g < gs.len() implies #[trigger] gs[g].members.len() < 2 by {
        let n = gs[g].name;
        if gs[g].members.len() >= 2 {
            assert(entries_named(occ, n).len() >= 2);
            lemma_entries_named_two(occ, n);
            let (t1, t2) = choose|t1: int, t2: int|
                0 <= t1 < t2 < occ.len() && spec_key_name(#[trigger] occ[t1].1) == n && spec_key_name(#[trigger] occ[t2].1) == n;
            lemma_occurrences_sound(es, t1);
            lemma_occurrences_sound(es, t2);
            assert forall|i: int| 0 <= i < es.len() implies distinct_keys(#[trigger] es[i].keys) by {
                assert(entry_ok(es[i]));
            }
            lemma_occurrences_unique(es, t1, t2);
            let (i1, k1) = occ[t1];
            let (i2, k2) = occ[t2];
            assert(es[i1].default_keys.contains(k1));
            assert(es[i2].default_keys.contains(k2));
            assert(spec_parse_key(spec_key_name(k1)) == Ok::<KeyCombo, Seq<char>>(k1));
            assert(spec_parse_key(spec_key_name(k2)) == Ok::<KeyCombo, Seq<char>>(k2));
            assert(k1 == k2);
            assert(i1 != i2);
        }
    }
    assert(!reverts_any(es, gs)) by {
        if reverts_any(es, gs) {
            let i = choose|i: int| 0 <= i < es.len() && es[i].overridden && in_conflict(gs, i);
            let g = choose|g: int| 0 <= g < gs.len() && gs[g].members.len() >= 2 && #[trigger] gs[g].members.contains(i);
        }
    }
    lemma_conflict_warnings_empty(es, gs);
}

/// The configuration template round-trips: reading it back and merging it
/// into a keymap reports nothing and leaves every action on its default
/// keys. This holds when action config names are distinct (the template is
/// then valid TOML) and crokey reads each default key back from its name.
pub proof fn law_template_round_trips<A>(es: Seq<EntryView<A>>, ovs: Seq<(Seq<char>, Option<Seq<Seq<char>>>)>)
    requires
        keymap_ok(es),
        names_distinct(es),
        defaults_round_trip(es),
        reads_template(es, ovs),
    ensures
        spec_merge(es, ovs).1 == Seq::<WarningView>::empty(),
        spec_merge(es, ovs).0.len() == es.len(),
        forall|i: int| 0 <= i < es.len() ==> #[trigger] spec_merge(es, ovs).0[i].keys == es[i].default_keys,
{
    lemma_template_no_warnings(es, ovs, ovs.len() as int);
    assert(ovs.take(ovs.len() as int) =~= ovs);
    let e1 = apply_overrides(es, ovs).0;
    lemma_apply_overrides(es, ovs);
    lemma_apply_overrides_shape(es, ovs);
    assert forall|i: int| 0 <= i < es.len() implies #[trigger] e1[i].keys == e1[i].default_keys by {
        let t = choose|t: int| 0 <= t < ovs.len() && #[trigger] ovs[t].0 == es[i].name;
        let j = lemma_template_override(es, ovs, t);
        if j != i {
            assert(es[j].name == es[i].name);
            if j < i {
                assert(es[j].name != es[i].name);
            } else {
                assert(es[i].name != es[j].name);
            }
        }
        assert(targets(es, ovs, t, i));
        lemma_targeted(es, ovs, t, ovs.len() as int, i);
        assert(e1[i] == entry_after(es, ovs, ovs.len() as int, i));
        reveal(after_override);
    }
    assert(defaults_round_trip(e1)) by {
        assert forall|i: int, k: KeyCombo| 0 <= i < e1.len() && #[trigger] e1[i].default_keys.contains(k) implies spec_parse_key(spec_key_name(k)) == Ok::<KeyCombo, Seq<char>>(k) by {
            assert(e1[i].default_keys == es[i].default_keys);
            assert(es[i].default_keys.contains(k));
        }
    }
    lemma_no_conflicts(e1);
    assert(spec_merge(es, ovs).1 =~= Seq::<WarningView>::empty());
}

proof fn lemma_conflict_warning_listed<A>(es: Seq<EntryView<A>>, gs: Seq<Group>, g: int)
    requires
        0 <= g < gs.len(),
        gs[g].members.len() >= 2,
    ensures
        conflict_warnings(es, gs).contains(
            WarningView::Conflict { key: gs[g].key, actions: gs[g].members.map_values(|m: int| es[m].name) },
        ),
    decreases gs.len(),
{
    let w = WarningView::Conflict { key: gs[g].key, actions: gs[g].members.map_values(|m: int| es[m].name) };
    let prev = conflict_warnings(es, gs.drop_last());
    if g < gs.len() - 1 {
        assert(gs.drop_last()[g] == gs[g]);
        lemma_conflict_warning_listed(es, gs.drop_last(), g);
        let x = choose|x: int| 0 <= x < prev.len() && prev[x] == w;
        assert(conflict_warnings(es, gs)[x] == w);
    } else {
        assert(gs.last() == gs[g]);
        assert(conflict_warnings(es, gs)[prev.len() as int] == w);
    }
}

/// An override that leaves an action sharing a key with another action is
/// reverted: the overridden action falls back to its default keys, and a
/// conflict naming both actions is reported.
pub proof fn law_conflicting_override_reverts<A>(
    es: Seq<EntryView<A>>,
    ovs: Seq<(Seq<char>, Option<Seq<Seq<char>>>)>,
    i: int,
    j: int,
    k: KeyCombo,
)
    requires
        keymap_ok(es),
        0 <= i < es.len(),
        0 <= j < es.len(),
        i != j,
        apply_overrides(es, ovs).0[i].overridden,
        apply_overrides(es, ovs).0[i].keys.contains(k),
        apply_overrides(es, ovs).0[j].keys.contains(k),
    ensures
        spec_merge(es, ovs).0[i] == revert(apply_overrides(es, ovs).0[i]),
        spec_merge(es, ovs).0[i].keys == es[i].default_keys,
        exists|w: WarningView|
            #[trigger] spec_merge(es, ovs).1.contains(w) && (w matches WarningView::Conflict { actions, .. }
                && actions.contains(es[i].name) && actions.contains(es[j].name)),
{
    let e1 = apply_overrides(es, ovs).0;
    let w1 = apply_overrides(es, ovs).1;
    lemma_apply_overrides(es, ovs);
    lemma_apply_overrides_shape(es, ovs);
    let occ = occurrences(e1);
    let gs = groups_of(occ);
    lemma_groups_of(occ);
    lemma_occurrences_complete(e1, i, k);
    lemma_occurrences_complete(e1, j, k);
    let ti = choose|t: int| 0 <= t < occ.len() && occ[t] == (i, k);
    let tj = choose|t: int| 0 <= t < occ.len() && occ[t] == (j, k);
    lemma_entries_named_contains(occ, ti);
    lemma_entries_named_contains(occ, tj);
    let n = spec_key_name(k);
    let members = entries_named(occ, n);
    assert(members.len() > 0);
    let g = choose|g: int| 0 <= g < gs.len() && gs[g].name == n;
    assert(gs[g].members == members);
    let xi = choose|x: int| 0 <= x < members.len() && members[x] == i;
    let xj = choose|x: int| 0 <= x < members.len() && members[x] == j;
    assert(xi != xj);
    assert(members.len() >= 2);
    assert(gs[g].members.contains(i));
    assert(in_conflict(gs, i));
    assert(reverts_any(e1, gs));
    let es2 = round_revert(e1, gs);
    assert(es2[i] == revert(e1[i]));
    lemma_round_pre_ok(e1, gs);
    lemma_resolve(es2);
    lemma_round_decreases(e1, gs);
    assert(resolve(e1).0 == resolve(es2).0);
    assert(revert(revert(e1[i])) == revert(e1[i]));
    assert(spec_merge(es, ovs).0[i] == revert(e1[i]));
    let ws = conflict_warnings(e1, gs);
    lemma_conflict_warning_listed(e1, gs, g);
    let w = WarningView::Conflict { key: gs[g].key, actions: gs[g].members.map_values(|m: int| e1[m].name) };
    let actions = gs[g].members.map_values(|m: int| e1[m].name);
    assert(actions[xi] == e1[i].name);
    assert(actions[xj] == e1[j].name);
    assert(actions.contains(es[i].name));
    assert(actions.contains(es[j].name));
    let x = choose|x: int| 0 <= x < ws.len() && ws[x] == w;
    let all = spec_merge(es, ovs).1;
    assert(all == w1 + (ws + resolve(es2).1));
    assert(all[w1.len() + x] == w);
    assert(all.contains(w));
}


/// In a consistent keymap a key selects an action exactly when it is one of
/// that action's current keys; it selects nothing exactly when no action has
/// it among its keys.
pub proof fn law_dispatch_matches_keys<A>(es: Seq<EntryView<A>>, k: KeyCombo, a: A)
    requires
        keymap_ok(es),
    ensures
        spec_action_for(es, k) == Some(a) <==> spec_keys(es, a).contains(k),
        spec_action_for(es, k) is None <==> forall|i: int| 0 <= i < es.len() ==> !#[trigger] es[i].keys.contains(k),
{
    if spec_keys(es, a).contains(k) {
        let i = choose|i: int| 0 <= i < es.len() && es[i].action == a;
        law_lookup_finds_binding(es, i, k);
    }
    if spec_action_for(es, k) == Some(a) {
        let c = choose|c: int| 0 <= c < es.len() && es[c].keys.contains(k);
        assert(is_bound(es, a));
        let i = choose|i: int| 0 <= i < es.len() && es[i].action == a;
        assert(i == c);
    }
}

/// Merging keeps the entries in declaration order, each with its action,
/// config name, default keys and description; it leaves the keymap
/// consistent, so no key is bound to two actions; and afterwards a key
/// selects an action exactly when it is one of that action's keys.
pub proof fn law_merge_keeps_entries<A>(es: Seq<EntryView<A>>, ovs: Seq<(Seq<char>, Option<Seq<Seq<char>>>)>)
    requires
        keymap_ok(es),
    ensures
        spec_merge(es, ovs).0.len() == es.len(),
        forall|i: int|
            0 <= i < es.len() ==> (#[trigger] spec_merge(es, ovs).0[i]).action == es[i].action
                && spec_merge(es, ovs).0[i].name == es[i].name
                && spec_merge(es, ovs).0[i].default_keys == es[i].default_keys
                && spec_merge(es, ovs).0[i].desc == es[i].desc,
        keymap_ok(spec_merge(es, ovs).0),
        forall|k: KeyCombo, a: A|
            #![trigger spec_action_for(spec_merge(es, ovs).0, k), spec_keys(spec_merge(es, ovs).0, a)]
            spec_action_for(spec_merge(es, ovs).0, k) == Some(a) <==> spec_keys(spec_merge(es, ovs).0, a).contains(k),
{
    let e1 = apply_overrides(es, ovs).0;
    lemma_apply_overrides(es, ovs);
    lemma_apply_overrides_shape(es, ovs);
    lemma_resolve(e1);
    lemma_merge_ok(es, ovs);
    let f = spec_merge(es, ovs).0;
    assert forall|i: int| 0 <= i < es.len() implies (#[trigger] f[i]).action == es[i].action && f[i].name
        == es[i].name && f[i].default_keys == es[i].default_keys && f[i].desc == es[i].desc by {
        assert(f[i] == resolve(e1).0[i]);
    }
    assert forall|k: KeyCombo, a: A|
        #![trigger spec_action_for(f, k), spec_keys(f, a)]
        spec_action_for(f, k) == Some(a) <==> spec_keys(f, a).contains(k) by {
        law_dispatch_matches_keys(f, k, a);
    }
}

/// Whether one of entry `i`'s keys shares its name with another binding:
/// a current or default key of another entry, or another key of its own.
pub open spec fn clashes<A>(es: Seq<EntryView<A>>, i: int) -> bool {
    exists|k1: KeyCombo, j: int, k2: KeyCombo|
        #![trigger es[i].keys.contains(k1), es[j].keys.contains(k2)]
        #![trigger es[i].keys.contains(k1), es[j].default_keys.contains(k2)]
        {
            &&& es[i].keys.contains(k1)
            &&& 0 <= j < es.len()
            &&& spec_key_name(k1) == spec_key_name(k2)
            &&& ((j != i && (es[j].keys.contains(k2) || es[j].default_keys.contains(k2))) || (j == i && k1 != k2
                && es[i].keys.contains(k2)))
        }
}

/// An entry in a group of two bindings or more clashes.
proof fn lemma_conflict_clashes<A>(es: Seq<EntryView<A>>, i: int)
    requires
        pre_ok(es),
        in_conflict(groups_of(occurrences(es)), i),
    ensures
        clashes(es, i),
{
    let occ = occurrences(es);
    let gs = groups_of(occ);
    lemma_groups_of(occ);
    let g = choose|g: int| 0 <= g < gs.len() && gs[g].members.len() >= 2 && #[trigger] gs[g].members.contains(i);
    let n = gs[g].name;
    let x = choose|x: int| 0 <= x < gs[g].members.len() && gs[g].members[x] == i;
    lemma_entries_named_from(occ, n, x);
    let ti = choose|t: int| 0 <= t < occ.len() && occ[t].0 == entries_named(occ, n)[x] && spec_key_name(occ[t].1) == n;
    lemma_entries_named_two(occ, n);
    let (t1, t2) = choose|t1: int, t2: int|
        0 <= t1 < t2 < occ.len() && spec_key_name(#[trigger] occ[t1].1) == n && spec_key_name(#[trigger] occ[t2].1) == n;
    let t = if t1 != ti { t1 } else { t2 };
    assert(t != ti && spec_key_name(occ[t].1) == n);
    lemma_occurrences_sound(es, ti);
    lemma_occurrences_sound(es, t);
    let k1 = occ[ti].1;
    let j = occ[t].0;
    let k2 = occ[t].1;
    assert(occ[ti].0 == i);
    if j == i {
        assert forall|e: int| 0 <= e < es.len() implies distinct_keys(#[trigger] es[e].keys) by {
            assert(entry_ok(es[e]));
        }
        if ti < t {
            lemma_occurrences_unique(es, ti, t);
        } else {
            lemma_occurrences_unique(es, t, ti);
        }
        assert(k1 != k2);
    }
    assert(es[i].keys.contains(k1) && es[j].keys.contains(k2));
}

/// A clash that entry `i` has in a later round it already had: that round
/// has the same entry `i`, and every other entry on its own or default keys.
proof fn lemma_clashes_earlier<A>(es: Seq<EntryView<A>>, es2: Seq<EntryView<A>>, i: int)
    requires
        es2.len() == es.len(),
        0 <= i < es.len(),
        es2[i] == es[i],
        forall|j: int| 0 <= j < es.len() ==> #[trigger] es2[j] == es[j] || es2[j] == revert(es[j]),
        clashes(es2, i),
    ensures
        clashes(es, i),
{
    let (k1, j, k2) = choose|k1: KeyCombo, j: int, k2: KeyCombo|
        #![trigger es2[i].keys.contains(k1), es2[j].keys.contains(k2)]
        #![trigger es2[i].keys.contains(k1), es2[j].default_keys.contains(k2)]
        {
            &&& es2[i].keys.contains(k1)
            &&& 0 <= j < es2.len()
            &&& spec_key_name(k1) == spec_key_name(k2)
            &&& ((j != i && (es2[j].keys.contains(k2) || es2[j].default_keys.contains(k2))) || (j == i && k1 != k2
                && es2[i].keys.contains(k2)))
        };
    assert(es2[j] == es[j] || es2[j] == revert(es[j]));
    assert(es[i].keys.contains(k1));
    if es[j].keys.contains(k2) {
        assert(es[j].keys.contains(k2));
    } else {
        assert(es[j].default_keys.contains(k2));
    }
}

proof fn lemma_resolve_reverts<A>(es: Seq<EntryView<A>>)
    requires
        pre_ok(es),
    ensures
        resolve(es).0.len() == es.len(),
        forall|i: int|
            0 <= i < es.len() ==> #[trigger] resolve(es).0[i] == es[i] || (es[i].overridden && resolve(es).0[i]
                == revert(es[i]) && clashes(es, i)),
    decreases count_overridden(es),
{
    lemma_resolve(es);
    let gs = groups_of(occurrences(es));
    if reverts_any(es, gs) {
        let es2 = round_revert(es, gs);
        lemma_round_decreases(es, gs);
        lemma_round_pre_ok(es, gs);
        lemma_resolve_reverts(es2);
        assert forall|i: int| 0 <= i < es.len() implies #[trigger] resolve(es).0[i] == es[i] || (es[i].overridden
            && resolve(es).0[i] == revert(es[i]) && clashes(es, i)) by {
            assert(resolve(es).0[i] == resolve(es2).0[i]);
            assert(revert(revert(es[i])) == revert(es[i]));
            if es[i].overridden && in_conflict(gs, i) {
                lemma_conflict_clashes(es, i);
            } else {
                assert(es2[i] == es[i]);
                if resolve(es2).0[i] != es2[i] {
                    assert forall|j: int| 0 <= j < es.len() implies #[trigger] es2[j] == es[j] || es2[j] == revert(es[j]) by {
                    }
                    lemma_clashes_earlier(es, es2, i);
                }
            }
        }
    }
}

/// Conflict resolution keeps every entry in place, with its action, config
/// name, default keys and description. An entry either stays as it was or,
/// if it was overridden and one of its keys shares its name with another
/// binding, goes back to its default keys; an entry that was not overridden
/// never changes. Afterwards no key is bound twice, and a table where no
/// overridden entry is in conflict is left as it is.
pub proof fn law_resolve_reverts_only_conflicts<A>(es: Seq<EntryView<A>>)
    requires
        pre_ok(es),
    ensures
        resolve(es).0.len() == es.len(),
        keymap_ok(resolve(es).0),
        forall|i: int|
            0 <= i < es.len() ==> (#[trigger] resolve(es).0[i]).action == es[i].action
                && resolve(es).0[i].name == es[i].name
                && resolve(es).0[i].default_keys == es[i].default_keys
                && resolve(es).0[i].desc == es[i].desc,
        forall|i: int|
            0 <= i < es.len() ==> #[trigger] resolve(es).0[i] == es[i] || (es[i].overridden && resolve(es).0[i]
                == revert(es[i]) && clashes(es, i)),
        forall|i: int| 0 <= i < es.len() && !es[i].overridden ==> #[trigger] resolve(es).0[i] == es[i],
        !reverts_any(es, groups_of(occurrences(es))) ==> resolve(es).0 == es,
{
    lemma_resolve(es);
    lemma_resolve_reverts(es);
}

/// The template of a table depends only on each entry's config name,
/// description and default keys.
proof fn lemma_template_defaults_only<A>(es: Seq<EntryView<A>>, es2: Seq<EntryView<A>>)
    requires
        es.len() == es2.len(),
        forall|i: int|
            0 <= i < es.len() ==> (#[trigger] es[i]).name == es2[i].name && es[i].desc == es2[i].desc
                && es[i].default_keys == es2[i].default_keys,
    ensures
        template_of(es) == template_of(es2),
    decreases es.len(),
{
    if es.len() > 0 {
        assert forall|i: int| 0 <= i < es.drop_last().len() implies (#[trigger] es.drop_last()[i]).name
            == es2.drop_last()[i].name && es.drop_last()[i].desc == es2.drop_last()[i].desc
            && es.drop_last()[i].default_keys == es2.drop_last()[i].default_keys by {
            assert(es.drop_last()[i] == es[i]);
            assert(es2.drop_last()[i] == es2[i]);
        }
        lemma_template_defaults_only(es.drop_last(), es2.drop_last());
        assert(es.last() == es[es.len() - 1]);
    }
}

/// The template lists the default bindings: merging user overrides, which
/// changes current keys only, leaves the template exactly as it was.
pub proof fn law_template_ignores_overrides<A>(
    es: Seq<EntryView<A>>,
    ovs: Seq<(Seq<char>, Option<Seq<Seq<char>>>)>,
)
    requires
        keymap_ok(es),
    ensures
        template_of(spec_merge(es, ovs).0) == template_of(es),
{
    law_merge_keeps_entries(es, ovs);
    lemma_template_defaults_only(spec_merge(es, ovs).0, es);
}

/// Two tables with the same entries but different current keys (for
/// instance a keymap before and after an override) have the same template:
/// only default keys are written.
pub proof fn law_template_uses_default_keys<A>(es: Seq<EntryView<A>>, i: int, keys: Seq<KeyCombo>)
    requires
        0 <= i < es.len(),
    ensures
        template_of(es.update(i, EntryView { keys, overridden: true, ..es[i] })) == template_of(es),
{
    let es2 = es.update(i, EntryView { keys, overridden: true, ..es[i] });
    assert forall|j: int| 0 <= j < es.len() implies (#[trigger] es2[j]).name == es[j].name && es2[j].desc == es[j].desc
        && es2[j].default_keys == es[j].default_keys by {
    }
    lemma_template_defaults_only(es2, es);
}

} // verus!
