//! Character-sequence helpers shared by the keymap, diff and rendering code.
use vstd::prelude::*;

verus! {

/// Lexicographic order on character sequences, by code point; this is the
/// order of `str`'s `Ord` (UTF-8 byte order preserves code point order).
pub open spec fn seq_lt(a: Seq<char>, b: Seq<char>) -> bool
    decreases a.len(),
{
    if b.len() == 0 {
        false
    } else if a.len() == 0 {
        true
    } else if a[0] != b[0] {
        (a[0] as int) < (b[0] as int)
    } else {
        seq_lt(a.drop_first(), b.drop_first())
    }
}

/// `seq_lt` is a strict total order.
pub proof fn lemma_seq_lt_irreflexive(a: Seq<char>)
    ensures
        !seq_lt(a, a),
    decreases a.len(),
{
    if a.len() > 0 {
        lemma_seq_lt_irreflexive(a.drop_first());
    }
}

pub proof fn lemma_seq_lt_asymmetric(a: Seq<char>, b: Seq<char>)
    ensures
        seq_lt(a, b) ==> !seq_lt(b, a),
    decreases a.len(),
{
    if a.len() > 0 && b.len() > 0 && a[0] == b[0] {
        lemma_seq_lt_asymmetric(a.drop_first(), b.drop_first());
    }
}

pub proof fn lemma_seq_lt_transitive(a: Seq<char>, b: Seq<char>, c: Seq<char>)
    ensures
        seq_lt(a, b) && seq_lt(b, c) ==> seq_lt(a, c),
    decreases a.len(),
{
    if a.len() > 0 && b.len() > 0 && c.len() > 0 {
        lemma_seq_lt_transitive(a.drop_first(), b.drop_first(), c.drop_first());
    }
}

pub proof fn lemma_seq_lt_total(a: Seq<char>, b: Seq<char>)
    ensures
        a != b ==> seq_lt(a, b) || seq_lt(b, a),
    decreases a.len(),
{
    if a.len() > 0 && b.len() > 0 && a[0] == b[0] {
        lemma_seq_lt_total(a.drop_first(), b.drop_first());
        if a.drop_first() == b.drop_first() {
            assert(a =~= seq![a[0]] + a.drop_first());
            assert(b =~= seq![b[0]] + b.drop_first());
        }
    } else if a.len() == 0 && b.len() == 0 {
        assert(a =~= b);
    } else if a.len() > 0 && b.len() > 0 {
        assert((a[0] as int) != (b[0] as int));
    }
}

/// Equality of two character sequences.
pub fn chars_eq(a: &Vec<char>, b: &Vec<char>) -> (r: bool)
    ensures
        r == (a@ == b@),
{
    if a.len() != b.len() {
        return false;
    }
    let mut i: usize = 0;
    while i < a.len()
        invariant
            a.len() == b.len(),
            i <= a.len(),
            forall|j: int| 0 <= j < i ==> a@[j] == b@[j],
        decreases a.len() - i,
    {
        if a[i] != b[i] {
            return false;
        }
        i = i + 1;
    }
    assert(a@ =~= b@);
    true
}

proof fn lemma_seq_lt_skip(a: Seq<char>, b: Seq<char>, i: int)
    requires
        0 <= i <= a.len(),
        i <= b.len(),
        a.take(i) == b.take(i),
    ensures
        seq_lt(a, b) == seq_lt(a.skip(i), b.skip(i)),
    decreases i,
{
    if i > 0 {
        assert(a[0] == a.take(i)[0]);
        assert(b[0] == b.take(i)[0]);
        assert(a.drop_first().take(i - 1) =~= a.take(i).drop_first());
        assert(b.drop_first().take(i - 1) =~= b.take(i).drop_first());
        lemma_seq_lt_skip(a.drop_first(), b.drop_first(), i - 1);
        assert(a.drop_first().skip(i - 1) =~= a.skip(i));
        assert(b.drop_first().skip(i - 1) =~= b.skip(i));
    } else {
        assert(a.skip(0) =~= a);
        assert(b.skip(0) =~= b);
    }
}

/// Strict lexicographic comparison of two character sequences.
pub fn chars_less(a: &Vec<char>, b: &Vec<char>) -> (r: bool)
    ensures
        r == seq_lt(a@, b@),
{
    let mut i: usize = 0;
    while i < a.len() && i < b.len()
        invariant
            i <= a.len(),
            i <= b.len(),
            a@.take(i as int) == b@.take(i as int),
        decreases a.len() - i,
    {
        if a[i] != b[i] {
            proof {
                lemma_seq_lt_skip(a@, b@, i as int);
                assert(a@.skip(i as int)[0] == a@[i as int]);
                assert(b@.skip(i as int)[0] == b@[i as int]);
            }
            return a[i] < b[i];
        }
        assert(a@.take(i + 1) =~= a@.take(i as int).push(a@[i as int]));
        assert(b@.take(i + 1) =~= b@.take(i as int).push(b@[i as int]));
        i = i + 1;
    }
    proof {
        lemma_seq_lt_skip(a@, b@, i as int);
    }
    i < b.len()
}

/// The views of a sequence of strings.
pub open spec fn strings_view(v: Seq<String>) -> Seq<Seq<char>> {
    v.map_values(|s: String| s@)
}

/// The views of a sequence of string slices.
pub open spec fn strs_view(v: Seq<&str>) -> Seq<Seq<char>> {
    v.map_values(|s: &str| s@)
}

/// The position of the first `'\n'` in `s`, or its length.
pub open spec fn first_newline(s: Seq<char>) -> int
    decreases s.len(),
{
    if s.len() == 0 {
        0
    } else if s[0] == '\n' {
        0
    } else {
        1 + first_newline(s.drop_first())
    }
}

pub proof fn lemma_first_newline(s: Seq<char>)
    ensures
        0 <= first_newline(s) <= s.len(),
        forall|j: int| 0 <= j < first_newline(s) ==> s[j] != '\n',
        first_newline(s) < s.len() ==> s[first_newline(s)] == '\n',
    decreases s.len(),
{
    if s.len() > 0 && s[0] != '\n' {
        lemma_first_newline(s.drop_first());
        assert forall|j: int| 0 <= j < first_newline(s) implies s[j] != '\n' by {
            if j > 0 {
                assert(s[j] == s.drop_first()[j - 1]);
            }
        }
    }
}

/// `s` without its trailing newline characters.
pub open spec fn trim_newlines(s: Seq<char>) -> Seq<char>
    decreases s.len(),
{
    if s.len() > 0 && s.last() == '\n' {
        trim_newlines(s.drop_last())
    } else {
        s
    }
}

/// `s` without its trailing newline characters (`trim_end_matches('\n')`).
pub fn trim_newlines_str(s: &str) -> (r: &str)
    ensures
        r@ == trim_newlines(s@),
{
    let n = s.unicode_len();
    let mut end = n;
    assert(s@.subrange(0, n as int) =~= s@);
    while end > 0 && s.get_char(end - 1) == '\n'
        invariant
            end <= n,
            n == s@.len(),
            trim_newlines(s@.subrange(0, end as int)) == trim_newlines(s@),
        decreases end,
    {
        proof {
            let t = s@.subrange(0, end as int);
            assert(t.drop_last() =~= s@.subrange(0, end - 1));
        }
        end = end - 1;
    }
    proof {
        assert(s@.subrange(0, n as int) =~= s@);
        let t = s@.subrange(0, end as int);
        if end > 0 {
            assert(t.last() == s@[end - 1]);
        }
    }
    s.substring_char(0, end)
}

/// The characters of `s`, in order.
pub fn chars_of(s: &str) -> (r: Vec<char>)
    ensures
        r@ == s@,
{
    let n = s.unicode_len();
    let mut out: Vec<char> = Vec::new();
    let mut i: usize = 0;
    while i < n
        invariant
            n == s@.len(),
            i <= n,
            out@ == s@.take(i as int),
        decreases n - i,
    {
        out.push(s.get_char(i));
        assert(out@ =~= s@.take(i + 1));
        i = i + 1;
    }
    assert(s@.take(n as int) =~= s@);
    out
}

} // verus!

verus! {

/// Names in strictly increasing order.
pub open spec fn sorted_names(names: Seq<Seq<char>>) -> bool {
    forall|i: int, j: int| 0 <= i < j < names.len() ==> seq_lt(names[i], names[j])
}

/// Where `name` goes in a sorted list of names: after every name less than
/// it (the position an ordered map looks at).
pub open spec fn insert_pos(names: Seq<Seq<char>>, name: Seq<char>) -> int
    decreases names.len(),
{
    if names.len() == 0 {
        0
    } else if seq_lt(names[0], name) {
        1 + insert_pos(names.drop_first(), name)
    } else {
        0
    }
}

pub proof fn lemma_insert_pos(names: Seq<Seq<char>>, name: Seq<char>)
    ensures
        0 <= insert_pos(names, name) <= names.len(),
        forall|q: int| 0 <= q < insert_pos(names, name) ==> seq_lt(names[q], name),
        insert_pos(names, name) < names.len() ==> !seq_lt(names[insert_pos(names, name)], name),
    decreases names.len(),
{
    if names.len() > 0 && seq_lt(names[0], name) {
        lemma_insert_pos(names.drop_first(), name);
        assert forall|q: int| 0 <= q < insert_pos(names, name) implies seq_lt(names[q], name) by {
            if q > 0 {
                assert(names[q] == names.drop_first()[q - 1]);
            }
        }
    }
}

/// In a sorted list, `name` is present exactly when it stands at its
/// insertion position; inserting it there when absent keeps the list sorted.
pub proof fn lemma_sorted_insert(names: Seq<Seq<char>>, name: Seq<char>)
    requires
        sorted_names(names),
    ensures
        ({
            let p = insert_pos(names, name);
            &&& (exists|q: int| 0 <= q < names.len() && names[q] == name) <==> (p < names.len()
                && names[p] == name)
            &&& !(p < names.len() && names[p] == name) ==> sorted_names(names.insert(p, name))
        }),
{
    let p = insert_pos(names, name);
    lemma_insert_pos(names, name);
    if exists|q: int| 0 <= q < names.len() && names[q] == name {
        let q = choose|q: int| 0 <= q < names.len() && names[q] == name;
        if q < p {
            lemma_seq_lt_irreflexive(name);
        } else if q > p {
            lemma_seq_lt_total(names[p], name);
            lemma_seq_lt_asymmetric(names[p], names[q]);
        }
    }
    if !(p < names.len() && names[p] == name) {
        let ins = names.insert(p, name);
        if p < names.len() {
            lemma_seq_lt_total(names[p], name);
        }
        assert forall|i: int, j: int| 0 <= i < j < ins.len() implies seq_lt(ins[i], ins[j]) by {
            if j == p {
                assert(seq_lt(names[i], name));
            } else if i == p {
                assert(ins[j] == names[j - 1]);
                if j - 1 > p {
                    lemma_seq_lt_transitive(name, names[p], names[j - 1]);
                }
            } else if i < p && j > p {
                assert(ins[j] == names[j - 1]);
            } else if i > p {
                assert(ins[i] == names[i - 1]);
                assert(ins[j] == names[j - 1]);
            }
        }
    }
}

} // verus!
