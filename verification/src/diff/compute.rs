//! Line diffs of two texts, computed by `similar`, with word-level detail
//! added to each removed line that is directly replaced by an added one,
//! when the edit is small.
use vstd::prelude::*;
use vstd::utf8::encode_utf8;

verus! {

/// Kind of a diff line or word.
#[derive(Debug, Clone, Copy, PartialEq, Eq, Structural)]
pub enum DiffTag {
    Unchanged,
    Insert,
    Delete,
}

/// One word-level piece of a diff.
#[derive(Debug, Clone)]
pub struct WordDiff {
    pub tag: DiffTag,
    pub text: String,
}

/// One line of a diff.
#[derive(Debug, Clone)]
pub struct DiffLine {
    /// Unchanged, inserted or deleted.
    pub tag: DiffTag,
    /// 1-based line number in the old text (unchanged and deleted lines).
    pub old_line_num: Option<usize>,
    /// 1-based line number in the new text (unchanged and inserted lines).
    pub new_line_num: Option<usize>,
    /// The line, with its line ending.
    pub content: String,
    /// Word-level diff, only for a deleted line directly followed by its
    /// inserted replacement (and on that replacement).
    pub word_diffs: Option<Vec<WordDiff>>,
}

/// A word piece as the contracts see it.
pub type WordView = (DiffTag, Seq<char>);

/// A diff line as the contracts see it.
pub ghost struct DiffLineView {
    pub tag: DiffTag,
    pub old_line_num: Option<usize>,
    pub new_line_num: Option<usize>,
    pub content: Seq<char>,
    pub word_diffs: Option<Seq<WordView>>,
}

impl View for WordDiff {
    type V = WordView;

    open spec fn view(&self) -> WordView {
        (self.tag, self.text@)
    }
}

pub open spec fn words_view(ws: Seq<WordDiff>) -> Seq<WordView> {
    ws.map_values(|w: WordDiff| w@)
}

impl View for DiffLine {
    type V = DiffLineView;

    open spec fn view(&self) -> DiffLineView {
        DiffLineView {
            tag: self.tag,
            old_line_num: self.old_line_num,
            new_line_num: self.new_line_num,
            content: self.content@,
            word_diffs: match self.word_diffs {
                Some(ws) => Some(words_view(ws@)),
                None => None,
            },
        }
    }
}

pub open spec fn lines_view(ls: Seq<DiffLine>) -> Seq<DiffLineView> {
    ls.map_values(|l: DiffLine| l@)
}

/// One change reported by a line diff: its tag, its 0-based index in the old
/// and in the new text, and the line itself.
pub type RawChange = (DiffTag, Option<usize>, Option<usize>, String);

pub type RawChangeView = (DiffTag, Option<usize>, Option<usize>, Seq<char>);

pub open spec fn raw_view(c: RawChange) -> RawChangeView {
    (c.0, c.1, c.2, c.3@)
}

pub open spec fn raws_view(cs: Seq<RawChange>) -> Seq<RawChangeView> {
    cs.map_values(|c: RawChange| raw_view(c))
}

/// What `similar::TextDiff::from_lines(old, new).iter_all_changes()` yields,
/// each change as (tag, old index, new index, value).
pub uninterp spec fn spec_line_changes(old: Seq<char>, new: Seq<char>) -> Seq<RawChangeView>;

/// What `similar::TextDiff::from_words(old, new).iter_all_changes()` yields,
/// each change as (tag, value).
pub uninterp spec fn spec_word_changes(old: Seq<char>, new: Seq<char>) -> Seq<WordView>;

/// The index shape of a change: unchanged lines have both indices, deleted
/// lines only the old one, inserted lines only the new one; every index is
/// a position in memory, below `isize::MAX`.
pub open spec fn change_shape_ok(c: RawChangeView) -> bool {
    &&& match c.0 {
        DiffTag::Unchanged => c.1 is Some && c.2 is Some,
        DiffTag::Delete => c.1 is Some && c.2 is None,
        DiffTag::Insert => c.1 is None && c.2 is Some,
    }
    &&& c.1 matches Some(i) ==> i < isize::MAX
    &&& c.2 matches Some(i) ==> i < isize::MAX
}

/// The text of one side of a diff: the texts of the pieces not tagged
/// `skip`, concatenated in order (skip insertions for the old side,
/// deletions for the new side).
pub open spec fn side_text(ps: Seq<(DiffTag, Seq<char>)>, skip: DiffTag) -> Seq<char>
    decreases ps.len(),
{
    if ps.len() == 0 {
        Seq::empty()
    } else {
        side_text(ps.drop_last(), skip) + if ps.last().0 == skip { Seq::empty() } else { ps.last().1 }
    }
}

/// How many tags are not `skip`.
pub open spec fn side_count(ts: Seq<DiffTag>, skip: DiffTag) -> int
    decreases ts.len(),
{
    if ts.len() == 0 {
        0
    } else {
        side_count(ts.drop_last(), skip) + if ts.last() == skip { 0int } else { 1int }
    }
}

/// The tag and text of each change.
pub open spec fn change_pieces(cs: Seq<RawChangeView>) -> Seq<(DiffTag, Seq<char>)> {
    cs.map_values(|c: RawChangeView| (c.0, c.3))
}

pub open spec fn change_tags(cs: Seq<RawChangeView>) -> Seq<DiffTag> {
    cs.map_values(|c: RawChangeView| c.0)
}

/// The tag and text of each diff line.
pub open spec fn line_pieces(ls: Seq<DiffLineView>) -> Seq<(DiffTag, Seq<char>)> {
    ls.map_values(|l: DiffLineView| (l.tag, l.content))
}

pub open spec fn line_tags(ls: Seq<DiffLineView>) -> Seq<DiffTag> {
    ls.map_values(|l: DiffLineView| l.tag)
}

/// Calls `similar::TextDiff::from_lines(old, new).iter_all_changes()` (no
/// deadline is set, so the result depends on the two texts alone) and
/// converts each change. Claims: the result is `spec_line_changes` of the
/// texts; each change has the index shape that `similar`'s change iterator
/// builds (both indices for `Equal`, the old one for `Delete`, the new one
/// for `Insert`), and every index is a position in a vector of lines. The
/// changes walk both texts in order: the old text is split into lines that
/// keep their endings, and the ops cover its lines one after the other, so
/// the changes that hold an old line (all but insertions) carry old indices
/// 0, 1, 2, ... and their values concatenate to the old text; likewise the
/// changes that hold a new line (all but deletions) for the new text.
#[verifier::external_body]
fn line_changes(old: &str, new: &str) -> (r: Vec<RawChange>)
    ensures
        raws_view(r@) == spec_line_changes(old@, new@),
        forall|i: int| 0 <= i < r.len() ==> change_shape_ok(#[trigger] raw_view(r@[i])),
        side_text(change_pieces(raws_view(r@)), DiffTag::Insert) == old@,
        side_text(change_pieces(raws_view(r@)), DiffTag::Delete) == new@,
        forall|i: int|
            0 <= i < r.len() && r@[i].0 != DiffTag::Insert ==> (#[trigger] r@[i].1 matches Some(k) && k == side_count(
                change_tags(raws_view(r@)).take(i),
                DiffTag::Insert,
            )),
        forall|i: int|
            0 <= i < r.len() && r@[i].0 != DiffTag::Delete ==> (#[trigger] r@[i].2 matches Some(k) && k == side_count(
                change_tags(raws_view(r@)).take(i),
                DiffTag::Delete,
            )),
{
    let mut out = Vec::new();
    for c in similar::TextDiff::from_lines(old, new).iter_all_changes() {
        let tag = match c.tag() {
            similar::ChangeTag::Equal => DiffTag::Unchanged,
            similar::ChangeTag::Insert => DiffTag::Insert,
            similar::ChangeTag::Delete => DiffTag::Delete,
        };
        out.push((tag, c.old_index(), c.new_index(), c.value().to_string()));
    }
    out
}

/// Calls `similar::TextDiff::from_words(old, new).iter_all_changes()` (no
/// deadline, so a function of the two texts) and converts each change to a
/// `WordDiff`. Claims only that the result is `spec_word_changes`.
#[verifier::external_body]
fn compute_words(old: &str, new: &str) -> (r: Vec<WordDiff>)
    ensures
        words_view(r@) == spec_word_changes(old@, new@),
{
    let mut out = Vec::new();
    for c in similar::TextDiff::from_words(old, new).iter_all_changes() {
        let tag = match c.tag() {
            similar::ChangeTag::Equal => DiffTag::Unchanged,
            similar::ChangeTag::Insert => DiffTag::Insert,
            similar::ChangeTag::Delete => DiffTag::Delete,
        };
        out.push(WordDiff { tag, text: c.value().to_string() });
    }
    out
}

pub open spec fn plus_one(o: Option<usize>) -> Option<usize> {
    match o {
        Some(i) => Some((i + 1) as usize),
        None => None,
    }
}

/// The diff line of one change: 1-based line numbers, the old one for
/// deleted and unchanged lines, the new one for inserted and unchanged lines.
pub open spec fn line_of_change(c: RawChangeView) -> DiffLineView {
    let (o, n) = match c.0 {
        DiffTag::Delete => (plus_one(c.1), None),
        DiffTag::Insert => (None, plus_one(c.2)),
        DiffTag::Unchanged => (plus_one(c.1), plus_one(c.2)),
    };
    DiffLineView { tag: c.0, old_line_num: o, new_line_num: n, content: c.3, word_diffs: None }
}

pub open spec fn lines_of_changes(cs: Seq<RawChangeView>) -> Seq<DiffLineView> {
    cs.map_values(|c: RawChangeView| line_of_change(c))
}

/// Length in UTF-8 bytes, as `str::len` gives it.
pub open spec fn byte_len(s: Seq<char>) -> usize {
    encode_utf8(s).len() as usize
}

pub open spec fn abs_diff(a: int, b: int) -> int {
    if a >= b { a - b } else { b - a }
}

pub open spec fn at_least_one(a: int) -> int {
    if a >= 1 { a } else { 1 }
}

/// A replacement is small when the lengths differ by at most 40% of their
/// sum (each length counted as at least 1).
pub open spec fn small_edit(a: int, b: int) -> bool {
    5 * abs_diff(a, b) <= 2 * (at_least_one(a) + at_least_one(b))
}

pub open spec fn with_words(l: DiffLineView, w: Seq<WordView>) -> DiffLineView {
    DiffLineView {
        tag: l.tag,
        old_line_num: l.old_line_num,
        new_line_num: l.new_line_num,
        content: l.content,
        word_diffs: Some(w),
    }
}

/// The word pass from position `i` on: scanning left to right, each deleted
/// line directly followed by an inserted line forms a pair (and the scan
/// skips past both); when the pair is a small edit, both lines get the word
/// diff of the deleted line against the inserted one.
pub open spec fn word_pass(ls: Seq<DiffLineView>, i: int) -> Seq<DiffLineView>
    decreases ls.len() - i,
{
    if i < 0 || i + 1 >= ls.len() {
        ls
    } else if ls[i].tag == DiffTag::Delete && ls[i + 1].tag == DiffTag::Insert {
        let next = if small_edit(byte_len(ls[i].content) as int, byte_len(ls[i + 1].content) as int) {
            let w = spec_word_changes(ls[i].content, ls[i + 1].content);
            ls.update(i, with_words(ls[i], w)).update(i + 1, with_words(ls[i + 1], w))
        } else {
            ls
        };
        word_pass(next, i + 2)
    } else {
        word_pass(ls, i + 1)
    }
}

/// What the word pass may change of a line.
pub open spec fn same_line_but_words(ls: Seq<DiffLineView>, r: DiffLineView, j: int) -> bool {
    &&& r.tag == ls[j].tag
    &&& r.old_line_num == ls[j].old_line_num
    &&& r.new_line_num == ls[j].new_line_num
    &&& r.content == ls[j].content
    &&& r.word_diffs != ls[j].word_diffs ==> {
        ||| r.tag == DiffTag::Delete && j + 1 < ls.len() && ls[j + 1].tag == DiffTag::Insert
        ||| r.tag == DiffTag::Insert && j >= 1 && ls[j - 1].tag == DiffTag::Delete
    }
}

/// The word pass keeps the number of lines and each line's tag, line
/// numbers and text; it only fills in word diffs, and only on a deleted
/// line followed by an inserted one or on an inserted line preceded by a
/// deleted one.
pub proof fn law_word_pass_keeps_lines(ls: Seq<DiffLineView>, i: int)
    ensures
        word_pass(ls, i).len() == ls.len(),
        forall|j: int| 0 <= j < ls.len() ==> same_line_but_words(ls, #[trigger] word_pass(ls, i)[j], j),
    decreases ls.len() - i,
{
    if i < 0 || i + 1 >= ls.len() {
    } else if ls[i].tag == DiffTag::Delete && ls[i + 1].tag == DiffTag::Insert {
        let next = if small_edit(byte_len(ls[i].content) as int, byte_len(ls[i + 1].content) as int) {
            let w = spec_word_changes(ls[i].content, ls[i + 1].content);
            ls.update(i, with_words(ls[i], w)).update(i + 1, with_words(ls[i + 1], w))
        } else {
            ls
        };
        law_word_pass_keeps_lines(next, i + 2);
        assert forall|j: int| 0 <= j < ls.len() implies same_line_but_words(ls, #[trigger] word_pass(ls, i)[j], j) by {
            assert(same_line_but_words(next, word_pass(next, i + 2)[j], j));
        }
    } else {
        law_word_pass_keeps_lines(ls, i + 1);
    }
}

/// The full line diff of two texts.
pub open spec fn spec_compute_diff(old: Seq<char>, new: Seq<char>) -> Seq<DiffLineView> {
    word_pass(lines_of_changes(spec_line_changes(old, new)), 0)
}

fn small_edit_exec(a: usize, b: usize) -> (r: bool)
    ensures
        r == small_edit(a as int, b as int),
{
    let a: u128 = a as u128;
    let b: u128 = b as u128;
    let d: u128 = if a >= b { a - b } else { b - a };
    let a1: u128 = if a >= 1 { a } else { 1 };
    let b1: u128 = if b >= 1 { b } else { 1 };
    5 * d <= 2 * (a1 + b1)
}

fn copy_words(ws: &Vec<WordDiff>) -> (r: Vec<WordDiff>)
    ensures
        words_view(r@) == words_view(ws@),
{
    let mut out: Vec<WordDiff> = Vec::new();
    let mut i: usize = 0;
    while i < ws.len()
        invariant
            i <= ws.len(),
            words_view(out@) == words_view(ws@.take(i as int)),
        decreases ws.len() - i,
    {
        let ghost prev = out@;
        let w = WordDiff { tag: ws[i].tag, text: ws[i].text.clone() };
        out.push(w);
        proof {
            assert(ws@.take(i + 1) == ws@.take(i as int).push(ws@[i as int]));
            assert(words_view(out@) =~= words_view(prev).push(w@));
            assert(words_view(ws@.take(i + 1)) =~= words_view(ws@.take(i as int)).push(ws@[i as int]@));
        }
        i = i + 1;
    }
    proof {
        assert(ws@.take(ws.len() as int) == ws@);
    }
    out
}

proof fn lemma_lines_view_update(ls: Seq<DiffLine>, i: int, l: DiffLine)
    requires
        0 <= i < ls.len(),
    ensures
        lines_view(ls.update(i, l)) == lines_view(ls).update(i, l@),
{
    assert(lines_view(ls.update(i, l)) =~= lines_view(ls).update(i, l@));
}

fn with_word_diffs(l: &DiffLine, ws: Vec<WordDiff>) -> (r: DiffLine)
    ensures
        r@ == with_words(l@, words_view(ws@)),
{
    DiffLine {
        tag: l.tag,
        old_line_num: l.old_line_num,
        new_line_num: l.new_line_num,
        content: l.content.clone(),
        word_diffs: Some(ws),
    }
}

/// Adds word-level diffs to each deleted line directly followed by an
/// inserted line (and to that inserted line), scanning pairs left to right,
/// when the two lines' lengths differ by at most 40% of their sum.
pub fn compute_word_diffs(lines: &mut Vec<DiffLine>)
    ensures
        lines_view(final(lines)@) == word_pass(lines_view(old(lines)@), 0),
{
    let ghost start = lines_view(lines@);
    let mut i: usize = 0;
    while i < lines.len() && i + 1 < lines.len()
        invariant
            i <= lines.len(),
            word_pass(lines_view(lines@), i as int) == word_pass(start, 0),
        decreases lines.len() - i,
    {
        let ghost before = lines_view(lines@);
        if lines[i].tag == DiffTag::Delete && lines[i + 1].tag == DiffTag::Insert {
            let a = lines[i].content.as_str().len();
            let b = lines[i + 1].content.as_str().len();
            if small_edit_exec(a, b) {
                let wdiff = compute_words(lines[i].content.as_str(), lines[i + 1].content.as_str());
                let first = with_word_diffs(&lines[i], copy_words(&wdiff));
                let second = with_word_diffs(&lines[i + 1], wdiff);
                proof {
                    lemma_lines_view_update(lines@, i as int, first);
                }
                lines.set(i, first);
                proof {
                    lemma_lines_view_update(lines@, i + 1, second);
                }
                lines.set(i + 1, second);
            }
            i = i + 2;
        } else {
            i = i + 1;
        }
    }
}

/// The diff lines of a list of line changes, before the word pass.
pub fn lines_from_changes(changes: Vec<RawChange>) -> (r: Vec<DiffLine>)
    requires
        forall|i: int| 0 <= i < changes.len() ==> change_shape_ok(#[trigger] raw_view(changes@[i])),
    ensures
        lines_view(r@) == lines_of_changes(raws_view(changes@)),
{
    let mut out: Vec<DiffLine> = Vec::new();
    let mut i: usize = 0;
    while i < changes.len()
        invariant
            i <= changes.len(),
            forall|j: int| 0 <= j < changes.len() ==> change_shape_ok(#[trigger] raw_view(changes@[j])),
            lines_view(out@) == lines_of_changes(raws_view(changes@.take(i as int))),
        decreases changes.len() - i,
    {
        let c = &changes[i];
        proof {
            assert(change_shape_ok(raw_view(changes@[i as int])));
        }
        let old_num = match c.1 {
            Some(k) => Some(k + 1),
            None => None,
        };
        let new_num = match c.2 {
            Some(k) => Some(k + 1),
            None => None,
        };
        let (o, n) = match c.0 {
            DiffTag::Delete => (old_num, None),
            DiffTag::Insert => (None, new_num),
            DiffTag::Unchanged => (old_num, new_num),
        };
        let line = DiffLine {
            tag: c.0,
            old_line_num: o,
            new_line_num: n,
            content: c.3.clone(),
            word_diffs: None,
        };
        let ghost prev = out@;
        proof {
            assert(line@ == line_of_change(raw_view(changes@[i as int])));
        }
        out.push(line);
        proof {
            assert(lines_view(out@) =~= lines_view(prev).push(line@));
            assert(changes@.take(i + 1) == changes@.take(i as int).push(changes@[i as int]));
            assert(raws_view(changes@.take(i + 1)) == raws_view(changes@.take(i as int)).push(raw_view(changes@[i as int])));
            assert(lines_of_changes(raws_view(changes@.take(i + 1))) =~= lines_of_changes(raws_view(changes@.take(i as int))).push(line_of_change(raw_view(changes@[i as int]))));
            assert(lines_view(out@) =~= lines_of_changes(raws_view(changes@.take(i + 1))));
        }
        i = i + 1;
    }
    proof {
        assert(changes@.take(changes.len() as int) == changes@);
    }
    out
}

/// Line diff of two texts, in order, with word-level detail on small
/// one-line replacements. Deleted lines have only an old line number,
/// inserted lines only a new one, unchanged lines both; the old line
/// numbers run 1, 2, 3, ... down the lines that hold an old line, and the
/// contents of those lines make up the old text (likewise for the new side).
pub fn compute_diff(old: &str, new: &str) -> (r: Vec<DiffLine>)
    ensures
        lines_view(r@) == spec_compute_diff(old@, new@),
        forall|i: int|
            0 <= i < r.len() ==> match (#[trigger] r@[i]).tag {
                DiffTag::Delete => r@[i].old_line_num is Some && r@[i].new_line_num is None,
                DiffTag::Insert => r@[i].old_line_num is None && r@[i].new_line_num is Some,
                DiffTag::Unchanged => r@[i].old_line_num is Some && r@[i].new_line_num is Some,
            },
        forall|i: int|
            0 <= i < r.len() && r@[i].tag != DiffTag::Insert ==> (#[trigger] r@[i].old_line_num matches Some(n) && n
                == side_count(line_tags(lines_view(r@)).take(i), DiffTag::Insert) + 1),
        forall|i: int|
            0 <= i < r.len() && r@[i].tag != DiffTag::Delete ==> (#[trigger] r@[i].new_line_num matches Some(n) && n
                == side_count(line_tags(lines_view(r@)).take(i), DiffTag::Delete) + 1),
        side_text(line_pieces(lines_view(r@)), DiffTag::Insert) == old@,
        side_text(line_pieces(lines_view(r@)), DiffTag::Delete) == new@,
{
    let changes = line_changes(old, new);
    let ghost cs = raws_view(changes@);
    let mut lines = lines_from_changes(changes);
    compute_word_diffs(&mut lines);
    proof {
        let ls0 = lines_of_changes(cs);
        let ls = lines_view(lines@);
        law_word_pass_keeps_lines(ls0, 0);
        assert(ls == word_pass(ls0, 0));
        assert forall|i: int| 0 <= i < ls.len() implies (#[trigger] ls[i]).tag == cs[i].0 && ls[i].content == cs[i].3
            && ls[i].old_line_num == ls0[i].old_line_num && ls[i].new_line_num == ls0[i].new_line_num by {
            assert(same_line_but_words(ls0, ls[i], i));
            assert(raw_view(changes@[i]) == cs[i]);
        }
        assert(line_pieces(ls) =~= change_pieces(cs));
        assert(line_tags(ls) =~= change_tags(cs));
        assert forall|i: int| 0 <= i < lines.len() implies match (#[trigger] lines@[i]).tag {
            DiffTag::Delete => lines@[i].old_line_num is Some && lines@[i].new_line_num is None,
            DiffTag::Insert => lines@[i].old_line_num is None && lines@[i].new_line_num is Some,
            DiffTag::Unchanged => lines@[i].old_line_num is Some && lines@[i].new_line_num is Some,
        } by {
            assert(ls[i] == lines@[i]@);
            assert(change_shape_ok(raw_view(changes@[i])));
        }
        assert forall|i: int| 0 <= i < lines.len() && lines@[i].tag != DiffTag::Insert implies (
        #[trigger] lines@[i].old_line_num matches Some(n) && n == side_count(line_tags(ls).take(i), DiffTag::Insert) + 1) by {
            assert(ls[i] == lines@[i]@);
            assert(changes@[i].0 != DiffTag::Insert);
            assert(changes@[i].1 matches Some(k) && k == side_count(change_tags(cs).take(i), DiffTag::Insert));
            assert(change_shape_ok(raw_view(changes@[i])));
        }
        assert forall|i: int| 0 <= i < lines.len() && lines@[i].tag != DiffTag::Delete implies (
        #[trigger] lines@[i].new_line_num matches Some(n) && n == side_count(line_tags(ls).take(i), DiffTag::Delete) + 1) by {
            assert(ls[i] == lines@[i]@);
            assert(changes@[i].0 != DiffTag::Delete);
            assert(changes@[i].2 matches Some(k) && k == side_count(change_tags(cs).take(i), DiffTag::Delete));
            assert(change_shape_ok(raw_view(changes@[i])));
        }
    }
    lines
}


/// Lines before the scan position are left as they are.
proof fn lemma_word_pass_prefix(ls: Seq<DiffLineView>, i: int, k: int)
    requires
        0 <= k < i,
        k < ls.len(),
    ensures
        word_pass(ls, i)[k] == ls[k],
        word_pass(ls, i).len() == ls.len(),
    decreases ls.len() - i,
{
    if i < 0 || i + 1 >= ls.len() {
    } else if ls[i].tag == DiffTag::Delete && ls[i + 1].tag == DiffTag::Insert {
        let next = if small_edit(byte_len(ls[i].content) as int, byte_len(ls[i + 1].content) as int) {
            let w = spec_word_changes(ls[i].content, ls[i + 1].content);
            ls.update(i, with_words(ls[i], w)).update(i + 1, with_words(ls[i + 1], w))
        } else {
            ls
        };
        lemma_word_pass_prefix(next, i + 2, k);
    } else {
        lemma_word_pass_prefix(ls, i + 1, k);
    }
}

/// The scan from any position at or before a deleted line followed by an
/// inserted line treats that pair: a deleted line can never be the second
/// line of a pair, so no scan step skips it.
proof fn lemma_word_pass_pair(ls: Seq<DiffLineView>, i: int, j: int)
    requires
        0 <= i <= j,
        j + 1 < ls.len(),
        ls[j].tag == DiffTag::Delete,
        ls[j + 1].tag == DiffTag::Insert,
    ensures
        word_pass(ls, i)[j] == (if small_edit(byte_len(ls[j].content) as int, byte_len(ls[j + 1].content) as int) {
            with_words(ls[j], spec_word_changes(ls[j].content, ls[j + 1].content))
        } else {
            ls[j]
        }),
        word_pass(ls, i)[j + 1] == (if small_edit(byte_len(ls[j].content) as int, byte_len(ls[j + 1].content) as int) {
            with_words(ls[j + 1], spec_word_changes(ls[j].content, ls[j + 1].content))
        } else {
            ls[j + 1]
        }),
    decreases j - i,
{
    let small = small_edit(byte_len(ls[i].content) as int, byte_len(ls[i + 1].content) as int);
    if ls[i].tag == DiffTag::Delete && ls[i + 1].tag == DiffTag::Insert {
        let next = if small {
            let w = spec_word_changes(ls[i].content, ls[i + 1].content);
            ls.update(i, with_words(ls[i], w)).update(i + 1, with_words(ls[i + 1], w))
        } else {
            ls
        };
        if i == j {
            lemma_word_pass_prefix(next, i + 2, j);
            lemma_word_pass_prefix(next, i + 2, j + 1);
        } else {
            assert(i + 1 != j);
            assert(next[j] == ls[j] && next[j + 1] == ls[j + 1]);
            lemma_word_pass_pair(next, i + 2, j);
        }
    } else {
        assert(i != j);
        lemma_word_pass_pair(ls, i + 1, j);
    }
}

/// Every deleted line directly followed by an inserted line forms a pair,
/// wherever it stands and whatever pairs come before it: when the two
/// lines' byte lengths differ by at most 40% of their sum (each counted as
/// at least 1), both lines carry the word diff of the deleted line against
/// the inserted one; otherwise both are left as they were. Tags, line
/// numbers and texts never change.
pub proof fn law_every_small_pair_gets_words(ls: Seq<DiffLineView>, j: int)
    requires
        0 <= j,
        j + 1 < ls.len(),
        ls[j].tag == DiffTag::Delete,
        ls[j + 1].tag == DiffTag::Insert,
    ensures
        ({
            let a = byte_len(ls[j].content) as int;
            let b = byte_len(ls[j + 1].content) as int;
            let small = 5 * (if a >= b { a - b } else { b - a }) <= 2 * ((if a >= 1 { a } else { 1 }) + (if b >= 1 { b } else { 1 }));
            let out = word_pass(ls, 0);
            let w = spec_word_changes(ls[j].content, ls[j + 1].content);
            &&& out[j].tag == ls[j].tag && out[j].content == ls[j].content
            &&& out[j].old_line_num == ls[j].old_line_num && out[j].new_line_num == ls[j].new_line_num
            &&& out[j + 1].tag == ls[j + 1].tag && out[j + 1].content == ls[j + 1].content
            &&& out[j + 1].old_line_num == ls[j + 1].old_line_num && out[j + 1].new_line_num == ls[j + 1].new_line_num
            &&& small ==> out[j].word_diffs == Some(w) && out[j + 1].word_diffs == Some(w)
            &&& !small ==> out[j].word_diffs == ls[j].word_diffs && out[j + 1].word_diffs == ls[j + 1].word_diffs
        }),
{
    lemma_word_pass_pair(ls, 0, j);
}

} // verus!
