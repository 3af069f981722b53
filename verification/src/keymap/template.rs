//! The commented configuration template rendered from a keymap's defaults.
use vstd::prelude::*;
use crate::keymap::key::{KeyCombo, spec_key_name, key_name};
use crate::keymap::EntryView;
use crate::text::{first_newline, lemma_first_newline};

verus! {

/// What `toml::Value::String(s).to_string()` writes: `s` as a TOML string
/// literal, quoted and escaped.
pub uninterp spec fn spec_toml_string(s: Seq<char>) -> Seq<char>;

/// Formats `s` as a TOML string literal with the `toml` crate
/// (`Display` of `toml::Value::String`). Claims only that the text is a
/// function of `s`.
#[verifier::external_body]
pub(crate) fn toml_string(s: &str) -> (r: String)
    ensures
        r@ == spec_toml_string(s@),
{
    toml::Value::String(s.to_string()).to_string()
}

/// A character allowed in a bare TOML key.
pub open spec fn is_bare_key_char(c: char) -> bool {
    ||| 48 <= (c as u32) <= 57
    ||| 65 <= (c as u32) <= 90
    ||| 97 <= (c as u32) <= 122
    ||| c == '_'
    ||| c == '-'
}

/// A config name is written bare when it is a non-empty run of
/// `[A-Za-z0-9_-]`, else as a quoted TOML string.
pub open spec fn spec_toml_key(name: Seq<char>) -> Seq<char> {
    if name.len() > 0 && forall|i: int| 0 <= i < name.len() ==> is_bare_key_char(name[i]) {
        name
    } else {
        spec_toml_string(name)
    }
}

/// A line without its `'\r'` before the `'\n'` that ended it.
pub open spec fn strip_cr(line: Seq<char>) -> Seq<char> {
    if line.len() > 0 && line.last() == '\r' {
        line.drop_last()
    } else {
        line
    }
}

/// The lines of `s`, as `str::lines` gives them: split at `"\n"` or
/// `"\r\n"`, without the terminators; a final terminator adds no line.
pub open spec fn lines_of(s: Seq<char>) -> Seq<Seq<char>>
    decreases s.len(),
{
    if s.len() == 0 {
        Seq::empty()
    } else {
        let i = first_newline(s);
        if i >= s.len() {
            seq![s]
        } else {
            proof {
                lemma_first_newline(s);
            }
            seq![strip_cr(s.take(i))] + lines_of(s.skip(i + 1))
        }
    }
}

/// The comment block for a description: `"# "`, the line, a newline, for
/// each of its lines.
pub open spec fn comment_lines(lines: Seq<Seq<char>>) -> Seq<char>
    decreases lines.len(),
{
    if lines.len() == 0 {
        Seq::empty()
    } else {
        "# "@ + lines[0] + "\n"@ + comment_lines(lines.drop_first())
    }
}

/// A default key as it is written in the template: its crokey name as a
/// TOML string.
pub open spec fn key_item(k: KeyCombo) -> Seq<char> {
    spec_toml_string(spec_key_name(k))
}

/// The keys, written and joined by `", "`.
pub open spec fn keys_list(ks: Seq<KeyCombo>) -> Seq<char>
    decreases ks.len(),
{
    if ks.len() == 0 {
        Seq::empty()
    } else if ks.len() == 1 {
        key_item(ks[0])
    } else {
        keys_list(ks.drop_last()) + ", "@ + key_item(ks.last())
    }
}

/// One entry of the template: its description as comments, then
/// `name = [keys]` and a blank line.
pub open spec fn entry_template<A>(e: EntryView<A>) -> Seq<char> {
    let comments = match e.desc {
        Some(d) => comment_lines(lines_of(d)),
        None => Seq::empty(),
    };
    comments + spec_toml_key(e.name) + " = ["@ + keys_list(e.default_keys) + "]\n\n"@
}

/// The whole template, entry by entry in declaration order.
pub open spec fn template_of<A>(es: Seq<EntryView<A>>) -> Seq<char>
    decreases es.len(),
{
    if es.len() == 0 {
        Seq::empty()
    } else {
        template_of(es.drop_last()) + entry_template(es.last())
    }
}

/// Writes `name` as a TOML key (see `spec_toml_key`).
pub fn toml_key(name: &str) -> (r: String)
    ensures
        r@ == spec_toml_key(name@),
{
    let chars = crate::text::chars_of(name);
    let mut bare = chars.len() > 0;
    let mut i: usize = 0;
    while i < chars.len()
        invariant
            i <= chars.len(),
            chars@ == name@,
            bare == (chars@.len() > 0 && forall|j: int| 0 <= j < i ==> is_bare_key_char(chars@[j])),
        decreases chars.len() - i,
    {
        let c = chars[i];
        let u = c as u32;
        let ok = (48 <= u && u <= 57) || (65 <= u && u <= 90) || (97 <= u && u <= 122) || c == '_' || c == '-';
        assert(ok == is_bare_key_char(c));
        bare = bare && ok;
        i = i + 1;
    }
    if bare {
        String::from_str(name)
    } else {
        toml_string(name)
    }
}

/// Appends the comment block of `desc` to `out` (see `comment_lines`).
pub fn push_comment_lines(out: &mut String, desc: &str)
    ensures
        final(out)@ == old(out)@ + comment_lines(lines_of(desc@)),
{
    let chars = crate::text::chars_of(desc);
    let n = chars.len();
    let mut start: usize = 0;
    proof {
        assert(chars@.skip(0) =~= chars@);
    }
    while start < n
        invariant
            n == chars@.len(),
            chars@ == desc@,
            start <= n,
            old(out)@ + comment_lines(lines_of(desc@)) == out@ + comment_lines(lines_of(chars@.skip(start as int))),
        decreases n - start,
    {
        let ghost rest = chars@.skip(start as int);
        let mut end = start;
        while end < n && chars[end] != '\n'
            invariant
                start <= end <= n,
                n == chars@.len(),
                forall|j: int| start <= j < end ==> chars@[j] != '\n',
            decreases n - end,
        {
            end = end + 1;
        }
        proof {
            lemma_first_newline(rest);
            assert forall|j: int| 0 <= j < end - start implies rest[j] != '\n' by {
                assert(rest[j] == chars@[start + j]);
            }
            if end < n {
                assert(rest[end - start] == '\n');
            }
            if first_newline(rest) < end - start {
                assert(rest[first_newline(rest)] == chars@[start + first_newline(rest)]);
            }
            assert(first_newline(rest) == end - start);
        }
        let mut line_end = end;
        if end < n && end > start && chars[end - 1] == '\r' {
            line_end = end - 1;
        }
        out.append("# ");
        let line = desc.substring_char(start, line_end);
        out.append(line);
        out.append("\n");
        proof {
            let i = end - start;
            if end < n {
                assert(rest.take(i as int) =~= chars@.subrange(start as int, end as int));
                assert(strip_cr(rest.take(i as int)) =~= desc@.subrange(start as int, line_end as int));
                assert(rest.skip(i + 1) =~= chars@.skip(end + 1));
                assert(lines_of(rest) == seq![strip_cr(rest.take(i as int))] + lines_of(rest.skip(i + 1)));
            } else {
                assert(rest =~= desc@.subrange(start as int, line_end as int));
                assert(chars@.skip(n as int) =~= Seq::<char>::empty());
            }
        }
        if end < n {
            start = end + 1;
        } else {
            start = n;
        }
        proof {
            let ls = lines_of(rest);
            assert(comment_lines(ls) == "# "@ + ls[0] + "\n"@ + comment_lines(ls.drop_first()));
            if end < n {
                assert(ls.drop_first() =~= lines_of(chars@.skip(start as int)));
            } else {
                assert(ls.drop_first() =~= Seq::<Seq<char>>::empty());
                assert(lines_of(chars@.skip(start as int)) =~= Seq::<Seq<char>>::empty());
            }
        }
    }
    assert(chars@.skip(n as int) =~= Seq::<char>::empty());
}

/// Appends the written default keys to `out` (see `keys_list`).
pub fn push_keys_list(out: &mut String, keys: &Vec<KeyCombo>)
    ensures
        final(out)@ == old(out)@ + keys_list(keys@),
{
    let mut i: usize = 0;
    assert(keys@.take(0) =~= Seq::<KeyCombo>::empty());
    while i < keys.len()
        invariant
            i <= keys.len(),
            out@ == old(out)@ + keys_list(keys@.take(i as int)),
        decreases keys.len() - i,
    {
        if i > 0 {
            out.append(", ");
        }
        let name = key_name(&keys[i]);
        let item = toml_string(name.as_str());
        out.append(item.as_str());
        proof {
            let t = keys@.take(i + 1);
            assert(t.drop_last() =~= keys@.take(i as int));
            assert(t.last() == keys@[i as int]);
            if i == 0 {
                assert(t.len() == 1);
                assert(t[0] == keys@[0]);
            }
        }
        i = i + 1;
    }
    assert(keys@.take(keys.len() as int) =~= keys@);
}

} // verus!
