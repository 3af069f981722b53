//! Key combinations as the keymap sees them: one key code plus a set of
//! modifier bits, parsed and named by `crokey`, compared after the
//! normalisation that makes lookups a single exact match.
use vstd::prelude::*;
pub use crate::text::{strings_view, strs_view};
use crokey::crossterm::event::KeyCode as TermKeyCode;
use crokey::crossterm::event::KeyModifiers as TermKeyModifiers;


verus! {

#[verifier::external_type_specification]
#[verifier::external_body]
pub struct ExTermKeyCode(crokey::crossterm::event::KeyCode);

#[verifier::external_type_specification]
#[verifier::external_body]
pub struct ExCrokeyKeyCombination(crokey::KeyCombination);

#[verifier::external_type_specification]
#[verifier::external_body]
pub struct ExCrokeyKeyCombinationFormat(crokey::KeyCombinationFormat);

/// Modifier bits, with the values of crossterm's `KeyModifiers`.
pub const SHIFT: u8 = 0b0000_0001;
pub const CONTROL: u8 = 0b0000_0010;
pub const ALT: u8 = 0b0000_0100;
pub const SUPER: u8 = 0b0000_1000;

/// One key code. Characters, function keys and Enter are spelled out because
/// the keymap's normalisation looks at them; every other code is carried as
/// crossterm's own value.
#[derive(Debug, Clone, Copy, PartialEq, Eq)]
pub enum Code {
    Char(char),
    F(u8),
    Enter,
    Other(TermKeyCode),
}

/// A single-code key combination: a key code and crossterm modifier bits.
#[derive(Debug, Clone, Copy, PartialEq, Eq)]
pub struct KeyCombo {
    pub code: Code,
    pub modifiers: u8,
}

pub open spec fn has_shift(m: u8) -> bool {
    m & SHIFT == SHIFT
}

pub open spec fn is_ascii_upper(c: char) -> bool {
    65 <= (c as u32) <= 90
}

pub open spec fn is_ascii_lower(c: char) -> bool {
    97 <= (c as u32) <= 122
}

pub open spec fn is_ascii_alpha(c: char) -> bool {
    is_ascii_upper(c) || is_ascii_lower(c)
}

pub open spec fn to_ascii_upper(c: char) -> char {
    if is_ascii_lower(c) {
        ((c as u32) - 32) as char
    } else {
        c
    }
}

/// crokey's `KeyCombination::normalized` on a single code: `'\r'`/`'\n'`
/// become Enter; with SHIFT a lowercase letter is uppercased; without SHIFT
/// an uppercase letter gains SHIFT.
pub open spec fn normalized(k: KeyCombo) -> KeyCombo {
    match k.code {
        Code::Char(c) => {
            if c == '\r' || c == '\n' {
                KeyCombo { code: Code::Enter, modifiers: k.modifiers }
            } else if has_shift(k.modifiers) {
                KeyCombo { code: Code::Char(to_ascii_upper(c)), modifiers: k.modifiers }
            } else if is_ascii_upper(c) {
                KeyCombo { code: k.code, modifiers: k.modifiers | SHIFT }
            } else {
                k
            }
        },
        _ => k,
    }
}

/// The keymap's canonical form: `normalized`, then SHIFT dropped from a
/// single non-letter character (terminals disagree on whether shifted
/// punctuation carries SHIFT). Applied both when binding and when looking up.
pub open spec fn canonical(k: KeyCombo) -> KeyCombo {
    let n = normalized(k);
    match n.code {
        Code::Char(c) => {
            if has_shift(n.modifiers) && !is_ascii_alpha(c) {
                KeyCombo { code: n.code, modifiers: n.modifiers & !SHIFT }
            } else {
                n
            }
        },
        _ => n,
    }
}

fn upper_char(c: char) -> (r: char)
    ensures
        r == to_ascii_upper(c),
{
    if 'a' <= c && c <= 'z' {
        let b = (c as u8) - 32;
        (b as char)
    } else {
        c
    }
}

proof fn lemma_shift_bits(m: u8)
    ensures
        has_shift(m | SHIFT),
        (m | SHIFT) | SHIFT == m | SHIFT,
        !has_shift(m & !SHIFT),
        (m & !SHIFT) & !SHIFT == m & !SHIFT,
{
    assert((m | 1u8) & 1u8 == 1u8) by (bit_vector);
    assert((m | 1u8) | 1u8 == m | 1u8) by (bit_vector);
    assert((m & !1u8) & 1u8 != 1u8) by (bit_vector);
    assert((m & !1u8) & !1u8 == m & !1u8) by (bit_vector);
}

/// `canonical` is idempotent: a canonical key stays as it is.
pub proof fn lemma_canonical_idempotent(k: KeyCombo)
    ensures
        canonical(canonical(k)) == canonical(k),
{
    lemma_shift_bits(k.modifiers);
    lemma_shift_bits(k.modifiers | SHIFT);
    lemma_shift_bits(k.modifiers & !SHIFT);
    lemma_shift_bits((k.modifiers | SHIFT) & !SHIFT);
}

/// Computes `normalized`.
pub fn normalize(k: KeyCombo) -> (r: KeyCombo)
    ensures
        r == normalized(k),
{
    match k.code {
        Code::Char(c) => {
            if c == '\r' || c == '\n' {
                KeyCombo { code: Code::Enter, modifiers: k.modifiers }
            } else if k.modifiers & SHIFT == SHIFT {
                KeyCombo { code: Code::Char(upper_char(c)), modifiers: k.modifiers }
            } else if 'A' <= c && c <= 'Z' {
                KeyCombo { code: k.code, modifiers: k.modifiers | SHIFT }
            } else {
                k
            }
        },
        _ => k,
    }
}

/// Computes `canonical`.
pub fn canonicalize(k: KeyCombo) -> (r: KeyCombo)
    ensures
        r == canonical(k),
{
    let n = normalize(k);
    match n.code {
        Code::Char(c) => {
            let alpha = ('A' <= c && c <= 'Z') || ('a' <= c && c <= 'z');
            if n.modifiers & SHIFT == SHIFT && !alpha {
                KeyCombo { code: n.code, modifiers: n.modifiers & !SHIFT }
            } else {
                n
            }
        },
        _ => n,
    }
}


/// What `crokey::parse` makes of a key string: the first key code, the
/// number of key codes and the modifier bits, or the parse error's message.
pub uninterp spec fn spec_crokey_parse(raw: Seq<char>) -> Result<(Code, usize, u8), Seq<char>>;

/// What crokey's standard format (`Display` of `KeyCombination`) writes for
/// a single-code key combination.
pub uninterp spec fn spec_key_name(key: KeyCombo) -> Seq<char>;

/// What `format!("{:?}", s)` writes for a string: its quoted, escaped form.
pub uninterp spec fn spec_debug_quote(s: Seq<char>) -> Seq<char>;

/// Calls `crokey::parse`. Claims that the result is a function of the input
/// string alone, named `spec_crokey_parse`; nothing more is claimed.
#[verifier::external_body]
fn crokey_parse(raw: &str) -> (r: Result<(Code, usize, u8), String>)
    ensures
        spec_crokey_parse(raw@) == match r {
            Ok(t) => Ok(t),
            Err(e) => Err(e@),
        },
{
    match crokey::parse(raw) {
        Ok(k) => {
            let code = match *k.codes.first() {
                TermKeyCode::Char(c) => Code::Char(c),
                TermKeyCode::F(n) => Code::F(n),
                TermKeyCode::Enter => Code::Enter,
                other => Code::Other(other),
            };
            Ok((code, k.codes.len(), k.modifiers.bits()))
        },
        Err(e) => Err(e.to_string()),
    }
}

/// The first key code, the number of key codes and the modifier bits of a
/// crokey key combination, as read from its fields.
pub uninterp spec fn spec_crokey_parts(key: crokey::KeyCombination) -> (Code, usize, u8);

/// Splits a `crokey::KeyCombination` into its first key code, its number of
/// key codes and its modifier bits (reading its public fields `codes` and
/// `modifiers`). Claims that the parts are a function of the combination
/// alone, named `spec_crokey_parts`.
#[verifier::external_body]
fn crokey_parts(key: crokey::KeyCombination) -> (r: (Code, usize, u8))
    ensures
        r == spec_crokey_parts(key),
{
    let code = match *key.codes.first() {
        TermKeyCode::Char(c) => Code::Char(c),
        TermKeyCode::F(n) => Code::F(n),
        TermKeyCode::Enter => Code::Enter,
        other => Code::Other(other),
    };
    (code, key.codes.len(), key.modifiers.bits())
}

/// Builds the crokey key combination of `key` and formats it with crokey's
/// `Display` (its standard format). Claims that the text is a function of
/// `key` alone, named `spec_key_name`.
#[verifier::external_body]
pub(crate) fn key_name(key: &KeyCombo) -> (r: String)
    ensures
        r@ == spec_key_name(*key),
{
    let code = match key.code {
        Code::Char(c) => TermKeyCode::Char(c),
        Code::F(n) => TermKeyCode::F(n),
        Code::Enter => TermKeyCode::Enter,
        Code::Other(other) => other,
    };
    let mods = TermKeyModifiers::from_bits_retain(key.modifiers);
    crokey::KeyCombination::one_key(code, mods).to_string()
}

/// What `crokey::KeyCombinationFormat::to_string` writes for the crokey
/// combination of a single-code key.
pub uninterp spec fn spec_key_name_with(format: crokey::KeyCombinationFormat, key: KeyCombo) -> Seq<char>;

/// Formats `key` with a caller-chosen `crokey::KeyCombinationFormat`
/// (`KeyCombinationFormat::to_string`). Claims that the text is a function
/// of the format and the key alone, named `spec_key_name_with`.
#[verifier::external_body]
pub(crate) fn key_name_with(format: &crokey::KeyCombinationFormat, key: &KeyCombo) -> (r: String)
    ensures
        r@ == spec_key_name_with(*format, *key),
{
    let code = match key.code {
        Code::Char(c) => TermKeyCode::Char(c),
        Code::F(n) => TermKeyCode::F(n),
        Code::Enter => TermKeyCode::Enter,
        Code::Other(other) => other,
    };
    let mods = TermKeyModifiers::from_bits_retain(key.modifiers);
    format.to_string(crokey::KeyCombination::one_key(code, mods))
}

/// `format!("{:?}", s)`; claims the result depends on `s` alone.
#[verifier::external_body]
pub(crate) fn debug_quote(s: &str) -> (r: String)
    ensures
        r@ == spec_debug_quote(s@),
{
    format!("{:?}", s)
}

/// crossterm's derived `PartialEq` on `KeyCode`: claims it holds exactly for
/// identical values (the type is a plain enum of unit variants, characters,
/// numbers and plain enums).
#[verifier::external_body]
fn term_code_eq(a: &TermKeyCode, b: &TermKeyCode) -> (r: bool)
    ensures
        r == (*a == *b),
{
    *a == *b
}

impl KeyCombo {
    /// The key's name in crokey's standard format (as `describe` shows it).
    pub fn name(&self) -> (r: String)
        ensures
            r@ == spec_key_name(*self),
    {
        key_name(self)
    }
}

/// Equality of key combinations.
pub fn key_eq(a: &KeyCombo, b: &KeyCombo) -> (r: bool)
    ensures
        r == (*a == *b),
{
    if a.modifiers != b.modifiers {
        return false;
    }
    match (&a.code, &b.code) {
        (Code::Char(x), Code::Char(y)) => *x == *y,
        (Code::F(x), Code::F(y)) => *x == *y,
        (Code::Enter, Code::Enter) => true,
        (Code::Other(x), Code::Other(y)) => term_code_eq(x, y),
        _ => false,
    }
}

/// Whether `k` occurs in `v`.
pub fn contains_key(v: &Vec<KeyCombo>, k: &KeyCombo) -> (r: bool)
    ensures
        r == v@.contains(*k),
{
    let mut i: usize = 0;
    while i < v.len()
        invariant
            i <= v.len(),
            forall|j: int| 0 <= j < i ==> v@[j] != *k,
        decreases v.len() - i,
    {
        if key_eq(&v[i], k) {
            assert(v@[i as int] == *k);
            return true;
        }
        i = i + 1;
    }
    false
}

/// The text after the last `'-'` of `s` (all of `s` when it has none): the
/// first item of `s.rsplit('-')`.
pub open spec fn last_segment(s: Seq<char>) -> Seq<char>
    decreases s.len(),
{
    if s.len() == 0 {
        s
    } else if s.last() == '-' {
        Seq::empty()
    } else {
        last_segment(s.drop_last()).push(s.last())
    }
}

/// A key string whose last segment is one uppercase ASCII letter (`"G"`,
/// `"ctrl-G"`) asks for SHIFT, which `crokey::parse` drops when it
/// lowercases its input.
pub open spec fn implies_shift(raw: Seq<char>) -> bool {
    let seg = last_segment(raw);
    seg.len() == 1 && is_ascii_upper(seg[0])
}

proof fn lemma_last_segment_from(s: Seq<char>, p: int)
    requires
        0 <= p <= s.len(),
        forall|j: int| p <= j < s.len() ==> s[j] != '-',
        p == 0 || s[p - 1] == '-',
    ensures
        last_segment(s) == s.skip(p),
    decreases s.len(),
{
    if s.len() == p {
        if p > 0 {
            assert(s.last() == '-');
        }
        assert(s.skip(p) =~= Seq::<char>::empty());
    } else {
        lemma_last_segment_from(s.drop_last(), p);
        assert(s.skip(p) =~= s.drop_last().skip(p).push(s.last()));
    }
}

/// Computes `implies_shift`.
fn raw_implies_shift(raw: &str) -> (r: bool)
    ensures
        r == implies_shift(raw@),
{
    let chars = crate::text::chars_of(raw);
    let n = chars.len();
    let mut p: usize = n;
    while p > 0 && chars[p - 1] != '-'
        invariant
            p <= n,
            n == chars@.len(),
            forall|j: int| p <= j < n ==> chars@[j] != '-',
        decreases p,
    {
        p = p - 1;
    }
    proof {
        lemma_last_segment_from(chars@, p as int);
    }
    assert(last_segment(raw@).len() == n - p);
    if n - p == 1 {
        let c = chars[p];
        assert(last_segment(raw@)[0] == c);
        65 <= (c as u32) && (c as u32) <= 90
    } else {
        false
    }
}

/// The message for a key string naming several key codes at once.
pub open spec fn multi_key_message(raw: Seq<char>) -> Seq<char> {
    "multi-key combination "@ + spec_debug_quote(raw)
        + " is not supported (bind a single key, optionally with modifiers)"@
}

/// What the keymap makes of one key string: crokey's parse, refused when it
/// names more than one key code, SHIFT added when `implies_shift`, then
/// `canonical`.
pub open spec fn spec_parse_key(raw: Seq<char>) -> Result<KeyCombo, Seq<char>> {
    match spec_crokey_parse(raw) {
        Err(e) => Err(e),
        Ok((code, count, m)) => {
            if count != 1 {
                Err(multi_key_message(raw))
            } else {
                let m2 = if implies_shift(raw) { m | SHIFT } else { m };
                Ok(canonical(KeyCombo { code, modifiers: m2 }))
            }
        },
    }
}

/// Parses one key string (crokey syntax, `-` separated). A single uppercase
/// letter implies shift; multi-key chords are refused.
pub fn parse_key(raw: &str) -> (r: Result<KeyCombo, String>)
    ensures
        spec_parse_key(raw@) == match r {
            Ok(k) => Ok(k),
            Err(e) => Err(e@),
        },
{
    let (code, count, m) = match crokey_parse(raw) {
        Ok(t) => t,
        Err(e) => return Err(e),
    };
    if count != 1 {
        let mut msg = String::from_str("multi-key combination ");
        let quoted = debug_quote(raw);
        msg.append(quoted.as_str());
        msg.append(" is not supported (bind a single key, optionally with modifiers)");
        return Err(msg);
    }
    let m2 = if raw_implies_shift(raw) {
        m | SHIFT
    } else {
        m
    };
    Ok(canonicalize(KeyCombo { code, modifiers: m2 }))
}

/// The key a crokey combination with these parts stands for: its
/// canonical form when it names exactly one key code, none otherwise (a
/// chord, which no binding can match).
pub open spec fn key_from_parts(code: Code, count: usize, modifiers: u8) -> Option<KeyCombo> {
    if count == 1 {
        Some(canonical(KeyCombo { code, modifiers }))
    } else {
        None
    }
}

/// The key of a crokey combination given by its first key code, its number
/// of key codes and its modifier bits.
pub fn from_parts(code: Code, count: usize, modifiers: u8) -> (r: Option<KeyCombo>)
    ensures
        r == key_from_parts(code, count, modifiers),
        r matches Some(k) ==> k == canonical(k),
{
    if count == 1 {
        proof {
            lemma_canonical_idempotent(KeyCombo { code, modifiers });
        }
        Some(canonicalize(KeyCombo { code, modifiers }))
    } else {
        None
    }
}

/// Splits a crokey key combination (for instance one converted from a
/// crossterm key event) into its parts and makes its key of them (see
/// `key_from_parts`); `None` when it names more than one key code.
pub fn from_crokey(key: crokey::KeyCombination) -> (r: Option<KeyCombo>)
    ensures
        r matches Some(k) ==> k == canonical(k),
        r == key_from_parts(spec_crokey_parts(key).0, spec_crokey_parts(key).1, spec_crokey_parts(key).2),
{
    let (code, count, m) = crokey_parts(key);
    from_parts(code, count, m)
}


/// No key occurs twice.
pub open spec fn distinct_keys(s: Seq<KeyCombo>) -> bool {
    forall|i: int, j: int| 0 <= i < j < s.len() ==> s[i] != s[j]
}

/// What the keymap makes of a list of key strings: each parsed in order,
/// repeats dropped (first occurrence kept); the first string that fails
/// fails the whole list, with that string and its message.
pub open spec fn spec_parse_keys(raws: Seq<Seq<char>>) -> Result<Seq<KeyCombo>, (Seq<char>, Seq<char>)>
    decreases raws.len(),
{
    if raws.len() == 0 {
        Ok(Seq::empty())
    } else {
        match spec_parse_keys(raws.drop_last()) {
            Err(e) => Err(e),
            Ok(out) => match spec_parse_key(raws.last()) {
                Err(m) => Err((raws.last(), m)),
                Ok(k) => Ok(
                    if out.contains(k) {
                        out
                    } else {
                        out.push(k)
                    },
                ),
            },
        }
    }
}

/// A failure in a prefix of the list is the failure of the whole list.
proof fn lemma_parse_keys_err_extends(raws: Seq<Seq<char>>, i: int, j: int)
    requires
        0 <= i <= j <= raws.len(),
        spec_parse_keys(raws.take(i)) is Err,
    ensures
        spec_parse_keys(raws.take(j)) == spec_parse_keys(raws.take(i)),
    decreases j - i,
{
    if j > i {
        lemma_parse_keys_err_extends(raws, i, j - 1);
        assert(raws.take(j).drop_last() =~= raws.take(j - 1));
    }
}

/// Every key that a successful parse returns is canonical, and none repeats.
pub proof fn lemma_parse_keys_ok(raws: Seq<Seq<char>>)
    ensures
        spec_parse_keys(raws) matches Ok(out) ==> distinct_keys(out) && forall|k: KeyCombo|
            out.contains(k) ==> k == canonical(k),
    decreases raws.len(),
{
    if raws.len() > 0 {
        lemma_parse_keys_ok(raws.drop_last());
        if let Ok((code, count, m)) = spec_crokey_parse(raws.last()) {
            lemma_canonical_idempotent(KeyCombo { code, modifiers: m });
            lemma_canonical_idempotent(KeyCombo { code, modifiers: m | SHIFT });
        }
        if let Ok(out) = spec_parse_keys(raws) {
            assert forall|k: KeyCombo| out.contains(k) implies k == canonical(k) by {
                let prev = spec_parse_keys(raws.drop_last())->Ok_0;
                if !prev.contains(k) {
                    let idx = choose|x: int| 0 <= x < out.len() && out[x] == k;
                    assert(idx == prev.len());
                }
            }
        }
    }
}

/// Parses every key string of `raws` (see `spec_parse_keys`).
pub fn parse_keys(raws: &Vec<String>) -> (r: Result<Vec<KeyCombo>, (String, String)>)
    ensures
        spec_parse_keys(strings_view(raws@)) == match r {
            Ok(v) => Ok(v@),
            Err((raw, msg)) => Err((raw@, msg@)),
        },
{
    let ghost all = strings_view(raws@);
    let mut out: Vec<KeyCombo> = Vec::new();
    let mut i: usize = 0;
    assert(all.take(0) =~= Seq::<Seq<char>>::empty());
    while i < raws.len()
        invariant
            i <= raws.len(),
            all == strings_view(raws@),
            spec_parse_keys(all.take(i as int)) == Ok::<Seq<KeyCombo>, (Seq<char>, Seq<char>)>(out@),
        decreases raws.len() - i,
    {
        assert(all.take(i + 1).drop_last() =~= all.take(i as int));
        assert(all.take(i + 1).last() == raws@[i as int]@);
        match parse_key(raws[i].as_str()) {
            Ok(k) => {
                if !contains_key(&out, &k) {
                    out.push(k);
                }
            },
            Err(msg) => {
                proof {
                    lemma_parse_keys_err_extends(all, i + 1, all.len() as int);
                    assert(all.take(all.len() as int) =~= all);
                }
                return Err((raws[i].clone(), msg));
            },
        }
        i = i + 1;
    }
    assert(all.take(raws.len() as int) =~= all);
    Ok(out)
}

} // verus!
