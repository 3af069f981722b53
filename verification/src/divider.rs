//! Horizontal rules: a line of one repeated character in the divider style.
use vstd::prelude::*;
use crate::style::{Style, resolved, resolve_style};
use crate::theme::DividerTheme;

verus! {

/// What the divider component reads of its properties.
#[derive(Debug, Clone, Copy, PartialEq, Eq, Structural)]
pub struct DividerProps {
    /// The rule character; `'─'` by default.
    pub char: Option<char>,
    /// Override of the rule style: `None` keeps the theme, a style patches
    /// it, `Style::reset()` clears it.
    pub style_cfg: Option<Style>,
}

impl Default for DividerProps {
    fn default() -> (r: DividerProps)
        ensures
            r == (DividerProps { char: Some('─'), style_cfg: None }),
    {
        DividerProps { char: Some('─'), style_cfg: None }
    }
}

/// How many times the character is repeated; the rendering clips the line
/// to the area.
pub const RULE_LEN: usize = 256;

/// The rule of some properties under a theme: the character (`'─'` when
/// none) repeated `RULE_LEN` times, in the theme's style patched with the
/// override.
pub open spec fn rule_of(props: DividerProps, theme: DividerTheme) -> (Seq<char>, Style) {
    let c = match props.char {
        Some(c) => c,
        None => '─',
    };
    (Seq::new(RULE_LEN as nat, |i: int| c), resolved(theme.style, props.style_cfg))
}

/// The text of a single character (`char::to_string`).
#[verifier::external_body]
fn char_string(c: char) -> (r: String)
    ensures
        r@ == seq![c],
{
    c.to_string()
}

/// The rule's text and style.
pub fn divider_line(props: &DividerProps, theme: DividerTheme) -> (r: (String, Style))
    ensures
        (r.0@, r.1) == rule_of(*props, theme),
{
    let ch = match props.char {
        Some(c) => c,
        None => '─',
    };
    let one = char_string(ch);
    let mut line = String::new();
    let mut k: usize = 0;
    while k < RULE_LEN
        invariant
            k <= RULE_LEN,
            one@ == seq![ch],
            line@ == Seq::new(k as nat, |i: int| ch),
        decreases RULE_LEN - k,
    {
        line.append(one.as_str());
        assert(line@ =~= Seq::new((k + 1) as nat, |i: int| ch));
        k = k + 1;
    }
    (line, resolve_style(theme.style, props.style_cfg))
}

} // verus!
