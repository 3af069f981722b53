//! Two-version text diff: computing the line and word diff, resolving the
//! diff theme against the component's overrides, and rendering the result.
pub mod compute;
pub mod render;

use vstd::prelude::*;
use crate::color::Color;
use crate::style::{Style, resolved, color_overridden};
use crate::theme::DiffTheme;
use crate::rich::{Line, lines_view};
use crate::diff::compute::{compute_diff, spec_compute_diff};
use crate::diff::render::{render_diff, rendered_diff};

verus! {

/// What the diff component reads of its properties.
#[derive(Debug, Clone)]
pub struct DiffProps {
    /// The old text.
    pub old: String,
    /// The new text.
    pub new: String,
    /// Whether to show line numbers; no by default.
    pub show_line_numbers: Option<bool>,
    /// Foreground of added lines (wins over `add_style`).
    pub add_fg: Option<Color>,
    /// Background of added lines (wins over `add_style`).
    pub add_bg: Option<Color>,
    /// Foreground of removed lines (wins over `remove_style`).
    pub remove_fg: Option<Color>,
    /// Background of removed lines (wins over `remove_style`).
    pub remove_bg: Option<Color>,
    /// Colour of line numbers (wins over `line_number_style`).
    pub line_num_color: Option<Color>,
    /// Override of the added-line style: `None` keeps the theme, a style
    /// patches it, `Style::reset()` clears it.
    pub add_style: Option<Style>,
    /// Override of the removed-line style.
    pub remove_style: Option<Style>,
    /// Override of the unchanged-line style.
    pub unchanged_style: Option<Style>,
    /// Override of the line number style.
    pub line_number_style: Option<Style>,
}

impl Default for DiffProps {
    fn default() -> (r: DiffProps)
        ensures
            r.old@ == Seq::<char>::empty(),
            r.new@ == Seq::<char>::empty(),
            r.show_line_numbers == Some(false),
            r.add_fg is None,
            r.add_bg is None,
            r.remove_fg is None,
            r.remove_bg is None,
            r.line_num_color is None,
            r.add_style is None,
            r.remove_style is None,
            r.unchanged_style is None,
            r.line_number_style is None,
    {
        DiffProps {
            old: String::new(),
            new: String::new(),
            show_line_numbers: Some(false),
            add_fg: None,
            add_bg: None,
            remove_fg: None,
            remove_bg: None,
            line_num_color: None,
            add_style: None,
            remove_style: None,
            unchanged_style: None,
            line_number_style: None,
        }
    }
}

/// The effective diff theme: each slot patched with its style override,
/// then the legacy per-channel colours on top.
pub open spec fn resolved_diff_theme(props: DiffProps, base: DiffTheme) -> DiffTheme {
    DiffTheme {
        add_style: color_overridden(resolved(base.add_style, props.add_style), props.add_fg, props.add_bg),
        remove_style: color_overridden(
            resolved(base.remove_style, props.remove_style),
            props.remove_fg,
            props.remove_bg,
        ),
        unchanged_style: resolved(base.unchanged_style, props.unchanged_style),
        line_number_style: color_overridden(
            resolved(base.line_number_style, props.line_number_style),
            props.line_num_color,
            None,
        ),
    }
}

/// Resolves the effective diff theme from the theme-derived slots and the
/// component's overrides: style overrides patch first, then the legacy
/// colour properties win on the channels they control.
pub fn resolve_theme(props: &DiffProps, base: DiffTheme) -> (r: DiffTheme)
    ensures
        r == resolved_diff_theme(*props, base),
{
    DiffTheme {
        add_style: crate::style::apply_color_override(
            crate::style::resolve_style(base.add_style, props.add_style),
            props.add_fg,
            props.add_bg,
        ),
        remove_style: crate::style::apply_color_override(
            crate::style::resolve_style(base.remove_style, props.remove_style),
            props.remove_fg,
            props.remove_bg,
        ),
        unchanged_style: crate::style::resolve_style(base.unchanged_style, props.unchanged_style),
        line_number_style: crate::style::apply_color_override(
            crate::style::resolve_style(base.line_number_style, props.line_number_style),
            props.line_num_color,
            None,
        ),
    }
}

/// The text the diff component shows: the diff of its two texts, rendered
/// with the resolved theme, with line numbers when asked for.
pub fn diff_text(props: &DiffProps, base: DiffTheme) -> (r: Vec<Line>)
    ensures
        lines_view(r@) == rendered_diff(
            spec_compute_diff(props.old@, props.new@),
            props.show_line_numbers == Some(true),
            resolved_diff_theme(*props, base),
        ),
{
    let show_line_numbers = match props.show_line_numbers {
        Some(b) => b,
        None => false,
    };
    let theme = resolve_theme(props, base);
    let diff_lines = compute_diff(props.old.as_str(), props.new.as_str());
    render_diff(diff_lines.as_slice(), show_line_numbers, &theme)
}

} // verus!
