# ratatui_kit_contrib

Verified core of a set of ratatui-kit extensions:

- `keymap` — configurable keybindings: default tables declared in code, user
  overrides merged with warnings instead of errors (parse errors, invalid
  values, unknown actions, conflicts reverted round after round), dispatch
  of a key (or a crokey key combination) to the action whose keys hold it,
  help names and a commented TOML template.
- `diff` — line diffs by `similar`, word-level detail on small one-line
  replacements, and their rendering as styled lines with an optional gutter.
- `markdown` — parsed Markdown blocks laid out as render rows (spacing,
  heading and list prefixes, inline code and link styles, tables sized by
  display width) and their exact height.
- `code_block`, `blockquote`, `divider` — the other components' styles,
  text and geometry.
- `color`, `style`, `theme`, `themes` — terminal colours and their RGB
  values, ratatui's style patching, palette-derived theme slots, and the
  conversion of `ratatui-themes` palettes.

`src/` is verified with Verus; every call into `crokey`, `similar`,
`syntect`, `unicode-width` and `toml` goes through a small trusted wrapper
whose contract, stated next to it, either says what the call returns or
ties its result, by an uninterpreted name, to the call's arguments.
`app/` holds what needs ratatui-kit's component and event machinery, serde,
or floating point (WCAG contrast).
