# zjstatus rendering, verified

The format-string engine of the zjstatus status bar for Zellij, written in
Verus: segments such as `#[fg=$accent,bg=text_selected.background,bold]{mode}`
are parsed into formatted parts, their colors are resolved against the current
theme, their widget placeholders are filled (reusing cached widget output until
an event makes it stale), and the result is rendered with `anstyle`.

Layout:

- `src/text.rs`: the model of `split`, `join`, `replace` over characters and
  verified versions of them.
- `src/text_map.rs`: a text-keyed map (configuration, widget cache).
- `src/numbers.rs`: decimal and `RRGGBB` number parsing.
- `src/palette.rs`: the theme (Zellij's `Styling`) and the render state.
- `src/color.rs`: color specifications, aliases and palette names.
- `src/mask.rs`: widget placeholders and update masks.
- `src/style.rs`: text effects and rendering through `anstyle`.
- `src/part.rs`: formatted parts: parsing and rendering with widgets.
- `src/laws.rs`: properties that span several functions.
- `app/lib.rs`: plugin glue: memoized parsing, conversions from Zellij types.
