# presetcss

A utility-first CSS framework configured by one flat TOML preset: token groups
such as `[colors]` are plain `key = "value"` maps, writing a group replaces the
built-in one, `[extend.*]` adds to it, variants are opt-in per group, and
`[utilities]` takes raw CSS.

The library is written in Verus. Every function in `src/` carries a contract over
a mathematical model (sequences of entries for the ordered token maps, plain
records for presets, themes, rules and diagnostics), and Verus proves the code
against it. `src/laws.rs` states and proves properties of the library as a whole:
how defaults and extensions merge, what a checked theme guarantees, how
tree-shaking relates to the full stylesheet, that variants are opt-in, and that
escaped selectors read back as their class.

## Layout

- `src/preset.rs` reads a preset out of a TOML document and reports unknown
  tables and options; `src/toml_doc.rs` is the boundary to the `toml` crate.
- `src/theme.rs` merges a preset with the defaults and checks the result.
- `src/generate.rs` expands a theme into CSS rules; `src/emit.rs` writes them out,
  and exports design tokens as JSON, JavaScript or CSS custom properties.
- `src/scan.rs` decides which content files count and what their text contributes
  to tree-shaking; `src/describe.rs` explains classes and lists tokens.
- `src/error.rs`, `src/text.rs` and `src/maps.rs` hold diagnostics, character-level
  helpers and the ordered maps.
- `src/web.rs` holds the browser entry points.
- `app/` is the `presetcss` command line: it reads and writes files, walks content
  directories and watches for changes, and leaves every decision to the library.
- `tests/` runs the library on concrete presets.
