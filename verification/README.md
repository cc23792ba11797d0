# omarchy-zed-theme

Generates a theme for the Zed editor from the palette of an Omarchy desktop, publishes
it, and switches the editor's settings to it and back.

`src/` is the library. Verus proves what each of its functions promises:

| module | what it decides |
| --- | --- |
| `color`, `text`, `map`, `order`, `scalar` | byte colors and compositing, texts, ordered maps, orders of ranks, binary64 measurements |
| `json`, `json_bytes`, `json_value` | JSON trees, how they are written, and the values of `serde_json` |
| `palette` | what a resolved palette is and how the resolver's output is read |
| `search` | what measured candidates are ranked by, and which color, state, pair or overlay is chosen among them |
| `syntax` | evidence, hue clusters, the forest of semantic families and the captures |
| `theme` | scenes, surfaces, boundaries, roles, what each role is fitted from, and the document of the theme |
| `publish` | when a file is written, replaced, left alone or given up |
| `zed_settings` | edits of the settings document, the saved state, activation and restoration |

Perceptual measurements are floating-point arithmetic, and so are the bands that a palette
gives its interface and the limits that follow from colors fitted before. They are computed
in `app/`, which therefore also holds the order of the fits, and reach the library as
`scalar::Scalar` values, which hold the bits of a binary64 number. Decimal constants of the
library count thousandths.

`app/` is the program: it measures, performs file operations and talks to the user.
`tests/` runs the library; `tests/measured.rs` brings its own copy of the measurements.

The library edits JSON with comments through `jsonc_parser` and reads and writes JSON
through `serde_json`. What is taken from these crates without proof stands in
`src/zed_settings/outside.rs` and `src/json_value.rs`, one item for each operation, with
the claim in its doc comment.
