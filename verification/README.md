# generator

The verified core of a quote-image generator: the pieces that decide what
an image shows, with their behaviour stated as Verus contracts and proved.

## Layout

- `src/` — the library, verified by Verus.
  - `parser`, `framing` — the segment wire format (`type;length;data[,]`,
    lengths in UTF-8 bytes) and its text layers; `framing` states what
    reading back a written message gives.
  - `color` — hex colours, strict and lenient, and how the two agree.
  - `entities`, `json` — message entities as styled byte ranges.
  - `style`, `dsl`, `templater`, `primitives` — the template DSL: style
    modifiers and the settings they write, the argument lists of its
    constructors, the payload a template receives.
  - `layout` — the content font of a template and the size of a bubble.
  - `readback` — the pixels of a frame read out of a padded GPU buffer,
    and the frame written as a WebP file.
  - `spoiler` — which glyph clusters a spoiler covers.
  - `emoji` — Twemoji names of graphemes and the rewrite of a template.
  - `compressor` — zstd framing of payloads and results.
  - `lexical` — characters, decimals, trimming and UTF-8 lengths.
- `tests/` — tests of the library on concrete values.
- `app/` — the program around the library: the emoji job worker, and the
  rendering service's work with the outside crates (layout engine, GPU
  renderer, template engine, queues).
