# mdbook_modern_dot

An mdBook preprocessor that renders fenced `modern-dot` code blocks with
Graphviz, optionally in a light and a dark variant.

- `src/` is the library, verified with Verus: file names of rendered diagrams
  (`block`), settings (`config`), the rewrite of a chapter's Markdown events
  (`engine`), HTML for diagrams and the clean-up of SVG output (`html`), the
  Markdown events as values (`markdown`), the `dot` runs a diagram needs and
  the events that replace it (`render`), theme tokens, placeholders and
  preambles (`theme`), and the style sheet injected once per chapter
  (`theme_css`). Which events a chapter's text parses into, and which text a
  list of events is written as, are what `pulldown_cmark` and
  `pulldown_cmark_to_cmark` compute: the contracts of the rewrite are stated
  over those two results, which are named and not proved.
- `app/` is the program around it: command line, reading `book.toml` and theme
  files, running `dot`, and walking the book concurrently.
- `tests/` exercises the library.
