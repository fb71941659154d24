# jmmview

Finds Mermaid diagrams in Markdown and HTML documents, rewrites HTML pages so
that their diagrams are inlined as SVG (dropping the Mermaid CDN scripts), and
exports or previews diagrams through the headless `merman` renderer.

Layout:

- `src/` — the library, verified with Verus:
  - `text.rs`: characters, whitespace, `str::lines`, trimming, decimal numbers;
  - `extract/markdown.rs`: mermaid fences in Markdown;
  - `extract/html.rs`: mermaid elements in HTML, script and comment regions,
    the style sheet;
  - `extract/rewrite.rs`: the HTML rewrite and its laws;
  - `pattern.rs`, `entities.rs`: the calls into `regex` and `htmlize`;
  - `renderer.rs`: formats, background colours, theme selection;
  - `commands.rs`: the decisions of the `render`, `html` and `export` commands.
- `app/` — the command-line program: argument parsing, files, and rendering
  with `merman` under a panic guard.
- `tests/` — tests of the library.
