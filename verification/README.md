# gazu

The verified core of a Pandoc JSON filter for Mermaid diagrams: it finds
every Mermaid `CodeBlock` anywhere in a Pandoc AST, in depth-first order,
and replaces each rendered one with inline SVG (`RawBlock("html", ...)`) or,
for formats that drop raw HTML, with a `Para[Image]` pointing at an SVG file
under `gazu/`. A block that failed to render is left as it was, with a
warning.

- `src/json.rs`: the JSON value the filter works on, its model and accessors,
  and parsing and writing it through serde_json.
- `src/pandoc.rs`: finding Mermaid blocks, building replacement nodes,
  applying render outcomes to a document.
- `src/filter.rs`: planning replacements, files and warnings from outcomes.
- `src/renderer.rs`: the outcome of rendering one diagram.
- `src/cli.rs`: the command line, help and version text, config check.
- `src/text.rs`: decimal and hexadecimal digits.
- `src/laws.rs`: properties of the filter as a whole, proved.
- `app/`: the program: reading stdin and files, printing, writing SVG files,
  and rendering through sekien.
