# fm_parser

A Mermaid and Graphviz DOT parser whose logic is verified with Verus.

`parse` detects what kind of document it is given (exact header, fuzzy header, content
heuristics, DOT, or a fallback) and lowers it into a diagram IR: nodes interned by id, labels
interned by text, edges, clusters and subgraphs, constraints and styles. Every IR the entry
points return is well formed: node ids and label texts are distinct, and every reference names
something that exists.

## Layout

- `src/` — the verified library.
  - `detect.rs`, `heuristics.rs`, `dot_detect.rs`: diagram type detection.
  - `ir.rs`, `builder.rs`: the IR and the builder that keeps it well formed.
  - `flow_tokens.rs`, `flowchart.rs`, `directives.rs`: flowcharts.
  - `diagrams.rs`, `er.rs`, `gitgraph.rs`: the line-oriented diagram families.
  - `dot_*.rs`: the DOT parser.
  - `init.rs`: `%%{init: …}%%` directives (JSON, then JSON5, through serde_json and json5).
  - `identifier.rs`: identifier normalisation (grapheme fallback through unicode-segmentation).
  - `format.rs`: the format complement (line endings, whitespace, comments, directives, quotes).
  - `lens.rs`, `ir_diff.rs`: the flowchart lens that writes label edits back into the source.
  - `parser.rs`: the entry points.
  - `batch.rs`: the batch plan that groups flowcharts sharing their leading subgraph blocks, and
    hands each worker its parses through a scratch slot, with the shared prefix certified.
- `tests/` — tests run against the compiled library.
- `app/` — serialisable copies of the result types, a JSON evidence summary, and the
  conversion of DOT spacing requests from inches to layout units (floating point).
