# markplus_core

A Markdown → JSON AST compiler, verified with Verus. A document (with
optional YAML frontmatter) becomes a versioned site asset: schema version,
frontmatter metadata, and an array of block nodes, each with a `"t"` type.

## Layout

- `src/` — the library, every function with a contract:
  - `event_filter.rs`, `prepass.rs`, `transform.rs`, `widgets.rs`, `attrs.rs`:
    the frontmatter split, the `:::name` directive pre-pass, the enriched
    event stream (inline widgets, link/image attributes);
  - `cmark.rs`, `config.rs`: the CommonMark events that `pulldown_cmark`
    produces, as plain values;
  - `ast_spec.rs`, `ast.rs`: the AST builder and what it computes;
  - `schema.rs`: the fields that each node type carries, and the law that
    the built blocks carry them;
  - `frontmatter.rs`: the YAML subset read from frontmatter;
  - `json.rs`, `json_value.rs`: the site asset, its validation, JSON data
    files as tables and definition lists;
  - `csv.rs`, `code.rs`, `mermaid.rs`: CSV, source code and Mermaid files
    as AST nodes;
  - `plugins.rs`, `flat.rs`, `typst.rs`: renderer plugins, the flat token
    list, and Typst output from it.
- `tests/` — tests of the library on concrete documents.
- `app/` — the `mpc` command-line program, file reading, and the serde form
  of the site asset.
