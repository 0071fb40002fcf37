# markplus

Include processing for MarkPlus documents, and the `markplus-oss` command
line, with the decisions verified by Verus.

A MarkPlus document is a frontmatter value and an AST of JSON nodes. Fenced
blocks named `include` are replaced by the files they name (Markdown, CSV,
JSON, Mermaid or source code); an included Markdown file has its own includes
expanded relative to its directory and its frontmatter merged into the
parent's. Frontmatter `tabs` turn the document into a group of tabs.

## Layout

- `src/` — the verified library.
  - `json.rs`: JSON values and their mathematical view.
  - `frontmatter.rs`: merging an included document's frontmatter, with its laws.
  - `resolve.rs`, `paths.rs`: include paths (`@/`, absolute, relative).
  - `handlers.rs`: which handler a file goes to, and the errors each reports.
  - `loads.rs`, `includes.rs`, `tabs.rs`, `document.rs`: expansion, which
    reads the file system only through a table of recorded answers and says
    what it needs next.
  - `guarantees.rs`: properties of expansion as a whole.
  - `cli.rs`: what the subcommands write, from their arguments.
- `app/` — the program: argument parsing, reading and writing files,
  rendering, and the loop that answers what expansion needs.
- `tests/` — tests of the library.
