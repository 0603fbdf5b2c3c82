# qlang

The verified core of the tooling for the Qlang language: its lexer, its
source formatter, its high-level intermediate representation and the logic
of its language server. Every function in `src/` carries a contract that
Verus proves, except three small trusted wrappers over std
(`char::is_alphabetic`, `char::is_alphanumeric`, `String::push`) whose
contracts restate std's documentation; `app/` holds the server process around it (standard I/O, the
LSP transport and its message types).

## Layout

- `span`, `text`, `strings`: byte spans, UTF-8 / UTF-16 offsets of char
  sequences, and the string operations the rest builds on.
- `lexer`: the token stream of a source text, with the laws of that stream.
- `ast`, `fmt`, `fmt_expr`, `fmt_item`: the syntax tree and its formatter,
  whose output is specified text for text.
- `hir`: arena-based semantic representation with typed ids.
- `bridge`: positions, ranges and offsets as editors count them.
- `locations`, `occurrences`, `rename`, `references`, `broken`, `imports`:
  locations and their normalization, identifiers under the cursor, rename
  edits and references, and the reading of the import header and the
  declarations of sources that may not parse.
- `semantic_tokens`, `symbol_kinds`, `completion`, `hover`, `features`,
  `editor`, `code_lens`, `document_links`, `lsp_diagnostics`, `formatting`, `workspace`,
  `diagnostics`, `cli`: the editor features computed from a source text.
- `symbol_search`: matching workspace symbols against a query, and their
  answer order.

## Running

`tests/` holds the tests of the library; `app/main.rs` is the server's
entry point (`--version` prints the version).
