pub mod span;
pub mod text;
pub mod lexer;
pub mod lsp_diagnostics;
pub mod bridge;
pub mod locations;
pub mod strings;
pub mod editor;
pub mod fmt;
pub mod fmt_expr;
pub mod fmt_item;
pub mod cli;
pub mod code_lens;
pub mod completion;
pub mod semantic_tokens;
pub mod symbol_kinds;
pub mod workspace;
pub mod formatting;
pub mod imports;
pub mod diagnostics;
pub mod document_links;
pub mod ast;
pub mod hir;
pub mod hover;
pub mod features;
pub mod broken;
pub mod occurrences;
pub mod references;
pub mod rename;
pub mod symbol_search;
pub mod sorting;
