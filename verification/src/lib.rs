//! Urd compiler core: the verified parts of the `.urd.md` → `.urd.json`
//! pipeline — source spans, diagnostics, slug derivation, the content AST
//! and its line-oriented parser, import discovery, linking and validation,
//! the analysis fact set and its diagnostics, and the compiled world JSON.

pub mod text;
pub mod span;
pub mod slugify;
pub mod diagnostics;
pub mod ast;
pub mod symbol_table;
pub mod json;
pub mod facts;
pub mod facts_json;
pub mod extract;
pub mod analyze;
pub mod link;
pub mod collect;
pub mod resolve;
pub mod validate;
pub mod value_check;
pub mod checks;
pub mod graph;
pub mod import;
pub mod diff;
pub mod emit;
pub mod lower;
pub mod definition_index;
pub mod parse;
pub mod content;
pub mod frontmatter;
pub mod compile;
