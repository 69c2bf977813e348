//! Finding `[traverse-tgt: NAME]` and `[traverse-lnk: NAME]` tags in source lines, filing
//! them by name, and the text and the decisions of the tools built on them.

pub mod lsp;
pub mod registry;
pub mod report;
pub mod tag_syntax;
pub mod tags;
