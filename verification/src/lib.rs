//! Structural code search: a snippet of source code is generalised into a
//! query pattern over syntax-tree shapes, and the pattern is matched against
//! the parsed files of a directory tree.

pub mod captures;
pub mod engine;
pub mod error;
pub mod node;
pub mod parse;
pub mod pattern;
pub mod quote;
pub mod search;
pub mod shard;
pub mod snippet;
pub mod text;
pub mod walk;

pub use error::SearchError;
pub use node::SyntaxNode;
pub use parse::{parse_file, FileTable, ParsedFile};
pub use pattern::{snippet_query, to_sexp_with_fields};
pub use search::{
    hits_of_file, match_file, plan, render_hits, search, search_hits, search_keyword, LoadedFile,
    MatchHit, Plan,
};
pub use shard::{chunk_size, gather, merge, partition};
pub use snippet::{compile_keyword, compile_pattern, generalize, lift, pattern_of_tree};
pub use walk::{DirEntry, Walk};
