//! Wikitext to a span-annotated document tree.
//!
//! `ast` holds the tree and the diagnostics that a parse produces, each type
//! with a ghost view over sequences. `text` holds the byte-level primitives
//! (searching, trimming, case folding) that the grammar is written in, and
//! `parse` the grammar itself.

pub mod ast;
pub mod convert;
pub mod emit;
pub mod frontmatter;
pub mod laws;
pub mod output;
pub mod parse;
pub mod render;
pub mod text;
pub mod wiki;

pub use output::{
    assemble_markdown, fresh_frontmatter, keep_frontmatter, lower_first_letter_bucket, plan_run, sanitize_article_id,
    RunStep, WriteOptions,
};
