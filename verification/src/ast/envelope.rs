use crate::ast::blocks::Document;
use crate::ast::diagnostic::Diagnostic;
use vstd::prelude::*;

verus! {

/// The versioned wrapper that carries a parsed document with its provenance
/// and diagnostics.
#[derive(Debug, PartialEq, Eq)]
pub struct AstFile {
    pub schema_version: u32,
    pub parser: ParserInfo,
    /// How every span in the file is to be read.
    pub span_encoding: SpanEncoding,
    pub article_id: String,
    pub source: SourceInfo,
    pub diagnostics: Vec<Diagnostic>,
    pub document: Document,
}

/// The program that produced the tree.
#[derive(Debug, Clone, PartialEq, Eq)]
pub struct ParserInfo {
    pub name: String,
    pub version: String,
}

#[derive(Debug, Clone, Copy, PartialEq, Eq, Structural)]
pub struct SpanEncoding {
    pub unit: SpanUnit,
    pub base: SpanBase,
}

impl Default for SpanEncoding {
    fn default() -> (e: SpanEncoding)
        ensures
            e.unit == SpanUnit::Byte,
            e.base == SpanBase::RawInput,
    {
        SpanEncoding { unit: SpanUnit::Byte, base: SpanBase::RawInput }
    }
}

#[derive(Debug, Clone, Copy, PartialEq, Eq, Structural)]
pub enum SpanUnit {
    /// Offsets count bytes of UTF-8.
    Byte,
}

#[derive(Debug, Clone, Copy, PartialEq, Eq, Structural)]
pub enum SpanBase {
    /// Offsets are taken against the input as it was read, before any
    /// normalisation.
    RawInput,
}

/// Where the input came from.
#[derive(Debug, Clone, PartialEq, Eq)]
pub struct SourceInfo {
    pub path: Option<String>,
    pub sha256: Option<String>,
    /// Length of the input in bytes.
    pub byte_len: u64,
}

} // verus!
