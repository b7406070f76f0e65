//! The document tree, its diagnostics and the envelope that carries both.

pub mod blocks;
pub mod bounds;
pub mod diagnostic;
pub mod envelope;
pub mod nodes;
pub mod span;
pub mod validate;

use vstd::prelude::*;

pub use blocks::{
    BlockKind, BlockNode, CategoryTag, CodeBlock, CodeBlockKind, Document, HtmlBlock, ListItem,
    ListMarker, Redirect, ReferencesNode, Table, TableCaption, TableCell, TableCellKind, TableRow,
};
pub use diagnostic::{Diagnostic, DiagnosticPhase, DiagnosticView, Severity};
pub use envelope::{AstFile, ParserInfo, SourceInfo, SpanBase, SpanEncoding, SpanUnit};
pub use nodes::{
    ExternalLink, FileLink, FileNamespace, FileParam, HtmlAttr, HtmlTag, InlineKind, InlineNode,
    InternalLink, RefNode, TemplateInvocation, TemplateName, TemplateNameKind, TemplateParam,
};
pub use span::Span;

verus! {

/// Version of the envelope's layout.
pub const SCHEMA_VERSION: u32 = 1;

/// The parser's name as the envelope records it.
pub const PARSER_NAME: &'static str = "wiki2md";

/// The parser's version as the envelope records it.
pub const PARSER_VERSION: &'static str = "0.1.0";

} // verus!
