use crate::ast::diagnostic::opt_string_view;
use crate::ast::span::Span;
use vstd::prelude::*;

verus! {

/// A generic HTML attribute.
#[derive(Debug, Clone, PartialEq, Eq)]
pub struct HtmlAttr {
    pub name: String,
    pub value: Option<String>,
    pub span: Option<Span>,
}

pub struct HtmlAttrView {
    pub name: Seq<char>,
    pub value: Option<Seq<char>>,
    pub span: Option<Span>,
}

impl View for HtmlAttr {
    type V = HtmlAttrView;

    open spec fn view(&self) -> HtmlAttrView {
        HtmlAttrView { name: self.name@, value: opt_string_view(self.value), span: self.span }
    }
}

pub open spec fn attrs_view(s: Seq<HtmlAttr>) -> Seq<HtmlAttrView> {
    Seq::new(s.len(), |i: int| s[i]@)
}

/// An inline node: a span and what stands there.
#[derive(Debug, PartialEq, Eq)]
pub struct InlineNode {
    pub span: Span,
    pub kind: InlineKind,
}

#[derive(Debug, PartialEq, Eq)]
pub enum InlineKind {
    Text { value: String },
    Bold { content: Vec<InlineNode> },
    Italic { content: Vec<InlineNode> },
    BoldItalic { content: Vec<InlineNode> },
    InternalLink { link: InternalLink },
    ExternalLink { link: ExternalLink },
    /// `[[File:...|...]]`, `[[Image:...|...]]`, `[[Media:...|...]]`.
    FileLink { link: FileLink },
    /// `<br>`, `<br/>`.
    LineBreak,
    /// `<ref ...>...</ref>` or `<ref ... />`.
    Ref { node: RefNode },
    /// An inline HTML tag such as `<span id="..."></span>`.
    HtmlTag { node: HtmlTag },
    /// `{{...}}`: a template or a parser function.
    Template { node: TemplateInvocation },
    /// Text kept as it stood.
    Raw { text: String },
}

#[derive(Debug, PartialEq, Eq)]
pub struct InternalLink {
    /// Target inside `[[...]]`, without the label.
    pub target: String,
    /// Section anchor after `#`.
    pub anchor: Option<String>,
    /// Label after `|`.
    pub text: Option<Vec<InlineNode>>,
}

#[derive(Debug, PartialEq, Eq)]
pub struct ExternalLink {
    pub url: String,
    pub text: Option<Vec<InlineNode>>,
}

#[derive(Debug, PartialEq, Eq)]
pub struct FileLink {
    pub namespace: FileNamespace,
    pub target: String,
    /// The pipe-separated parameters after the file name, not yet told apart
    /// into options and caption.
    pub params: Vec<FileParam>,
}

#[derive(Debug, Clone, Copy, PartialEq, Eq, Structural)]
pub enum FileNamespace {
    File,
    Image,
    Media,
}

#[derive(Debug, PartialEq, Eq)]
pub struct FileParam {
    pub span: Span,
    pub content: Vec<InlineNode>,
}

#[derive(Debug, PartialEq, Eq)]
pub struct RefNode {
    pub attrs: Vec<HtmlAttr>,
    pub content: Option<Vec<InlineNode>>,
    pub self_closing: bool,
}

#[derive(Debug, PartialEq, Eq)]
pub struct HtmlTag {
    pub name: String,
    pub attrs: Vec<HtmlAttr>,
    pub children: Vec<InlineNode>,
    pub self_closing: bool,
}

#[derive(Debug, PartialEq, Eq)]
pub struct TemplateInvocation {
    pub name: TemplateName,
    pub params: Vec<TemplateParam>,
}

#[derive(Debug, Clone, PartialEq, Eq)]
pub struct TemplateName {
    /// The name as written, without the braces.
    pub raw: String,
    pub kind: TemplateNameKind,
}

#[derive(Debug, Clone, Copy, PartialEq, Eq, Structural)]
pub enum TemplateNameKind {
    Template,
    ParserFunction,
}

#[derive(Debug, PartialEq, Eq)]
pub struct TemplateParam {
    pub span: Span,
    /// Key left of `=`, if there is one.
    pub name: Option<String>,
    pub value: Vec<InlineNode>,
}

pub struct InlineNodeView {
    pub span: Span,
    pub kind: InlineKindView,
}

pub enum InlineKindView {
    Text { value: Seq<char> },
    Bold { content: Seq<InlineNodeView> },
    Italic { content: Seq<InlineNodeView> },
    BoldItalic { content: Seq<InlineNodeView> },
    InternalLink { target: Seq<char>, anchor: Option<Seq<char>>, text: Option<Seq<InlineNodeView>> },
    ExternalLink { url: Seq<char>, text: Option<Seq<InlineNodeView>> },
    FileLink { namespace: FileNamespace, target: Seq<char>, params: Seq<FileParamView> },
    LineBreak,
    Ref { attrs: Seq<HtmlAttrView>, content: Option<Seq<InlineNodeView>>, self_closing: bool },
    HtmlTag {
        name: Seq<char>,
        attrs: Seq<HtmlAttrView>,
        children: Seq<InlineNodeView>,
        self_closing: bool,
    },
    Template { raw: Seq<char>, kind: TemplateNameKind, params: Seq<TemplateParamView> },
    Raw { text: Seq<char> },
}

pub struct FileParamView {
    pub span: Span,
    pub content: Seq<InlineNodeView>,
}

pub struct TemplateParamView {
    pub span: Span,
    pub name: Option<Seq<char>>,
    pub value: Seq<InlineNodeView>,
}

pub open spec fn inline_view(n: InlineNode) -> InlineNodeView
    decreases n,
{
    InlineNodeView { span: n.span, kind: inline_kind_view(n.kind) }
}

pub open spec fn inline_kind_view(k: InlineKind) -> InlineKindView
    decreases k,
{
    match k {
        InlineKind::Text { value } => InlineKindView::Text { value: value@ },
        InlineKind::Bold { content } => InlineKindView::Bold { content: inlines_view(content@) },
        InlineKind::Italic { content } => InlineKindView::Italic {
            content: inlines_view(content@),
        },
        InlineKind::BoldItalic { content } => InlineKindView::BoldItalic {
            content: inlines_view(content@),
        },
        InlineKind::InternalLink { link } => InlineKindView::InternalLink {
            target: link.target@,
            anchor: opt_string_view(link.anchor),
            text: match link.text {
                Some(t) => Some(inlines_view(t@)),
                None => None,
            },
        },
        InlineKind::ExternalLink { link } => InlineKindView::ExternalLink {
            url: link.url@,
            text: match link.text {
                Some(t) => Some(inlines_view(t@)),
                None => None,
            },
        },
        InlineKind::FileLink { link } => InlineKindView::FileLink {
            namespace: link.namespace,
            target: link.target@,
            params: file_params_view(link.params@),
        },
        InlineKind::LineBreak => InlineKindView::LineBreak,
        InlineKind::Ref { node } => InlineKindView::Ref {
            attrs: attrs_view(node.attrs@),
            content: match node.content {
                Some(t) => Some(inlines_view(t@)),
                None => None,
            },
            self_closing: node.self_closing,
        },
        InlineKind::HtmlTag { node } => InlineKindView::HtmlTag {
            name: node.name@,
            attrs: attrs_view(node.attrs@),
            children: inlines_view(node.children@),
            self_closing: node.self_closing,
        },
        InlineKind::Template { node } => InlineKindView::Template {
            raw: node.name.raw@,
            kind: node.name.kind,
            params: template_params_view(node.params@),
        },
        InlineKind::Raw { text } => InlineKindView::Raw { text: text@ },
    }
}

pub open spec fn inlines_view(s: Seq<InlineNode>) -> Seq<InlineNodeView>
    decreases s,
{
    Seq::new(s.len(), |i: int| if 0 <= i < s.len() { inline_view(s[i]) } else { arbitrary() })
}

pub open spec fn file_params_view(s: Seq<FileParam>) -> Seq<FileParamView>
    decreases s,
{
    Seq::new(
        s.len(),
        |i: int|
            if 0 <= i < s.len() {
                FileParamView { span: s[i].span, content: inlines_view(s[i].content@) }
            } else {
                arbitrary()
            },
    )
}

pub open spec fn template_params_view(s: Seq<TemplateParam>) -> Seq<TemplateParamView>
    decreases s,
{
    Seq::new(
        s.len(),
        |i: int|
            if 0 <= i < s.len() {
                TemplateParamView {
                    span: s[i].span,
                    name: opt_string_view(s[i].name),
                    value: inlines_view(s[i].value@),
                }
            } else {
                arbitrary()
            },
    )
}

impl View for InlineNode {
    type V = InlineNodeView;

    open spec fn view(&self) -> InlineNodeView {
        inline_view(*self)
    }
}

} // verus!
