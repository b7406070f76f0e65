use wiki2md::ast::{
    AstFile, BlockKind, BlockNode, Document, InlineKind, InlineNode, ParserInfo, RefNode,
    ReferencesNode, SourceInfo, Span, SpanEncoding, PARSER_NAME, PARSER_VERSION, SCHEMA_VERSION,
};
use wiki2md::parse::parse_document;
use wiki2md::render::{render_doc, render_doc_with_options, RenderOptions};

#[test]
fn obsidian_replaces_single_literal_asterisk_in_text() {
    let src = "A * B\n";
    let parsed = parse_document(src);
    let md = render_doc(&parsed.document);

    assert!(
        md.contains("A &middot; B"),
        "expected literal '*' in text to be replaced with '&middot;': {md}"
    );

    let src2 = "''Italic''\n";
    let parsed2 = parse_document(src2);
    let md2 = render_doc(&parsed2.document);
    assert!(
        md2.contains("*Italic*"),
        "expected italic markers to remain '*' (not replaced): {md2}"
    );
}

#[test]
fn barend_swets_markdown_formatting_features() {
    let src = r#"'''[[Main Page|Home]] * [[People]] * Barend Swets'''

[[FILE:BarendSwets.jpg|border|right|thumb|200px| Barend Swets <ref>Image from [[Barend Swets]] ('''1977'''). ''Computers in de opmars''. Schakend Nederland 09-1977 (Dutch), [http://example.com pdf] hosted by [[Hein Veldhuis]]</ref> ]] 

'''Barend Swets''',<br/>
a Dutch engineer <ref>Bio ref</ref>.

=Quotes=
==1997==
By [[Robert Hyatt]], 1997 <ref>Quote ref</ref>:
 Problem is, no one else has stepped forward in [[WCCC 1977|1977]].


 Problem continues after a blank line.

<references />
"#;

    let parsed = parse_document(src);
    let md = render_doc(&parsed.document);

    assert!(
        md.contains("&middot;"),
        "expected Obsidian middot workaround in output: {md}"
    );

    assert!(
        md.contains(
            "![Barend Swets](https://www.chessprogramming.org/images/thumb/a/a9/BarendSwets.jpg/300px-BarendSwets.jpg)<br />*Barend Swets*[^1]"
        ),
        "expected file link to render as an image figure: {md}"
    );

    assert!(
        md.contains("\n\n---\n\n"),
        "expected horizontal rule after top image: {md}"
    );

    assert!(
        md.contains("**Barend Swets**,<br/>\na Dutch engineer"),
        "expected `<br/>` to be followed by a newline in Markdown: {md}"
    );

    assert!(
        md.contains("\n> Problem is, no one else"),
        "expected blockquote rendering: {md}"
    );
    assert!(
        md.contains("[[WCCC 1977|1977]]"),
        "expected internal link in blockquote to render: {md}"
    );

    assert!(
        md.contains("> \n> Problem continues"),
        "expected blank-line continuation inside blockquote: {md}"
    );

    assert!(
        md.contains("1997[^"),
        "expected ref marker to attach to preceding token: {md}"
    );

    assert!(
        !md.contains("<ref>"),
        "did not expect literal `<ref>` tags in Markdown: {md}"
    );

    assert!(
        md.contains("\n\n<br/>\n\n## References"),
        "expected a `<br/>` spacer before the references heading: {md}"
    );
    assert!(
        md.contains("[^1]: Image from [[Barend Swets]]"),
        "expected first reference to be the image caption ref: {md}"
    );
    assert!(
        md.contains("hosted by [[Hein Veldhuis]]"),
        "expected nested internal link inside the image ref to render: {md}"
    );
    assert!(
        md.contains("[pdf](http://example.com)"),
        "expected external link inside the image ref to render: {md}"
    );
}

#[test]
fn renders_refs_as_footnotes_at_references_block() {
    let ast_file = AstFile {
        schema_version: SCHEMA_VERSION,
        parser: ParserInfo {
            name: PARSER_NAME.to_string(),
            version: PARSER_VERSION.to_string(),
        },
        span_encoding: SpanEncoding::default(),
        article_id: "Test".to_string(),
        source: SourceInfo {
            path: None,
            sha256: None,
            byte_len: 0,
        },
        diagnostics: vec![],
        document: Document {
            span: Span::new(0, 0),
            blocks: vec![
                BlockNode {
                    span: Span::new(0, 0),
                    kind: BlockKind::Paragraph {
                        content: vec![
                            InlineNode {
                                span: Span::new(0, 4),
                                kind: InlineKind::Text {
                                    value: "Text".to_string(),
                                },
                            },
                            InlineNode {
                                span: Span::new(4, 4),
                                kind: InlineKind::Ref {
                                    node: RefNode {
                                        attrs: vec![],
                                        content: Some(vec![InlineNode {
                                            span: Span::new(0, 8),
                                            kind: InlineKind::Text {
                                                value: "Ref body".to_string(),
                                            },
                                        }]),
                                        self_closing: false,
                                    },
                                },
                            },
                        ],
                    },
                },
                BlockNode {
                    span: Span::new(0, 0),
                    kind: BlockKind::References {
                        node: ReferencesNode { attrs: vec![] },
                    },
                },
            ],
            categories: vec![],
            redirect: None,
        },
    };

    let md = render_doc(&ast_file.document);
    assert!(md.contains("Text[^1]"));
    assert!(md.contains("[^1]: Ref body"));
}

#[test]
fn test_table_centering_option_wraps_caption_and_table() {
    let src = "{| class=\"wikitable\"\n|+ Caption\n|-\n! H1\n! H2\n|-\n! A\n| B\n|}\n";

    let ast = parse_document(src);

    let mut opts = RenderOptions::default();
    opts.center_tables_and_captions = true;

    let md = render_doc_with_options(&ast.document, &opts);

    assert!(
        md.starts_with("<div style=\"display:flex; flex-direction:column; align-items:center;\">"),
        "expected centering wrapper, got:\n{md}"
    );
    assert!(md.contains("Caption"), "{}", md.to_string());
    assert!(md.contains("| H1 | H2 |"), "{}", md.to_string());
    assert!(md.ends_with("</div>"), "{}", md.to_string());
}

#[test]
fn renders_exact_markdown_for_a_small_document() {
    let src = "=Title=\nSee [[Other_Page|link]] and [[Plain]].\n\n* one\n** two\n# three\n\n----\n__TOC__\n<pre>x\ny</pre>\n";
    let md = render_doc(&parse_document(src).document);
    assert_eq!(
        md,
        "## Title\n\nSee [[Other Page|link]] and [[Plain]].\n\n- one\n  - two\n1. three\n\n---\n\n<!-- __TOC__ -->\n\n```\nx\ny\n```"
    );
}

#[test]
fn renders_table_with_alignment_and_escaped_pipes() {
    let src = "{|\n|-\n! Name !! Score\n|-\n| a{{!}}b || style=\"text-align:right;\" | 10\n|-\n| c || style=\"text-align:right;\" | 20\n|}\n";
    let md = render_doc(&parse_document(src).document);
    assert_eq!(md, "| Name | Score |\n|---|----:|\n| a{{!}}b | 10 |\n| c | 20 |");
}

#[test]
fn renders_references_after_named_heading_without_second_heading() {
    let src = "a<ref>one</ref>\n\n=References=\n<references />\n";
    let md = render_doc(&parse_document(src).document);
    assert_eq!(md, "a[^1]\n\n## References\n\n[^1]: one");
}

#[test]
fn renders_templates_and_html_tags_as_written() {
    let src = "{{Foo|a=1|b}} <span id=\"x\"></span> {{#evu:https://v.example/1|w}}";
    let md = render_doc(&parse_document(src).document);
    assert_eq!(md, "{{Foo|a=1|b}} <a name=\"x\"></a> [Video](https://v.example/1)");
}

#[test]
fn renders_image_width_from_wikitext_when_asked() {
    let src = "[[File:some file.png|thumb|120px|A caption]]";
    let mut opts = RenderOptions::default();
    opts.respect_wikitext_image_width = true;
    opts.insert_hr_after_top_image = false;
    let md = render_doc_with_options(&parse_document(src).document, &opts);
    assert!(md.starts_with("![A caption](https://www.chessprogramming.org/images/thumb/"), "{md}");
    assert!(md.ends_with("/Some_file.png/120px-Some_file.png)<br />*A caption*"), "{md}");
}
