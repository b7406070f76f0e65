use wiki2md::ast::validate::validate_document;
use wiki2md::ast::{
    BlockKind, CodeBlockKind, Diagnostic, InlineKind, InlineNode, ListItem, Severity, Span,
    TableCellKind,
};
use wiki2md::parse::parse_document;

fn text_of(node: &InlineNode) -> &str {
    match &node.kind {
        InlineKind::Text { value } => value.as_str(),
        other => panic!("expected text, got {other:?}"),
    }
}

fn paragraph(block: &wiki2md::ast::BlockNode) -> &Vec<InlineNode> {
    match &block.kind {
        BlockKind::Paragraph { content } => content,
        other => panic!("expected paragraph, got {other:?}"),
    }
}

#[test]
fn heading_run_matching() {
    let out = parse_document("=Title=");
    assert_eq!(out.document.blocks.len(), 1);
    match &out.document.blocks[0].kind {
        BlockKind::Heading { level, content } => {
            assert_eq!(*level, 1);
            assert_eq!(content.len(), 1);
            assert_eq!(text_of(&content[0]), "Title");
            assert_eq!(content[0].span, Span::new(1, 6));
        }
        other => panic!("expected heading, got {other:?}"),
    }

    let out = parse_document("==Title==");
    assert!(matches!(out.document.blocks[0].kind, BlockKind::Heading { level: 2, .. }));

    let out = parse_document("===A===\n====B====");
    assert_eq!(out.document.blocks.len(), 2);
    assert!(matches!(out.document.blocks[0].kind, BlockKind::Heading { level: 3, .. }));
    assert!(matches!(out.document.blocks[1].kind, BlockKind::Heading { level: 4, .. }));
    assert_eq!(out.document.blocks[1].span, Span::new(8, 17));
}

#[test]
fn heading_with_unequal_runs_is_a_paragraph() {
    let out = parse_document("==Title=");
    assert!(matches!(out.document.blocks[0].kind, BlockKind::Paragraph { .. }));
    let out = parse_document("=======Seven=======");
    assert!(matches!(out.document.blocks[0].kind, BlockKind::Paragraph { .. }));
    for src in ["==a===", "=a==", "== a =", "= a"] {
        let out = parse_document(src);
        assert!(matches!(out.document.blocks[0].kind, BlockKind::Paragraph { .. }), "{src}");
    }
    let out = parse_document(" \t== a ==  ");
    assert!(matches!(out.document.blocks[0].kind, BlockKind::Heading { level: 2, .. }));
    let out = parse_document("== ==");
    assert!(matches!(&out.document.blocks[0].kind, BlockKind::Heading { level: 2, content } if content.is_empty()));
    let out = parse_document("a = b");
    assert!(matches!(out.document.blocks[0].kind, BlockKind::Paragraph { .. }));
    assert!(out.diagnostics.is_empty());
}

#[test]
fn link_parsing() {
    let out = parse_document("See [[Other Page|link]].");
    assert!(out.diagnostics.is_empty());
    let content = paragraph(&out.document.blocks[0]);
    assert_eq!(content.len(), 3);
    assert_eq!(text_of(&content[0]), "See ");
    assert_eq!(content[0].span, Span::new(0, 4));
    match &content[1].kind {
        InlineKind::InternalLink { link } => {
            assert_eq!(link.target, "Other Page");
            assert_eq!(link.anchor, None);
            let label = link.text.as_ref().expect("label");
            assert_eq!(label.len(), 1);
            assert_eq!(text_of(&label[0]), "link");
            assert_eq!(label[0].span, Span::new(17, 21));
        }
        other => panic!("expected internal link, got {other:?}"),
    }
    assert_eq!(content[1].span, Span::new(4, 23));
    assert_eq!(text_of(&content[2]), ".");
    assert_eq!(content[2].span, Span::new(23, 24));
}

#[test]
fn table_basic() {
    let out = parse_document("{| class=\"wikitable\"\n|-\n! H1 !! H2\n|-\n| A || B\n|}");
    assert!(out.diagnostics.is_empty());
    assert_eq!(out.document.blocks.len(), 1);
    let BlockKind::Table { table } = &out.document.blocks[0].kind else {
        panic!("expected table");
    };
    assert_eq!(table.attrs.len(), 1);
    assert_eq!(table.attrs[0].name, "class");
    assert_eq!(table.attrs[0].value.as_deref(), Some("wikitable"));
    assert_eq!(table.rows.len(), 2);
    let texts: Vec<Vec<(TableCellKind, String)>> = table
        .rows
        .iter()
        .map(|r| {
            r.cells
                .iter()
                .map(|c| {
                    assert_eq!(c.blocks.len(), 1);
                    let content = paragraph(&c.blocks[0]);
                    (c.kind, text_of(&content[0]).to_string())
                })
                .collect()
        })
        .collect();
    assert_eq!(
        texts,
        vec![
            vec![
                (TableCellKind::Header, "H1".to_string()),
                (TableCellKind::Header, "H2".to_string())
            ],
            vec![
                (TableCellKind::Data, "A".to_string()),
                (TableCellKind::Data, "B".to_string())
            ],
        ]
    );
}

#[test]
fn ref_lifecycle() {
    let out = parse_document("Text<ref>Body</ref>");
    assert!(out.diagnostics.is_empty());
    let content = paragraph(&out.document.blocks[0]);
    assert_eq!(content.len(), 2);
    assert_eq!(text_of(&content[0]), "Text");
    match &content[1].kind {
        InlineKind::Ref { node } => {
            assert!(!node.self_closing);
            assert!(node.attrs.is_empty());
            let body = node.content.as_ref().expect("content");
            assert_eq!(body.len(), 1);
            assert_eq!(text_of(&body[0]), "Body");
            assert_eq!(body[0].span, Span::new(9, 13));
        }
        other => panic!("expected ref, got {other:?}"),
    }
    assert_eq!(content[1].span, Span::new(4, 19));
}

#[test]
fn unclosed_tag_recovery() {
    let out = parse_document("<pre>code");
    assert_eq!(out.diagnostics.len(), 1);
    let d: &Diagnostic = &out.diagnostics[0];
    assert_eq!(d.severity, Severity::Warning);
    assert_eq!(d.code.as_deref(), Some("wikitext.codeblock.unclosed"));
    assert_eq!(d.message, "Unclosed <pre> tag");
    assert_eq!(d.span, Some(Span::new(0, 5)));
    assert_eq!(out.document.blocks.len(), 1);
    match &out.document.blocks[0].kind {
        BlockKind::CodeBlock { block } => {
            assert_eq!(block.kind, CodeBlockKind::PreTag);
            assert_eq!(block.text, "");
            assert_eq!(block.lang, None);
        }
        other => panic!("expected code block, got {other:?}"),
    }
}

fn item_text(item: &ListItem) -> String {
    text_of(&paragraph(&item.blocks[0])[0]).to_string()
}

#[test]
fn list_nesting() {
    let out = parse_document("*a\n**b\n*c");
    assert!(out.diagnostics.is_empty());
    assert_eq!(out.document.blocks.len(), 1);
    let BlockKind::List { items } = &out.document.blocks[0].kind else {
        panic!("expected list");
    };
    assert_eq!(items.len(), 2);
    assert_eq!(item_text(&items[0]), "a");
    assert_eq!(items[0].blocks.len(), 2);
    let BlockKind::List { items: inner } = &items[0].blocks[1].kind else {
        panic!("expected nested list");
    };
    assert_eq!(inner.len(), 1);
    assert_eq!(item_text(&inner[0]), "b");
    assert_eq!(item_text(&items[1]), "c");
    assert_eq!(items[1].blocks.len(), 1);
    assert_eq!(out.document.blocks[0].span, Span::new(0, 9));
}

#[test]
fn spans_are_valid_on_concrete_inputs() {
    let inputs = [
        "",
        "\n",
        "=Title=\nSee [[Other Page|link]].\n",
        "{| class=\"wikitable\"\n|+ cap\n|-\n! a !! b\n| c\nmore\n|}\ntail",
        "*a\n**b\n:::c\n# d",
        "<pre>x</pre> tail\n <ref name=a/> {{t|a=[[b|c]]|{{d}}}}",
        "#REDIRECT [[A#b]]\n[[Category:X|y]]\n__TOC__\n----\n",
        "caf\u{e9} \u{3000}[[\u{4e2d}\u{6587}|\u{2028}x]] ''\u{e9}''",
        "{|\r\n| a\r\nb\r\n|}\r\n",
    ];
    for input in inputs {
        let out = parse_document(input);
        assert_eq!(out.byte_len, input.len());
        assert_eq!(out.document.span, Span::new(0, input.len() as u64));
        assert!(validate_document(&out.document, input.len()), "{input:?}");
        for d in &out.diagnostics {
            if let Some(s) = d.span {
                assert!(s.start <= s.end && s.end as usize <= input.len(), "{input:?}");
            }
        }
    }
}

#[test]
fn validate_document_rejects_a_span_outside_the_text() {
    let mut out = parse_document("a [[b]] c");
    assert!(validate_document(&out.document, 9));
    assert!(!validate_document(&out.document, 8));
    if let BlockKind::Paragraph { content } = &mut out.document.blocks[0].kind {
        content[1].span = Span { start: 5, end: 4 };
    }
    assert!(!validate_document(&out.document, 9));
}

#[test]
fn parse_is_total_on_lossily_decoded_bytes() {
    let bytes: Vec<u8> = vec![0xff, b'[', b'[', 0xfe, b'|', 0xc3, b']', b']', b'\n', 0x80, b'{', b'{'];
    let src = String::from_utf8_lossy(&bytes).into_owned();
    let out = parse_document(&src);
    assert!(validate_document(&out.document, src.len()));
    assert!(!out.document.blocks.is_empty());
}

#[test]
fn parse_is_total_on_long_delimiter_runs() {
    for open in ["{", "[", "'", "<", "|", "=", "*", ":"] {
        let src = open.repeat(20_000);
        let out = parse_document(&src);
        assert!(validate_document(&out.document, src.len()));
    }
    let src = "[[a|".repeat(5_000);
    let out = parse_document(&src);
    assert!(validate_document(&out.document, src.len()));
}
