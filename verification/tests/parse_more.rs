use wiki2md::ast::{
    BlockKind, BlockNode, CodeBlockKind, Diagnostic, DiagnosticPhase, FileNamespace, InlineKind,
    InlineNode, ListMarker, Severity, Span, TemplateNameKind,
};
use wiki2md::parse::attrs::parse_html_attrs;
use wiki2md::parse::inline::parse_inlines;
use wiki2md::parse::table::parse_table;
use wiki2md::parse::util::{collect_lines, line_trimmed_start, split_top_level, strip_cr, LineRange};
use wiki2md::parse::{guard_progress, parse_document};

fn inlines(src: &str) -> (Vec<InlineNode>, Vec<Diagnostic>) {
    let mut diags: Vec<Diagnostic> = Vec::new();
    let nodes = parse_inlines(src, 0, src, &mut diags);
    (nodes, diags)
}

fn text(node: &InlineNode) -> &str {
    match &node.kind {
        InlineKind::Text { value } => value.as_str(),
        other => panic!("expected text, got {other:?}"),
    }
}

fn content(block: &BlockNode) -> &Vec<InlineNode> {
    match &block.kind {
        BlockKind::Paragraph { content } => content,
        other => panic!("expected paragraph, got {other:?}"),
    }
}

#[test]
fn collects_lines_with_and_without_final_newline() {
    assert_eq!(
        collect_lines("a\nb\n"),
        vec![
            LineRange { start: 0, end: 1, end_with_newline: 2 },
            LineRange { start: 2, end: 3, end_with_newline: 4 },
            LineRange { start: 4, end: 4, end_with_newline: 4 },
        ]
    );
    assert_eq!(collect_lines(""), vec![LineRange { start: 0, end: 0, end_with_newline: 0 }]);
    assert_eq!(collect_lines("xy"), vec![LineRange { start: 0, end: 2, end_with_newline: 2 }]);
}

#[test]
fn strips_one_carriage_return() {
    assert_eq!(strip_cr("abc\r"), "abc");
    assert_eq!(strip_cr("abc\r\r"), "abc\r");
    assert_eq!(strip_cr("abc"), "abc");
    assert_eq!(strip_cr(""), "");
}

#[test]
fn trims_line_start() {
    let src = "x\n \u{a0}\t caf\u{e9} \r\ny";
    let lines = collect_lines(src);
    assert_eq!(line_trimmed_start(src, lines[1]), "caf\u{e9} ");
    assert_eq!(line_trimmed_start(src, lines[0]), "x");
}

#[test]
fn splits_at_top_level_only() {
    assert_eq!(split_top_level("a|{{b|c}}|[[d|e]]", '|'), vec![(0, 1), (2, 9), (10, 17)]);
    assert_eq!(split_top_level("", '|'), vec![(0, 0)]);
    assert_eq!(split_top_level("|", '|'), vec![(0, 0), (1, 1)]);
    assert_eq!(split_top_level("}}a|b", '|'), vec![(0, 3), (4, 5)]);
    // a delimiter of more than one byte
    assert_eq!(split_top_level("a\u{e9}b\u{e9}", '\u{e9}'), vec![(0, 1), (3, 4), (6, 6)]);
}

#[test]
fn parses_html_attributes() {
    let attrs = parse_html_attrs("style=\"x: y;\"  rowspan=2 flag id='q' open=\"rest");
    let got: Vec<(&str, Option<&str>)> =
        attrs.iter().map(|a| (a.name.as_str(), a.value.as_deref())).collect();
    assert_eq!(
        got,
        vec![
            ("style", Some("x: y;")),
            ("rowspan", Some("2")),
            ("flag", None),
            ("id", Some("q")),
            ("open", Some("rest")),
        ]
    );
    assert!(attrs.iter().all(|a| a.span.is_none()));
    assert!(parse_html_attrs("").is_empty());
    assert!(parse_html_attrs("   ").is_empty());
    assert!(parse_html_attrs("=x").is_empty());
    let attrs = parse_html_attrs("a =  b");
    assert_eq!(attrs.len(), 1);
    assert_eq!(attrs[0].value.as_deref(), Some("b"));
}

#[test]
fn parses_redirect() {
    let out = parse_document("\n#REDIRECT [[Target#Anchor]]\nbody");
    let r = out.document.redirect.as_ref().expect("redirect");
    assert_eq!(r.target, "Target");
    assert_eq!(r.anchor.as_deref(), Some("Anchor"));
    assert_eq!(r.span, Span::new(11, 28));
    assert_eq!(out.document.blocks.len(), 1);

    let out = parse_document("#redirect nowhere");
    let r = out.document.redirect.as_ref().expect("redirect");
    assert_eq!(r.target, "");
    assert_eq!(r.anchor, None);
    assert_eq!(r.span, Span::new(0, 17));
    assert!(out.document.blocks.is_empty());

    let out = parse_document("text\n#REDIRECT [[T]]");
    assert!(out.document.redirect.is_none());
}

#[test]
fn parses_categories_magic_words_and_rules() {
    let out = parse_document("text\n[[Category:Chess Programmer|Thompson]]\n[[category: X ]]\n__TOC__\n----\n");
    assert_eq!(out.document.categories.len(), 2);
    assert_eq!(out.document.categories[0].name, "Chess Programmer");
    assert_eq!(out.document.categories[0].sort_key.as_deref(), Some("Thompson"));
    assert_eq!(out.document.categories[0].span, Span::new(5, 43));
    assert_eq!(out.document.categories[1].name, "X");
    assert_eq!(out.document.categories[1].sort_key, None);
    assert_eq!(out.document.blocks.len(), 3);
    assert!(matches!(&out.document.blocks[1].kind, BlockKind::MagicWord { name } if name == "__TOC__"));
    assert!(matches!(out.document.blocks[2].kind, BlockKind::HorizontalRule));
}

#[test]
fn parses_references_tag_attributes() {
    let out = parse_document("<references group=\"n\" />\n<REFERENCES></references>");
    assert_eq!(out.document.blocks.len(), 2);
    match &out.document.blocks[0].kind {
        BlockKind::References { node } => {
            assert_eq!(node.attrs.len(), 1);
            assert_eq!(node.attrs[0].name, "group");
            assert_eq!(node.attrs[0].value.as_deref(), Some("n"));
        }
        other => panic!("expected references, got {other:?}"),
    }
    assert!(matches!(&out.document.blocks[1].kind, BlockKind::References { node } if node.attrs.is_empty()));
}

#[test]
fn parses_templates_and_parser_functions() {
    let (nodes, diags) = inlines("{{Foo|a=1| b |{{in|x=y}}}}{{#if: x | y}}");
    assert!(diags.is_empty());
    assert_eq!(nodes.len(), 2);
    match &nodes[0].kind {
        InlineKind::Template { node } => {
            assert_eq!(node.name.raw, "Foo");
            assert_eq!(node.name.kind, TemplateNameKind::Template);
            assert_eq!(node.params.len(), 3);
            assert_eq!(node.params[0].name.as_deref(), Some("a"));
            assert_eq!(text(&node.params[0].value[0]), "1");
            assert_eq!(node.params[0].span, Span::new(6, 9));
            assert_eq!(node.params[1].name, None);
            assert_eq!(text(&node.params[1].value[0]), "b");
            assert_eq!(node.params[1].value[0].span, Span::new(11, 12));
            assert_eq!(node.params[1].span, Span::new(10, 13));
            assert_eq!(node.params[2].name, None);
            assert!(matches!(node.params[2].value[0].kind, InlineKind::Template { .. }));
        }
        other => panic!("expected template, got {other:?}"),
    }
    assert_eq!(nodes[0].span, Span::new(0, 26));
    match &nodes[1].kind {
        InlineKind::Template { node } => {
            assert_eq!(node.name.raw, "#if");
            assert_eq!(node.name.kind, TemplateNameKind::ParserFunction);
            assert_eq!(node.params.len(), 2);
            assert_eq!(text(&node.params[0].value[0]), "x");
            assert_eq!(node.params[0].span, Span::new(33, 34));
            assert_eq!(text(&node.params[1].value[0]), "y");
        }
        other => panic!("expected parser function, got {other:?}"),
    }
}

#[test]
fn unmatched_braces_stay_text() {
    let (nodes, diags) = inlines("{{a|b} and }");
    assert!(diags.is_empty());
    assert_eq!(nodes.len(), 1);
    assert_eq!(text(&nodes[0]), "{{a|b} and }");
}

#[test]
fn parses_external_links() {
    let (nodes, _) = inlines("[https://example.com  Example site] [http://x.y] [not a link] [ftp://a b]");
    assert_eq!(nodes.len(), 4);
    match &nodes[0].kind {
        InlineKind::ExternalLink { link } => {
            assert_eq!(link.url, "https://example.com");
            let label = link.text.as_ref().expect("label");
            assert_eq!(text(&label[0]), "Example site");
            assert_eq!(label[0].span, Span::new(22, 34));
        }
        other => panic!("expected external link, got {other:?}"),
    }
    assert_eq!(nodes[0].span, Span::new(0, 35));
    assert_eq!(text(&nodes[1]), " ");
    match &nodes[2].kind {
        InlineKind::ExternalLink { link } => {
            assert_eq!(link.url, "http://x.y");
            assert!(link.text.is_none());
        }
        other => panic!("expected external link, got {other:?}"),
    }
    assert_eq!(text(&nodes[3]), " [not a link] [ftp://a b]");
}

#[test]
fn parses_emphasis_longest_first() {
    let (nodes, _) = inlines("'''''bi''''' '''b''' ''i'' ''open");
    assert!(matches!(&nodes[0].kind, InlineKind::BoldItalic { content } if text(&content[0]) == "bi"));
    assert!(matches!(&nodes[2].kind, InlineKind::Bold { content } if text(&content[0]) == "b"));
    assert!(matches!(&nodes[4].kind, InlineKind::Italic { content } if text(&content[0]) == "i"));
    assert_eq!(text(&nodes[5]), " ''open");
    assert_eq!(nodes[0].span, Span::new(0, 12));
}

#[test]
fn parses_internal_link_anchor() {
    let (nodes, _) = inlines("[[ Page#Sec | ]] [[#top]] [[A#]]");
    match &nodes[0].kind {
        InlineKind::InternalLink { link } => {
            assert_eq!(link.target, "Page");
            assert_eq!(link.anchor.as_deref(), Some("Sec"));
            assert!(link.text.is_none());
        }
        other => panic!("expected link, got {other:?}"),
    }
    match &nodes[2].kind {
        InlineKind::InternalLink { link } => {
            assert_eq!(link.target, "");
            assert_eq!(link.anchor.as_deref(), Some("top"));
        }
        other => panic!("expected link, got {other:?}"),
    }
    match &nodes[4].kind {
        InlineKind::InternalLink { link } => {
            assert_eq!(link.target, "A");
            assert_eq!(link.anchor, None);
        }
        other => panic!("expected link, got {other:?}"),
    }
}

#[test]
fn parses_file_link_namespaces_and_params() {
    let (nodes, _) = inlines("[[Image:a b.png|thumb| |A [[link|cap]] ]][[media:x.ogg]][[ FILE: f.svg ]]");
    match &nodes[0].kind {
        InlineKind::FileLink { link } => {
            assert_eq!(link.namespace, FileNamespace::Image);
            assert_eq!(link.target, "a b.png");
            assert_eq!(link.params.len(), 2);
            assert_eq!(text(&link.params[0].content[0]), "thumb");
            assert_eq!(link.params[0].span, Span::new(16, 21));
            assert_eq!(link.params[1].content.len(), 2);
            assert!(matches!(link.params[1].content[1].kind, InlineKind::InternalLink { .. }));
        }
        other => panic!("expected file link, got {other:?}"),
    }
    assert!(matches!(&nodes[1].kind, InlineKind::FileLink { link } if link.namespace == FileNamespace::Media && link.target == "x.ogg"));
    assert!(matches!(&nodes[2].kind, InlineKind::FileLink { link } if link.namespace == FileNamespace::File && link.target == "f.svg"));
}

#[test]
fn parses_line_breaks_and_span_tags() {
    let (nodes, diags) = inlines("a<br>b<BR />c<span id=\"x\" class=y>in</span><span id=z/>");
    assert!(diags.is_empty());
    assert!(matches!(nodes[1].kind, InlineKind::LineBreak));
    assert_eq!(nodes[1].span, Span::new(1, 5));
    assert!(matches!(nodes[3].kind, InlineKind::LineBreak));
    match &nodes[5].kind {
        InlineKind::HtmlTag { node } => {
            assert_eq!(node.name, "span");
            assert!(!node.self_closing);
            assert_eq!(node.attrs.len(), 2);
            assert_eq!(node.attrs[0].value.as_deref(), Some("x"));
            assert_eq!(node.attrs[1].value.as_deref(), Some("y"));
            assert_eq!(text(&node.children[0]), "in");
        }
        other => panic!("expected tag, got {other:?}"),
    }
    match &nodes[6].kind {
        InlineKind::HtmlTag { node } => {
            assert!(node.self_closing);
            assert!(node.children.is_empty());
            assert_eq!(node.attrs[0].value.as_deref(), Some("z"));
        }
        other => panic!("expected tag, got {other:?}"),
    }
}

#[test]
fn self_closing_ref_and_named_ref() {
    let (nodes, diags) = inlines("<ref name=\"a\" /> <ref name=b>x</ref><ref> </ref>");
    assert!(diags.is_empty());
    match &nodes[0].kind {
        InlineKind::Ref { node } => {
            assert!(node.self_closing);
            assert!(node.content.is_none());
            assert_eq!(node.attrs[0].name, "name");
            assert_eq!(node.attrs[0].value.as_deref(), Some("a"));
        }
        other => panic!("expected ref, got {other:?}"),
    }
    assert!(matches!(&nodes[2].kind, InlineKind::Ref { node } if node.attrs[0].value.as_deref() == Some("b")));
    assert!(matches!(&nodes[3].kind, InlineKind::Ref { node } if node.content.is_none() && !node.self_closing));
}

#[test]
fn unclosed_inline_tags_give_warnings_and_stay_text() {
    let (nodes, diags) = inlines("a<ref name=x>b");
    assert_eq!(nodes.len(), 1);
    assert_eq!(text(&nodes[0]), "a<ref name=x>b");
    assert_eq!(diags.len(), 1);
    assert_eq!(diags[0].severity, Severity::Warning);
    assert_eq!(diags[0].phase, Some(DiagnosticPhase::Parse));
    assert_eq!(diags[0].code.as_deref(), Some("wikitext.ref.unclosed"));
    assert_eq!(diags[0].message, "Unclosed <ref> tag");
    assert_eq!(diags[0].span, Some(Span::new(1, 13)));
    assert!(diags[0].notes.is_empty());

    let (nodes, diags) = inlines("<span id=x>y");
    assert_eq!(nodes.len(), 1);
    assert_eq!(diags.len(), 1);
    assert_eq!(diags[0].code.as_deref(), Some("wikitext.html.unclosed"));
    assert_eq!(diags[0].message, "Unclosed <span> tag");
}

#[test]
fn spans_are_shifted_by_the_base_offset() {
    let mut diags: Vec<Diagnostic> = Vec::new();
    let nodes = parse_inlines("0123456789 ''x''", 11, "''x''", &mut diags);
    assert_eq!(nodes.len(), 1);
    assert_eq!(nodes[0].span, Span::new(11, 16));
    match &nodes[0].kind {
        InlineKind::Italic { content } => assert_eq!(content[0].span, Span::new(13, 14)),
        other => panic!("expected italic, got {other:?}"),
    }
}

#[test]
fn deep_inline_nesting_is_kept_as_text() {
    let depth = 20;
    let src = format!("{}x{}", "[[a|".repeat(depth), "]]".repeat(depth));
    let (nodes, diags) = inlines(&src);
    assert_eq!(nodes.len(), 1);
    assert_eq!(diags.len(), 1);
    assert_eq!(diags[0].severity, Severity::Warning);
    assert_eq!(diags[0].code.as_deref(), Some("wikitext.inline.depth_exceeded"));
    let mut node = &nodes[0];
    let mut levels = 0;
    loop {
        match &node.kind {
            InlineKind::InternalLink { link } => {
                levels += 1;
                node = &link.text.as_ref().expect("label")[0];
            }
            InlineKind::Text { value } => {
                assert!(value.starts_with("[[a|"));
                break;
            }
            other => panic!("unexpected {other:?}"),
        }
    }
    assert_eq!(levels, 13);
}

#[test]
fn short_delimiter_runs_are_not_pathological() {
    let src = format!("{}a]]", "[".repeat(63));
    let (_, diags) = inlines(&src);
    assert!(diags.is_empty());
    let src = "[".repeat(64);
    let (nodes, diags) = inlines(&src);
    assert_eq!(nodes.len(), 1);
    assert_eq!(diags.len(), 1);
    assert_eq!(diags[0].code.as_deref(), Some("wikitext.inline.pathological_delim_run"));
    assert_eq!(diags[0].span, Some(Span::new(0, 64)));
}

fn list_depth(block: &BlockNode) -> usize {
    match &block.kind {
        BlockKind::List { items } => {
            1 + items
                .iter()
                .flat_map(|it| it.blocks.iter())
                .map(list_depth)
                .max()
                .unwrap_or(0)
        }
        _ => 0,
    }
}

#[test]
fn list_depth_is_clamped() {
    let src = format!("{}item\n", ":".repeat(200));
    let out = parse_document(&src);
    assert_eq!(out.document.blocks.len(), 1);
    assert_eq!(list_depth(&out.document.blocks[0]), 12);
    assert!(out
        .diagnostics
        .iter()
        .any(|d| d.code.as_deref() == Some("wikitext.list.depth_clamped")));
    let missing = out
        .diagnostics
        .iter()
        .filter(|d| d.code.as_deref() == Some("wikitext.list.missing_parent"))
        .count();
    assert_eq!(missing, 11);
}

#[test]
fn list_markers_and_missing_parent() {
    let out = parse_document("# one\n;term\n:def\n** deep");
    let BlockKind::List { items } = &out.document.blocks[0].kind else {
        panic!("expected list");
    };
    let markers: Vec<ListMarker> = items.iter().map(|i| i.marker).collect();
    assert_eq!(
        markers,
        vec![ListMarker::Ordered, ListMarker::Term, ListMarker::Definition]
    );
    assert_eq!(items[2].blocks.len(), 2);
    assert!(out.diagnostics.is_empty());

    let out = parse_document("** orphan");
    let BlockKind::List { items } = &out.document.blocks[0].kind else {
        panic!("expected list");
    };
    assert_eq!(items.len(), 1);
    assert_eq!(items[0].span, Span::new(0, 0));
    assert_eq!(out.diagnostics.len(), 1);
    assert_eq!(out.diagnostics[0].code.as_deref(), Some("wikitext.list.missing_parent"));
    assert_eq!(out.diagnostics[0].message, "Nested list item without a parent; inserting dummy item");
}

#[test]
fn leading_space_block_keeps_blank_lines_between_its_lines() {
    let out = parse_document(" a\n  b\n\n c\n\ntext");
    assert_eq!(out.document.blocks.len(), 2);
    match &out.document.blocks[0].kind {
        BlockKind::CodeBlock { block } => {
            assert_eq!(block.kind, CodeBlockKind::LeadingSpace);
            assert_eq!(block.text, "a\n b\n\nc");
            assert_eq!(block.lang, None);
        }
        other => panic!("expected code block, got {other:?}"),
    }
    assert_eq!(out.document.blocks[0].span, Span::new(0, 10));
    assert_eq!(text(&content(&out.document.blocks[1])[0]), "text");
}

#[test]
fn leading_space_line_ends_a_paragraph() {
    let out = parse_document("para\n code");
    assert_eq!(out.document.blocks.len(), 2);
    assert!(matches!(out.document.blocks[1].kind, BlockKind::CodeBlock { .. }));
}

#[test]
fn tagged_code_blocks() {
    let out = parse_document("<syntaxhighlight lang=\"cpp\">\nint x;\n</SyntaxHighlight>\nafter");
    assert!(out.diagnostics.is_empty());
    assert_eq!(out.document.blocks.len(), 2);
    match &out.document.blocks[0].kind {
        BlockKind::CodeBlock { block } => {
            assert_eq!(block.kind, CodeBlockKind::SyntaxHighlight);
            assert_eq!(block.lang.as_deref(), Some("cpp"));
            assert_eq!(block.text, "\nint x;\n");
        }
        other => panic!("expected code block, got {other:?}"),
    }
    assert_eq!(out.document.blocks[0].span, Span::new(0, 54));
    assert_eq!(text(&content(&out.document.blocks[1])[0]), "after");

    let out = parse_document("<pre lang=\"c\">x</pre>");
    match &out.document.blocks[0].kind {
        BlockKind::CodeBlock { block } => {
            assert_eq!(block.kind, CodeBlockKind::PreTag);
            assert_eq!(block.lang, None);
            assert_eq!(block.text, "x");
        }
        other => panic!("expected code block, got {other:?}"),
    }

    let out = parse_document("<syntaxhighlight lang=rust>fn");
    assert_eq!(out.diagnostics.len(), 1);
    assert_eq!(out.diagnostics[0].message, "Unclosed <syntaxhighlight> tag");
    assert!(matches!(&out.document.blocks[0].kind, BlockKind::CodeBlock { block } if block.lang.as_deref() == Some("rust") && block.text.is_empty()));
}

#[test]
fn table_caption_spans_and_continuation() {
    let src = "{|\n|+ style=\"x\" | The ''cap''\n|- class=r\n| colspan=2 rowspan=\"3\" | x\ny\n| a | b\n! h\n|}\nrest";
    let out = parse_document(src);
    assert!(out.diagnostics.is_empty());
    assert_eq!(out.document.blocks.len(), 2);
    let BlockKind::Table { table } = &out.document.blocks[0].kind else {
        panic!("expected table");
    };
    let cap = table.caption.as_ref().expect("caption");
    assert_eq!(cap.attrs.len(), 1);
    assert_eq!(cap.content.len(), 2);
    assert_eq!(text(&cap.content[0]), "The ");
    assert_eq!(table.rows.len(), 1);
    let row = &table.rows[0];
    assert_eq!(row.attrs[0].name, "class");
    assert_eq!(row.cells.len(), 3);
    assert_eq!(row.cells[0].colspan, Some(2));
    assert_eq!(row.cells[0].rowspan, Some(3));
    assert_eq!(text(&content(&row.cells[0].blocks[0])[0]), "x\ny");
    assert_eq!(row.cells[1].colspan, None);
    assert_eq!(text(&content(&row.cells[1].blocks[0])[0]), "a | b");
    assert!(row.cells[1].attrs.is_empty());
    assert_eq!(out.document.blocks[0].span, Span::new(0, 85));
}

#[test]
fn table_unexpected_line_and_nesting() {
    let out = parse_document("{|\nstray\n|-\n| a\n{|\n| in\n|}\n|}\n");
    assert_eq!(out.diagnostics.len(), 1);
    let d = &out.diagnostics[0];
    assert_eq!(d.severity, Severity::Warning);
    assert_eq!(d.code.as_deref(), Some("wikitext.table.unexpected_line"));
    assert_eq!(d.message, "Unexpected line inside table");
    assert_eq!(d.notes, vec!["stray".to_string()]);
    assert_eq!(d.span, Some(Span::new(3, 8)));
    let BlockKind::Table { table } = &out.document.blocks[0].kind else {
        panic!("expected table");
    };
    assert_eq!(table.rows.len(), 1);
    assert_eq!(text(&content(&table.rows[0].cells[0].blocks[0])[0]), "a\n{|\n| in\n|}");
}

#[test]
fn parse_table_says_when_the_line_is_no_table() {
    let src = "text\n{| a=b\n|}";
    let lines = collect_lines(src);
    let mut diags: Vec<Diagnostic> = Vec::new();
    assert_eq!(parse_table(src, &lines, 0, &mut diags), Err("not a table".to_string()));
    let (node, next) = parse_table(src, &lines, 1, &mut diags).expect("table");
    assert_eq!(next, 3);
    assert_eq!(node.span, Span::new(5, 14));
    assert!(diags.is_empty());
}

#[test]
fn text_after_a_code_block_on_its_line_is_a_paragraph() {
    let out = parse_document("<pre>a\nb</pre> tail [[x]]\nnext");
    assert!(out.diagnostics.is_empty());
    assert_eq!(out.document.blocks.len(), 3);
    assert_eq!(out.document.blocks[0].span, Span::new(0, 14));
    assert_eq!(out.document.blocks[1].span, Span::new(14, 25));
    assert_eq!(text(&content(&out.document.blocks[1])[0]), " tail ");
    assert_eq!(text(&content(&out.document.blocks[2])[0]), "next");
}

#[test]
fn guard_progress_records_a_handler_that_does_not_advance() {
    let line = LineRange { start: 3, end: 7, end_with_newline: 8 };
    let mut diags: Vec<Diagnostic> = Vec::new();
    assert_eq!(guard_progress(4, 6, line, &mut diags), 6);
    assert!(diags.is_empty());
    assert_eq!(guard_progress(4, 4, line, &mut diags), 5);
    assert_eq!(diags.len(), 1);
    assert_eq!(diags[0].severity, Severity::Error);
    assert_eq!(diags[0].code.as_deref(), Some("wikitext.block.no_progress"));
    assert_eq!(diags[0].span, Some(Span::new(3, 7)));
}

#[test]
fn unicode_white_space_is_trimmed() {
    let out = parse_document("==\u{a0}T\u{3000}==\u{2003}");
    match &out.document.blocks[0].kind {
        BlockKind::Heading { content, .. } => assert_eq!(text(&content[0]), "T"),
        other => panic!("expected heading, got {other:?}"),
    }
}
