use wiki2md::ast::{BlockKind, Diagnostic, InlineKind, TableCellKind};
use wiki2md::parse::inline::parse_inlines;
use wiki2md::parse::parse_document;

#[test]
fn parses_basic_heading_and_link() {
    let src = "=Title=\nSee [[Other Page|link]].\n";
    let out = parse_document(src);
    assert!(out.diagnostics.is_empty());
    assert_eq!(out.document.blocks.len(), 2);
    match &out.document.blocks[0].kind {
        BlockKind::Heading { level, content } => {
            assert_eq!(*level, 1);
            assert!(matches!(content[0].kind, InlineKind::Text { .. }));
        }
        _ => panic!("expected heading"),
    }
    match &out.document.blocks[1].kind {
        BlockKind::Paragraph { content } => {
            assert!(content
                .iter()
                .any(|n| matches!(n.kind, InlineKind::InternalLink { .. })));
        }
        _ => panic!("expected paragraph"),
    }
}

#[test]
fn parses_ref_and_references_block() {
    let src = "Text<ref name=\"a\">Ref body</ref>\n<references />\n";
    let out = parse_document(src);
    assert_eq!(out.document.blocks.len(), 2);

    match &out.document.blocks[0].kind {
        BlockKind::Paragraph { content } => {
            assert!(content
                .iter()
                .any(|n| matches!(n.kind, InlineKind::Ref { .. })));
        }
        _ => panic!("expected paragraph"),
    }

    assert!(matches!(
        out.document.blocks[1].kind,
        BlockKind::References { .. }
    ));
}

#[test]
fn parses_file_link() {
    let src = "[[FILE:Example.jpg|thumb|An example]]";
    let mut diagnostics: Vec<Diagnostic> = Vec::new();
    let inlines = parse_inlines(src, 0, src, &mut diagnostics);
    assert!(inlines
        .iter()
        .any(|n| matches!(n.kind, InlineKind::FileLink { .. })));
}

#[test]
fn parses_basic_table() {
    let src = "{| class=\"wikitable\"\n|-\n! H1 !! H2\n|-\n| A || B\n|}\n";
    let out = parse_document(src);
    assert_eq!(out.document.blocks.len(), 1);
    let BlockKind::Table { table } = &out.document.blocks[0].kind else {
        panic!("expected table block");
    };
    assert_eq!(table.rows.len(), 2);
    assert_eq!(table.rows[0].cells.len(), 2);
    assert_eq!(table.rows[1].cells.len(), 2);
    assert_eq!(table.rows[0].cells[0].kind, TableCellKind::Header);
    assert_eq!(table.rows[1].cells[0].kind, TableCellKind::Data);
}
