use wiki2md::parse::parse_document;
use wiki2md::{
    assemble_markdown, fresh_frontmatter, keep_frontmatter, lower_first_letter_bucket, plan_run, sanitize_article_id,
    RunStep, WriteOptions,
};

#[test]
fn sanitizes_article_ids() {
    assert_eq!(sanitize_article_id("  Ken Thompson "), "Ken_Thompson");
    assert_eq!(sanitize_article_id("A b/c\\d"), "A_b_c_d");
    assert_eq!(sanitize_article_id(""), "Untitled");
    assert_eq!(sanitize_article_id(" \t\n"), "Untitled");
    assert_eq!(sanitize_article_id("caf\u{e9}"), "caf\u{e9}");
}

#[test]
fn buckets_by_first_letter() {
    assert_eq!(lower_first_letter_bucket("Ken_Thompson"), "k");
    assert_eq!(lower_first_letter_bucket("x86"), "x");
    assert_eq!(lower_first_letter_bucket(""), "x");
    assert_eq!(lower_first_letter_bucket("\u{c9}cole"), "\u{e9}");
    assert_eq!(lower_first_letter_bucket("123"), "1");
}

#[test]
fn plans_a_run() {
    assert_eq!(plan_run(true, false, true), vec![RunStep::PrintExisting]);
    assert_eq!(plan_run(true, true, false), vec![RunStep::PrintExisting]);
    assert_eq!(plan_run(false, true, false), vec![RunStep::RenderFromTree]);
    assert_eq!(
        plan_run(false, false, false),
        vec![RunStep::FetchSource, RunStep::RenderFromTree]
    );
    assert_eq!(
        plan_run(false, true, true),
        vec![RunStep::WriteJson, RunStep::RenderFromJson]
    );
    assert_eq!(
        plan_run(false, false, true),
        vec![RunStep::FetchSource, RunStep::WriteJson, RunStep::RenderFromJson]
    );
}

#[test]
fn keeps_front_matter_unless_told_to_write_it_anew() {
    let keep = WriteOptions::default();
    let anew = WriteOptions { regenerate_frontmatter: true };
    let text = "---\na: 1\n---\nbody";
    assert_eq!(keep_frontmatter(Some(text), &keep), Some("---\na: 1\n---\n".to_string()));
    assert_eq!(keep_frontmatter(Some(text), &anew), None);
    assert_eq!(keep_frontmatter(Some("body"), &keep), None);
    assert_eq!(keep_frontmatter(None, &keep), None);
    assert!(!keep.regenerate_frontmatter);
}

#[test]
fn assembles_a_markdown_file() {
    assert_eq!(assemble_markdown("---\na: 1\n---\n", "\n\r\nbody\n"), "---\na: 1\n---\n\nbody\n");
    assert_eq!(assemble_markdown("---\n---", "body"), "---\n---\n\nbody");
    assert_eq!(assemble_markdown("", "body"), "\n\nbody");
}

#[test]
fn fresh_front_matter_carries_over_summary_and_other_keys() {
    let doc = parse_document(
        "'''[[Main Page|Home]] * [[Level 1]] * Test Page'''\n\n[[Category:1984]]\n",
    )
    .document;
    let existing = "---\ncustom: 123\ncssclass: foo\nsummary: \"keep\"\n---\n\nOLD BODY\n";
    let opts = WriteOptions { regenerate_frontmatter: true };
    let fm = fresh_frontmatter(
        "Test_Page",
        "2024-02-03",
        &doc,
        "https://www.chessprogramming.org",
        Some(existing),
        &opts,
    );
    assert_eq!(fm.summary.as_deref(), Some("keep"));
    assert_eq!(fm.extras_yaml.as_deref(), Some("custom: 123\ncssclass: foo\n"));
    assert_eq!(fm.tags, vec!["level_1".to_string(), "y1984".to_string()]);
    let md = fm.to_yaml_string();
    assert!(md.starts_with("---\nwiki2md:\n"), "{md}");
    assert!(md.contains("summary: \"keep\""), "{md}");
    assert!(md.contains("cssclass:"), "{md}");
    assert!(md.contains("- y1984"), "{md}");
}

#[test]
fn fresh_front_matter_carries_nothing_over_unless_asked() {
    let doc = parse_document("Body\n").document;
    let existing = "---\ncustom: 123\nsummary: keep\n---\nOLD\n";
    let fm = fresh_frontmatter(
        "Test_Page",
        "2024-02-03",
        &doc,
        "https://w.example/",
        Some(existing),
        &WriteOptions::default(),
    );
    assert_eq!(fm.summary, None);
    assert_eq!(fm.extras_yaml, None);
    assert_eq!(fm.wiki2md.source_url, "https://w.example/Test_Page");
    let opts = WriteOptions { regenerate_frontmatter: true };
    let fm = fresh_frontmatter("Test_Page", "2024-02-03", &doc, "https://w.example/", None, &opts);
    assert_eq!(fm.summary, None);
    assert_eq!(fm.extras_yaml, None);
}
