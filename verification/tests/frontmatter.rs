use wiki2md::frontmatter::date::{date_of_unix_seconds, format_day};
use wiki2md::frontmatter::merge::{merge_existing_frontmatter_for_regeneration, merge_kept, read_inner};
use wiki2md::frontmatter::page::{build_frontmatter, extract_tags, find_top_nav_links};
use wiki2md::frontmatter::tags::normalize_tag;
use wiki2md::frontmatter::{
    extract_yaml_inner, split_yaml_frontmatter, strip_yaml_document_markers, yaml_quote,
    Frontmatter, Wiki2mdMeta,
};
use wiki2md::parse::parse_document;

#[test]
fn normalize_tag_rules() {
    // lowercase, allowed charset, starts with a letter
    let samples = [
        normalize_tag("Level 1").unwrap(),
        normalize_tag("Alpha/Beta").unwrap(),
        normalize_tag("1984").unwrap(),
        normalize_tag("42").unwrap(),
        normalize_tag("  123abc").unwrap(),
    ];

    for t in &samples {
        assert!(!t.is_empty());
        assert!(t.len() <= 50, "tag too long: {t}");
        assert!(
            t.chars().next().unwrap().is_ascii_lowercase(),
            "bad start: {t}"
        );
        assert!(
            t.chars()
                .all(|c| c.is_ascii_lowercase() || c.is_ascii_digit() || c == '_' || c == '-'),
            "bad chars: {t}"
        );
        assert!(!t.chars().all(|c| c.is_ascii_digit()), "fully numeric: {t}");
        assert!(!t.contains('/'), "nested tag not allowed: {t}");
    }

    assert_eq!(normalize_tag("Level 1"), Some("level_1".to_string()));
    assert_eq!(normalize_tag("Alpha/Beta"), Some("alpha_beta".to_string()));

    // diacritics / latin-script transliteration
    assert_eq!(
        normalize_tag("Salvador Dalí"),
        Some("salvador_dali".to_string())
    );
    assert_eq!(normalize_tag("François"), Some("francois".to_string()));
    assert_eq!(normalize_tag("Gödel"), Some("godel".to_string()));
    assert_eq!(normalize_tag("Łódź"), Some("lodz".to_string()));
    assert_eq!(normalize_tag("Straße"), Some("strasse".to_string()));
    assert_eq!(normalize_tag("Smørrebrød"), Some("smorrebrod".to_string()));

    // fully numeric must not remain numeric
    assert_eq!(normalize_tag("1984"), Some("y1984".to_string()));
    assert_eq!(normalize_tag("42"), Some("n42".to_string()));

    // enforce max length
    let long = "a".repeat(200);
    let t = normalize_tag(&long).unwrap();
    assert!(t.len() <= 50);

    // never produce slash nesting (we'll handle nesting later)
    assert!(!normalize_tag("x/y").unwrap().contains('/'));
}

#[test]
fn normalize_tag_edge_cases() {
    assert_eq!(normalize_tag(""), None);
    assert_eq!(normalize_tag("   "), None);
    assert_eq!(normalize_tag("___"), None);
    assert_eq!(normalize_tag("!!!"), None);
    assert_eq!(normalize_tag("a  --  b"), Some("a_--_b".to_string()));
    assert_eq!(normalize_tag("__a__b__"), Some("a_b".to_string()));
    assert_eq!(normalize_tag("1399"), Some("n1399".to_string()));
    assert_eq!(normalize_tag("1400"), Some("y1400".to_string()));
    assert_eq!(normalize_tag("2100"), Some("y2100".to_string()));
    assert_eq!(normalize_tag("2101"), Some("n2101".to_string()));
    assert_eq!(normalize_tag("12345"), Some("n12345".to_string()));
    assert_eq!(normalize_tag("123abc"), Some("t123abc".to_string()));
    assert_eq!(normalize_tag("-x"), Some("t-x".to_string()));
    assert_eq!(normalize_tag(&"b".repeat(51)), Some("b".repeat(50)));
    assert_eq!(normalize_tag(&"7".repeat(60)), Some(format!("n{}", "7".repeat(49))));
}

fn sample() -> Frontmatter {
    Frontmatter {
        wiki2md: Wiki2mdMeta {
            article_id: "Ken_Thompson".to_string(),
            source_url: "https://w.example/Ken_Thompson".to_string(),
            generated_by: "wiki2md".to_string(),
            last_fetched_date: "2024-02-03".to_string(),
            schema_version: 1,
        },
        aliases: vec!["Ken \"K\" Thompson".to_string()],
        tags: vec!["people".to_string(), "unix".to_string()],
        summary: None,
        extras_yaml: None,
    }
}

#[test]
fn writes_yaml() {
    let fm = sample();
    assert_eq!(
        fm.to_yaml_string(),
        "---\nwiki2md:\n  article_id: Ken_Thompson\n  source_url: https://w.example/Ken_Thompson\n  generated_by: wiki2md\n  last_fetched_date: 2024-02-03\n  schema_version: 1\naliases:\n  - \"Ken \\\"K\\\" Thompson\"\ntags:\n  - people\n  - unix\n---\n"
    );
}

#[test]
fn writes_yaml_with_summary_extras_and_no_tags() {
    let mut fm = sample();
    fm.tags.clear();
    fm.summary = Some("A \\ B".to_string());
    fm.extras_yaml = Some("custom: 1".to_string());
    let y = fm.to_yaml_string();
    assert!(y.contains("aliases:\n  - \"Ken \\\"K\\\" Thompson\"\nsummary: \"A \\\\ B\"\ntags: []\ncustom: 1\n---\n"), "{y}");
    fm.summary = Some("  ".to_string());
    fm.extras_yaml = Some("\n".to_string());
    let y = fm.to_yaml_string();
    assert!(y.ends_with("Thompson\"\ntags: []\n---\n"), "{y}");
}

#[test]
fn quotes_yaml_strings() {
    assert_eq!(yaml_quote(b"plain"), b"\"plain\"".to_vec());
    assert_eq!(yaml_quote(b"a\"b\\c"), b"\"a\\\"b\\\\c\"".to_vec());
    assert_eq!(yaml_quote(b""), b"\"\"".to_vec());
}

#[test]
fn splits_front_matter_from_the_body() {
    let text = "---\na: 1\n---\nbody\n---\nmore";
    let (fm, rest) = split_yaml_frontmatter(text).expect("front matter");
    assert_eq!(fm, "---\na: 1\n---\n");
    assert_eq!(rest, "body\n---\nmore");

    let (fm, rest) = split_yaml_frontmatter("---\r\nk: v\r\n---\r\nbody").expect("front matter");
    assert_eq!(fm, "---\r\nk: v\r\n---\r\n");
    assert_eq!(rest, "body");

    let (fm, rest) = split_yaml_frontmatter("---\n---").expect("front matter");
    assert_eq!(fm, "---\n---");
    assert_eq!(rest, "");

    assert_eq!(split_yaml_frontmatter("--- \na: 1\n---\n"), None);
    assert_eq!(split_yaml_frontmatter("---\na: 1\n"), None);
    assert_eq!(split_yaml_frontmatter("body\n---\n---\n"), None);
    assert_eq!(split_yaml_frontmatter("---"), None);
    assert_eq!(split_yaml_frontmatter(""), None);
}

#[test]
fn extracts_what_stands_between_the_markers() {
    assert_eq!(extract_yaml_inner(b"---\na: 1\r\nb: 2\n---\nrest"), Some(b"a: 1\nb: 2\n".to_vec()));
    assert_eq!(extract_yaml_inner(b"---  \n--- \n"), Some(Vec::new()));
    assert_eq!(extract_yaml_inner(b"---\nopen"), Some(b"open\n".to_vec()));
    assert_eq!(extract_yaml_inner(b"x\n---\n"), None);
    assert_eq!(extract_yaml_inner(b""), None);
}

#[test]
fn strips_document_markers() {
    assert_eq!(strip_yaml_document_markers(b"---\n---\na: 1\n...\n...\n"), b"a: 1\n".to_vec());
    assert_eq!(strip_yaml_document_markers(b"a: 1\n"), b"a: 1\n".to_vec());
    assert_eq!(strip_yaml_document_markers(b"---\n"), Vec::<u8>::new());
}

#[test]
fn tags_come_from_breadcrumbs_and_categories() {
    let src = "'''[[Main Page|Home]] * [[People]] * [[Ken_Thompson]] * [[Unix Tools]]'''\n\nText with [[Other]].\n\n[[Category:Chess Programmer|T]]\n[[category:People]]\n[[Category:1984]]\n";
    let doc = parse_document(src).document;
    assert_eq!(
        find_top_nav_links(&doc),
        Some(vec![
            "Main Page".to_string(),
            "People".to_string(),
            "Ken_Thompson".to_string(),
            "Unix Tools".to_string()
        ])
    );
    assert_eq!(
        extract_tags(&doc, "Ken_Thompson"),
        vec![
            "chess_programmer".to_string(),
            "people".to_string(),
            "unix_tools".to_string(),
            "y1984".to_string()
        ]
    );
}

#[test]
fn only_categories_near_the_end_count() {
    let filler = "x".repeat(9000);
    let src = format!("[[Category:Early]]\n{filler}\n[[Category:Late]]\n");
    let doc = parse_document(&src).document;
    assert_eq!(find_top_nav_links(&doc), None);
    assert_eq!(extract_tags(&doc, "A"), vec!["late".to_string()]);
}

#[test]
fn builds_front_matter() {
    let doc = parse_document("[[Main Page]] [[Topic]]\n").document;
    let fm = build_frontmatter("Some_Page", "2024-05-06", &doc, "https://w.example//");
    assert_eq!(fm.wiki2md.article_id, "Some_Page");
    assert_eq!(fm.wiki2md.source_url, "https://w.example/Some_Page");
    assert_eq!(fm.wiki2md.generated_by, "wiki2md");
    assert_eq!(fm.wiki2md.last_fetched_date, "2024-05-06");
    assert_eq!(fm.wiki2md.schema_version, 1);
    assert_eq!(fm.aliases, vec!["Some Page".to_string()]);
    assert_eq!(fm.tags, vec!["topic".to_string()]);
    assert_eq!(fm.summary, None);
    assert_eq!(fm.extras_yaml, None);
}

#[test]
fn merge_keeps_summary_and_other_keys() {
    let mut fm = sample();
    merge_kept(&mut fm, Some("kept"), Some("---\ncustom: 1\n"));
    assert_eq!(fm.summary.as_deref(), Some("kept"));
    assert_eq!(fm.extras_yaml.as_deref(), Some("custom: 1\n"));
    assert_eq!(fm.aliases, sample().aliases);
    assert_eq!(fm.wiki2md, sample().wiki2md);

    merge_kept(&mut fm, Some("  "), Some(" \n"));
    assert_eq!(fm.summary.as_deref(), Some("kept"));
    assert_eq!(fm.extras_yaml.as_deref(), Some("custom: 1\n"));

    merge_kept(&mut fm, None, None);
    assert_eq!(fm.summary.as_deref(), Some("kept"));
    assert_eq!(fm.extras_yaml, None);
}

#[test]
fn reads_the_yaml_between_the_markers() {
    assert_eq!(read_inner("---\na: 1\n---\nbody\n").as_deref(), Some("a: 1\n"));
    assert_eq!(read_inner("no front matter\n"), None);
    assert_eq!(read_inner("---\nnever closed\n"), None);
}

#[test]
fn regeneration_keeps_summary_and_unmanaged_keys() {
    let existing = "---\nwiki2md:\n  article_id: Old\naliases:\n- Old\ntags:\n- stale\nsummary: A short summary.\ncustom_key: 42\nnested:\n  a: b\n---\n# Body\n";
    let mut fm = sample();
    merge_existing_frontmatter_for_regeneration(&mut fm, existing);
    assert_eq!(fm.summary.as_deref(), Some("A short summary."));
    assert_eq!(fm.extras_yaml.as_deref(), Some("nested:\n  a: b\ncustom_key: 42\n"));
    assert_eq!(fm.wiki2md, sample().wiki2md);
    assert_eq!(fm.aliases, sample().aliases);
    assert_eq!(fm.tags, sample().tags);
}

#[test]
fn regeneration_with_managed_keys_only_leaves_no_extras() {
    let existing = "---\nwiki2md:\n  article_id: Old\ntags: []\nsummary: '  '\n---\nBody\n";
    let mut fm = sample();
    fm.extras_yaml = Some("stale: 1\n".to_string());
    merge_existing_frontmatter_for_regeneration(&mut fm, existing);
    assert_eq!(fm.summary, sample().summary);
    assert_eq!(fm.extras_yaml, None);
}

#[test]
fn regeneration_ignores_what_is_no_mapping() {
    for existing in ["no front matter at all\n", "---\n- a\n- b\n---\nBody\n", "---\n: : :\n\t- x\n---\nBody\n", "---\njust a string\n---\n"] {
        let mut fm = sample();
        fm.extras_yaml = Some("stale: 1\n".to_string());
        merge_existing_frontmatter_for_regeneration(&mut fm, existing);
        assert_eq!(fm.summary, sample().summary);
        assert_eq!(fm.extras_yaml.as_deref(), Some("stale: 1\n"));
    }
}

#[test]
fn regeneration_takes_no_summary_that_is_no_string() {
    let existing = "---\nsummary: 12\nkeep: value\n---\nBody\n";
    let mut fm = sample();
    merge_existing_frontmatter_for_regeneration(&mut fm, existing);
    assert_eq!(fm.summary, sample().summary);
    assert_eq!(fm.extras_yaml.as_deref(), Some("keep: value\n"));
}

#[test]
fn days_are_written_with_zeros() {
    assert_eq!(format_day(Some((2024, 2, 3))), b"2024-02-03".to_vec());
    assert_eq!(format_day(Some((5, 12, 31))), b"0005-12-31".to_vec());
    assert_eq!(format_day(Some((9999, 1, 1))), b"9999-01-01".to_vec());
    assert_eq!(format_day(Some((0, 10, 20))), b"0000-10-20".to_vec());
}

#[test]
fn days_that_do_not_fit_are_the_first_of_1970() {
    assert_eq!(format_day(None), b"1970-01-01".to_vec());
    assert_eq!(format_day(Some((-1, 1, 1))), b"1970-01-01".to_vec());
    assert_eq!(format_day(Some((10000, 1, 1))), b"1970-01-01".to_vec());
    assert_eq!(format_day(Some((2000, 100, 1))), b"1970-01-01".to_vec());
    assert_eq!(format_day(Some((2000, 1, 100))), b"1970-01-01".to_vec());
}

#[test]
fn moments_fall_on_their_days() {
    assert_eq!(date_of_unix_seconds(0), "1970-01-01");
    assert_eq!(date_of_unix_seconds(-1), "1969-12-31");
    assert_eq!(date_of_unix_seconds(86_399), "1970-01-01");
    assert_eq!(date_of_unix_seconds(86_400), "1970-01-02");
    assert_eq!(date_of_unix_seconds(951_782_400), "2000-02-29");
    assert_eq!(date_of_unix_seconds(1_546_300_800), "2019-01-01");
    assert_eq!(date_of_unix_seconds(i64::MAX), "1970-01-01");
}
