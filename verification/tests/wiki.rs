use std::collections::HashMap;
use wiki2md::wiki::{
    add_query_pair, build_edit_url, extract_wiki_text_from_edit_html, pick_source, ExtractError,
};

#[test]
fn build_edit_url_encodes_title_and_sets_action() {
    let url = build_edit_url("C++ and Friends").unwrap();
    let url = reqwest::Url::parse(&url).unwrap();
    let pairs: HashMap<String, String> = url.query_pairs().into_owned().collect();
    assert_eq!(pairs.get("title").unwrap(), "C++ and Friends");
    assert_eq!(pairs.get("action").unwrap(), "edit");
}

#[test]
fn extract_prefers_wp_textbox_1_and_decodes_entities() {
    let html = r#"
            <html>
              <body>
                <textarea id="other">ignore me</textarea>
                <textarea id="wpTextbox1">Line1 &amp; Line2 &lt;tag&gt;</textarea>
              </body>
            </html>
        "#;

    let out = extract_wiki_text_from_edit_html(html).unwrap();
    assert_eq!(out, "Line1 & Line2 <tag>");
}

#[test]
fn edit_url_is_written_out_in_full() {
    assert_eq!(
        build_edit_url("C++ and Friends").unwrap(),
        "https://www.chessprogramming.org/index.php?title=C%2B%2B+and+Friends&action=edit"
    );
    assert_eq!(
        build_edit_url("Perft").unwrap(),
        "https://www.chessprogramming.org/index.php?title=Perft&action=edit"
    );
}

#[test]
fn query_pair_is_added_behind_the_pairs_that_are_there() {
    assert_eq!(
        add_query_pair("https://example.net/?lang=fr", "foo", "bar & baz").unwrap(),
        "https://example.net/?lang=fr&foo=bar+%26+baz"
    );
}

#[test]
fn query_pair_is_refused_on_what_is_no_address_or_has_a_fragment() {
    assert_eq!(add_query_pair("not an address", "a", "b"), None);
    assert_eq!(add_query_pair("https://example.net/#top", "a", "b"), None);
}

#[test]
fn extract_falls_back_to_the_first_text_area() {
    let html = "<html><body><textarea id=\"a\">one &quot;x&quot;</textarea><textarea>two</textarea></body></html>";
    assert_eq!(extract_wiki_text_from_edit_html(html).unwrap(), "one \"x\"");
}

#[test]
fn extract_fails_where_no_text_area_is() {
    let r = extract_wiki_text_from_edit_html("<html><body><p>nothing</p></body></html>");
    assert_eq!(r, Err(ExtractError::NoTextArea));
    assert_eq!(
        ExtractError::NoTextArea.message(),
        "Could not find <textarea> element. Is the page valid?"
    );
}

#[test]
fn pick_source_takes_the_first_that_was_found() {
    assert_eq!(
        pick_source(Ok(Some("a &lt; b".to_string())), Ok(Some("c".to_string()))),
        Ok("a < b".to_string())
    );
    assert_eq!(pick_source(Ok(None), Ok(Some("c &amp; d".to_string()))), Ok("c & d".to_string()));
    assert_eq!(pick_source(Ok(None), Ok(None)), Err(ExtractError::NoTextArea));
    assert_eq!(pick_source(Err(()), Ok(None)), Err(ExtractError::Selector));
    assert_eq!(pick_source(Ok(None), Err(())), Err(ExtractError::Selector));
}
