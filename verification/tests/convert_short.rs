use wiki2md::convert::short::convert_wiki_to_markdown;

#[test]
fn test_wiki_links() {
    let input = "See [[Initial Position|initial position]] and [[C]].";
    let output = convert_wiki_to_markdown(input);
    assert_eq!(output, "See [initial position](Initial_Position) and [C](C).");
}

#[test]
fn main_test_headers() {
    let input = "=Perft Function=\n==Bulk Counting==";
    let output = convert_wiki_to_markdown(input);
    assert_eq!(output, "## Perft Function\n\n### Bulk Counting");
}

#[test]
fn main_test_span_to_anchor() {
    let input = r#"Header <span id="Bulk"></span>"#;
    let output = convert_wiki_to_markdown(input);
    assert_eq!(output, r#"Header <a name="Bulk"></a>"#);
}

#[test]
fn main_test_code_block_formatting() {
    let input = "<pre>int main() { return 0; }</pre>";
    let output = convert_wiki_to_markdown(input);

    // We expect a valid Markdown code block with 3 backticks
    assert!(output.contains("```"), "Output code block fence is broken: found '{}'", output.trim());
}

#[test]
fn main_test_quote_spacing_logic() {
    // Input has:
    // 1. Text immediately touching the quote (Rule 1 violation)
    // 2. Two quotes touching each other (Rule 2 violation)
    // 3. Text immediately touching the end of a quote (Rule 3 violation)
    let input = r#"
Preceding Text
 I believe...
 I carried...
Following Text
"#;

    let output = convert_wiki_to_markdown(input);

    let expected_fragment = r#"
Preceding Text

> I believe...
>
> I carried...

Following Text
"#;

    // We trim both to ignore file-start/end whitespace differences
    assert!(output.contains(expected_fragment.trim()),
            "Spacing logic failed! Output:\n{}", output);
}

#[test]
fn main_test_blockquotes_vs_code_indentation() {
    let input = r#"
 I am a quote.
```c
  if (depth == 0)
    return 1;

```

"#;
    let output = convert_wiki_to_markdown(input);

    // 1. Check that the quote was converted
    assert!(output.contains("> I am a quote"), "Failed to convert single-space indent to quote.");

    // 2. CRITICAL: Check that the code was NOT converted
    // It should still look like "  if (depth..." not "> if (depth..."
    assert!(output.contains("  if (depth == 0)"), "Code indentation was corrupted!");
    assert!(!output.contains("> if (depth == 0)"), "Code was incorrectly turned into a quote!");
}

#[test]
fn main_test_header_anchor_extraction() {
    // Input: Wiki style where anchor is inside the equals signs
    let input = r#"==<span id="Bulk"></span>Bulk-counting=="#;

    let output = convert_wiki_to_markdown(input);

    // Expected: Anchor moved to its own line BEFORE the header
    let expected = r#"<a name="Bulk"></a>
### Bulk-counting"#;

    assert_eq!(output.trim(), expected, "Failed to extract and move anchor tag from header.");
}

#[test]
fn main_test_formatting_and_perft() {
    let input = "The '''perft(5)''' result is `perft(6)`";
    let output = convert_wiki_to_markdown(input);

    // 1. ''' -> **
    // 2. perft(5) -> `perft(5)`
    // 3. `perft(6)` -> `perft(6)` (No double backticks like ``perft(6)``)
    assert_eq!(output, "The **`perft(5)`** result is `perft(6)`");
}

#[test]
fn main_test_punctuation_cleanup() {
    // Wiki often leaves a space before punctuation in generated content
    let input = "Link > . Next > , End > ;";
    let output = convert_wiki_to_markdown(input);

    assert_eq!(output, "Link >. Next >, End >;", "Failed to remove whitespace before punctuation.");
}
