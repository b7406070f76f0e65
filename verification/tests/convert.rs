use wiki2md::convert::wiki_to_markdown;

#[test]
fn convert_test_header_anchor_extraction() {
    let input = r#"==<span id="Bulk"></span>Bulk-counting=="#;
    let output = wiki_to_markdown(input);
    let expected = r#"<a name="Bulk"></a>
### Bulk-counting"#;

    assert_eq!(output, expected);
}

#[test]
fn test_wiki_links_include_directory_layout() {
    let input = "See [[Initial Position|initial position]] and [[C]].";
    let output = wiki_to_markdown(input);
    let expected = "See [initial position](../i/Initial_Position.md) and [C](../c/C.md).";

    assert_eq!(output, expected);
}

#[test]
fn convert_test_headers() {
    let input = "=Perft Function=\n==Bulk Counting==";
    let output = wiki_to_markdown(input);
    let expected = "## Perft Function\n\n### Bulk Counting";

    assert_eq!(output, expected);
}

#[test]
fn convert_test_span_to_anchor() {
    let input = r#"Header <span id="Bulk"></span>"#;
    let output = wiki_to_markdown(input);
    let expected = r#"Header <a name="Bulk"></a>"#;

    assert_eq!(output, expected);
}

#[test]
fn convert_test_code_block_formatting() {
    let input = "<pre>int main() { return 0; }</pre>";
    let output = wiki_to_markdown(input);
    let expected = "```c\nint main() { return 0; }\n```";

    assert_eq!(output, expected);
}

#[test]
fn test_code_block_is_protected_from_other_replacements() {
    let input = r#"
<pre>
See [[Not A Link|nope]] and '''bold'''.
</pre>
"#;

    let output = wiki_to_markdown(input);
    let expected = "```c\nSee [[Not A Link|nope]] and '''bold'''.\n```";
    assert_eq!(output, expected);
}

#[test]
fn test_code_block_with_attributes_and_case() {
    let input = r#"<PRE class="code">int x = 1;</PRE>"#;
    let output = wiki_to_markdown(input);
    let expected = "```c\nint x = 1;\n```";

    assert_eq!(output, expected);
}

#[test]
fn test_deeper_headings() {
    let input = "===Level 3===\n====Level 4====";
    let output = wiki_to_markdown(input);
    let expected = "#### Level 3\n\n##### Level 4";

    assert_eq!(output, expected);
}

#[test]
fn test_wiki_link_with_anchor() {
    let input = "See [[Perft Results#Initial Position|init]].";
    let output = wiki_to_markdown(input);
    let expected = "See [init](../p/Perft_Results.md#Initial_Position).";

    assert_eq!(output, expected);
}

#[test]
fn convert_test_quote_spacing_logic() {
    let input = r#"
Preceding Text
 I believe...
 I carried...
Following Text
"#;

    let output = wiki_to_markdown(input);

    let expected = r#"Preceding Text

> I believe...
>
> I carried...

Following Text"#;

    assert_eq!(output, expected);
}

#[test]
fn convert_test_blockquotes_vs_code_indentation() {
    let input = r#"
 I am a quote.
```c
  if (depth == 0)
    return 1;

```

"#;
    let output = wiki_to_markdown(input);
    let expected = r#"> I am a quote.

```c
  if (depth == 0)
    return 1;

```"#;

    assert_eq!(output, expected);
}

#[test]
fn convert_test_formatting_and_perft() {
    let input = "The '''perft(5)''' result is `perft(6)`";
    let output = wiki_to_markdown(input);
    let expected = "The **`perft(5)`** result is `perft(6)`";

    assert_eq!(output, expected);
}

#[test]
fn convert_test_punctuation_cleanup() {
    let input = "</ref> . <ref> , </ref> ;";
    let output = wiki_to_markdown(input);
    let expected = "</ref>. <ref>, </ref>;";

    assert_eq!(output, expected);
}

#[test]
fn test_table_basic_conversion() {
    let input = r#"
=Table=
{| class="wikitable"
|-
!   
! 10 
! 50 
! 100 
|-
! 0 
| style="text-align:center;" | 50.00% 
| style="text-align:center;" | 51.00% 
| style="text-align:center;" | 52.00% 
|-
! 1 
| style="text-align:center;" | 60.00% 
| style="text-align:center;" |   
| style="text-align:center;" | 62.00% 
|}
"#;

    let output = wiki_to_markdown(input);
    let expected = r#"## Table

|  | 10 | 50 | 100 |
| --- | :---: | :---: | :---: |
| 0 | 50.00% | 51.00% | 52.00% |
| 1 | 60.00% |  | 62.00% |"#;

    assert_eq!(output, expected);
}

#[test]
fn test_table_inline_cell_syntax() {
    let input = r#"
{| class="wikitable"
|-
! A !! B !! C
|-
| 1 || 2 || style="text-align:right;" | 3
|}
"#;

    let output = wiki_to_markdown(input);
    let expected = r#"| A | B | C |
| --- | --- | ---: |
| 1 | 2 | 3 |"#;

    assert_eq!(output, expected);
}

#[test]
fn test_table_is_not_converted_inside_code_blocks() {
    let input = r#"
<pre>
{| class="wikitable"
|-
! A !! B
|-
| 1 || 2
|}
</pre>
"#;
    let output = wiki_to_markdown(input);
    let expected = "```c\n{| class=\"wikitable\"\n|-\n! A !! B\n|-\n| 1 || 2\n|}\n```";
    assert_eq!(output, expected);
}
