use md0::parser::parse;
use md0::token::{Metadata, Token};

fn paragraph(text: &str) -> Token {
    Token::Paragraph(text.to_string(), vec![])
}

fn heading(level: u8, text: &str) -> Token {
    Token::Heading { level, content: text.to_string() }
}

fn code(language: &str, text: &str) -> Token {
    Token::Code { language: language.to_string(), content: text.to_string() }
}

fn link(start: usize, end: usize, label: &str, url: &str) -> Metadata {
    Metadata::Link { location: (start, end), label: label.to_string(), url: url.to_string() }
}

fn image(start: usize, end: usize, label: &str, url: &str) -> Metadata {
    Metadata::Image { location: (start, end), label: label.to_string(), url: url.to_string() }
}

#[test]
fn empty_text_has_no_tokens() {
    assert_eq!(parse(String::new()), vec![]);
}

#[test]
fn empty_lines_have_no_tokens() {
    assert_eq!(parse("\n\n\n".to_string()), vec![]);
}

#[test]
fn blank_lines_have_no_tokens() {
    assert_eq!(parse("   ".to_string()), vec![]);
    assert_eq!(parse(" \t \n\u{3000}\n  ".to_string()), vec![]);
}

#[test]
fn heading_of_level_one() {
    assert_eq!(parse("# Heading".to_string()), vec![heading(1, "Heading")]);
}

#[test]
fn heading_of_level_six() {
    assert_eq!(parse("###### Deep".to_string()), vec![heading(6, "Deep")]);
}

#[test]
fn seven_hashes_make_a_paragraph() {
    assert_eq!(parse("####### TooDeep".to_string()), vec![paragraph("####### TooDeep")]);
}

#[test]
fn every_heading_level() {
    let text = "# a\n## b\n### c\n#### d\n##### e\n###### f";
    assert_eq!(
        parse(text.to_string()),
        vec![
            heading(1, "a"),
            heading(2, "b"),
            heading(3, "c"),
            heading(4, "d"),
            heading(5, "e"),
            heading(6, "f"),
        ]
    );
}

#[test]
fn heading_needs_white_space_after_the_hashes() {
    assert_eq!(parse("#Heading".to_string()), vec![paragraph("#Heading")]);
    assert_eq!(parse("##".to_string()), vec![paragraph("##")]);
}

#[test]
fn heading_takes_any_white_space() {
    assert_eq!(parse("#\tTitle".to_string()), vec![heading(1, "Title")]);
    assert_eq!(parse("## \u{a0} Title".to_string()), vec![heading(2, "Title")]);
}

#[test]
fn heading_content_keeps_what_follows_it() {
    assert_eq!(parse("#   Title  ".to_string()), vec![heading(1, "Title  ")]);
    assert_eq!(parse("# a [b](c) #".to_string()), vec![heading(1, "a [b](c) #")]);
}

#[test]
fn heading_of_white_space_alone() {
    assert_eq!(parse("# ".to_string()), vec![paragraph("# ")]);
    assert_eq!(parse("#  ".to_string()), vec![heading(1, " ")]);
    assert_eq!(parse("## \t\t".to_string()), vec![heading(2, "\t")]);
}

#[test]
fn heading_is_told_only_between_blocks() {
    assert_eq!(parse("text\n# Heading".to_string()), vec![paragraph("text # Heading")]);
    assert_eq!(
        parse("text\n\n# Heading".to_string()),
        vec![paragraph("text"), heading(1, "Heading")]
    );
}

#[test]
fn rule_at_the_start() {
    assert_eq!(parse("---".to_string()), vec![Token::HorizontalRule()]);
}

#[test]
fn rule_of_many_dashes() {
    assert_eq!(parse("----------".to_string()), vec![Token::HorizontalRule()]);
}

#[test]
fn two_dashes_are_text() {
    assert_eq!(parse("--".to_string()), vec![paragraph("--")]);
}

#[test]
fn dashes_with_anything_else_are_text() {
    assert_eq!(parse("--- ".to_string()), vec![paragraph("--- ")]);
    assert_eq!(parse(" ---".to_string()), vec![paragraph(" ---")]);
    assert_eq!(parse("---a".to_string()), vec![paragraph("---a")]);
}

#[test]
fn rule_after_a_blank_line() {
    assert_eq!(
        parse("text\n\n---".to_string()),
        vec![paragraph("text"), Token::HorizontalRule()]
    );
}

#[test]
fn dashes_make_a_heading_of_the_line_above() {
    assert_eq!(
        parse("Intro line\nHeading text\n---".to_string()),
        vec![paragraph("Intro line"), heading(1, "Heading text")]
    );
}

#[test]
fn dashes_under_one_line() {
    assert_eq!(parse("Title\n---".to_string()), vec![heading(1, "Title")]);
}

#[test]
fn dashes_under_three_lines() {
    assert_eq!(
        parse("one\ntwo\nthree\n-----\nfour".to_string()),
        vec![paragraph("one two"), heading(1, "three"), paragraph("four")]
    );
}

#[test]
fn heading_above_dashes_is_kept_as_it_stands() {
    assert_eq!(parse("  Title  \n---".to_string()), vec![heading(1, "  Title  ")]);
}

#[test]
fn two_rules() {
    assert_eq!(
        parse("---\n---".to_string()),
        vec![Token::HorizontalRule(), Token::HorizontalRule()]
    );
}

#[test]
fn lines_of_a_paragraph_are_joined() {
    assert_eq!(
        parse("line one\nline two\n\nline three".to_string()),
        vec![paragraph("line one line two"), paragraph("line three")]
    );
}

#[test]
fn blank_line_of_white_space_ends_a_paragraph() {
    assert_eq!(parse("a\n   \nb".to_string()), vec![paragraph("a"), paragraph("b")]);
}

#[test]
fn line_feed_at_the_end() {
    assert_eq!(parse("a\n".to_string()), vec![paragraph("a")]);
}

#[test]
fn carriage_return_stays_in_the_line() {
    assert_eq!(parse("a\r\nb".to_string()), vec![paragraph("a\r b")]);
}

#[test]
fn fenced_code() {
    assert_eq!(
        parse("```python\nprint(1)\n```".to_string()),
        vec![code("python", "print(1)\n")]
    );
}

#[test]
fn fence_that_is_not_closed() {
    assert_eq!(parse("```\nfoo".to_string()), vec![code("", "foo\n")]);
}

#[test]
fn fence_at_the_end_of_the_text() {
    assert_eq!(parse("```".to_string()), vec![code("", "")]);
}

#[test]
fn code_is_kept_as_it_stands() {
    assert_eq!(
        parse("```\n\n# x\n---\n  [a](b) <&>\n\n```".to_string()),
        vec![code("", "\n# x\n---\n  [a](b) <&>\n\n")]
    );
}

#[test]
fn fence_ends_a_paragraph() {
    assert_eq!(
        parse("before\n```rust\nlet x;\n```\nafter".to_string()),
        vec![paragraph("before"), code("rust", "let x;\n"), paragraph("after")]
    );
}

#[test]
fn closing_fence_may_stand_in_white_space() {
    assert_eq!(
        parse("```\na\n  ```  \nb".to_string()),
        vec![code("", "a\n"), paragraph("b")]
    );
}

#[test]
fn closing_fence_has_nothing_else() {
    assert_eq!(parse("```\na\n```b\nc".to_string()), vec![code("", "a\n```b\nc\n")]);
}

#[test]
fn language_tags() {
    assert_eq!(parse("```c++\n```".to_string()), vec![code("c++", "")]);
    assert_eq!(parse("```objective-c  \n```".to_string()), vec![code("objective-c", "")]);
    assert_eq!(parse("```a_b9\n```".to_string()), vec![code("a_b9", "")]);
}

#[test]
fn fence_with_another_character_is_text() {
    assert_eq!(parse("```foo.bar".to_string()), vec![paragraph("```foo.bar")]);
    assert_eq!(parse("```a b".to_string()), vec![paragraph("```a b")]);
    assert_eq!(parse("````".to_string()), vec![paragraph("````")]);
    assert_eq!(parse(" ```".to_string()), vec![paragraph(" ```")]);
}

#[test]
fn link_in_a_paragraph() {
    assert_eq!(
        parse("See [Docs](http://x) and more".to_string()),
        vec![Token::Paragraph(
            "See [Docs](http://x) and more".to_string(),
            vec![link(4, 20, "Docs", "http://x")]
        )]
    );
}

#[test]
fn image_is_found_as_a_link_too() {
    assert_eq!(
        parse("![Alt](img.png)".to_string()),
        vec![Token::Paragraph(
            "![Alt](img.png)".to_string(),
            vec![link(1, 15, "Alt", "img.png"), image(0, 15, "Alt", "img.png")]
        )]
    );
}

#[test]
fn links_stand_before_images() {
    assert_eq!(
        parse("![a](b) then [c](d)".to_string()),
        vec![Token::Paragraph(
            "![a](b) then [c](d)".to_string(),
            vec![link(1, 7, "a", "b"), link(13, 19, "c", "d"), image(0, 7, "a", "b")]
        )]
    );
}

#[test]
fn link_over_two_lines() {
    assert_eq!(
        parse("see [the\ndocs](http://x)".to_string()),
        vec![Token::Paragraph(
            "see [the docs](http://x)".to_string(),
            vec![link(4, 24, "the docs", "http://x")]
        )]
    );
}

#[test]
fn locations_count_bytes() {
    assert_eq!(
        parse("\u{e9}\u{4e2d}\u{1f600} [a](b)".to_string()),
        vec![Token::Paragraph(
            "\u{e9}\u{4e2d}\u{1f600} [a](b)".to_string(),
            vec![link(10, 16, "a", "b")]
        )]
    );
}

#[test]
fn paragraph_above_a_heading_by_dashes_has_its_links() {
    assert_eq!(
        parse("[a](b)\nTitle\n---".to_string()),
        vec![
            Token::Paragraph("[a](b)".to_string(), vec![link(0, 6, "a", "b")]),
            heading(1, "Title"),
        ]
    );
}

#[test]
fn paragraph_before_a_fence_has_its_links() {
    assert_eq!(
        parse("[a](b)\n```\n```".to_string()),
        vec![Token::Paragraph("[a](b)".to_string(), vec![link(0, 6, "a", "b")]), code("", "")]
    );
}

#[test]
fn a_whole_document() {
    let text = "# Title\n\nSome text\nwith [a link](http://example.org).\n\n---\n\n```sh\nls -l\n```\n\nSub\n---\nThe end";
    assert_eq!(
        parse(text.to_string()),
        vec![
            heading(1, "Title"),
            Token::Paragraph(
                "Some text with [a link](http://example.org).".to_string(),
                vec![link(15, 43, "a link", "http://example.org")]
            ),
            Token::HorizontalRule(),
            code("sh", "ls -l\n"),
            heading(1, "Sub"),
            paragraph("The end"),
        ]
    );
}

#[test]
fn parsing_twice_gives_the_same() {
    let text = "# a\nb [c](d)\n---\n```\ne";
    assert_eq!(parse(text.to_string()), parse(text.to_string()));
}

#[test]
fn long_text_is_parsed() {
    let mut text = String::new();
    for _ in 0..20000 {
        text.push_str("[[[[ word ![ ( \n");
    }
    let tokens = parse(text);
    assert_eq!(tokens.len(), 1);
}

#[test]
fn paragraph_content_has_no_line_feed() {
    let tokens = parse("a\nb\nc\n\nd\ne".to_string());
    for token in tokens {
        match token {
            Token::Paragraph(content, _) => assert!(!content.contains('\n')),
            _ => panic!("a paragraph was expected"),
        }
    }
}
