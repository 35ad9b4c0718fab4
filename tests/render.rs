use termdown::render::{push_cli, render, RenderError};
use termdown::token::{Alignment, Tag, Token};

fn text(s: &str) -> Token {
    Token::Text(s.to_string())
}

fn ok(tokens: Vec<Token>) -> String {
    match render(&tokens) {
        Ok(s) => s,
        Err(e) => panic!("render failed: {:?}", e),
    }
}

fn fails(tokens: Vec<Token>) -> bool {
    matches!(render(&tokens), Err(RenderError::UnimplementedFeature))
}

#[test]
fn plain_text_is_copied() {
    assert_eq!(ok(vec![text("hi")]), "hi");
}

#[test]
fn empty_stream_renders_empty() {
    assert_eq!(ok(vec![]), "");
}

#[test]
fn paragraph_ends_with_line_break() {
    let tokens = vec![Token::Start(Tag::Paragraph), text("hi"), Token::End(Tag::Paragraph)];
    assert_eq!(ok(tokens), "hi\n");
}

#[test]
fn second_paragraph_starts_on_fresh_line() {
    let tokens = vec![
        text("a"),
        Token::Start(Tag::Paragraph),
        text("b"),
        Token::End(Tag::Paragraph),
        Token::Start(Tag::Paragraph),
        text("c"),
        Token::End(Tag::Paragraph),
    ];
    assert_eq!(ok(tokens), "a\nb\nc\n");
}

#[test]
fn ordered_list_repeats_start_number() {
    let tokens = vec![
        Token::Start(Tag::List(Some(1))),
        Token::Start(Tag::Item),
        text("a"),
        Token::End(Tag::Item),
        Token::Start(Tag::Item),
        text("b"),
        Token::End(Tag::Item),
        Token::End(Tag::List(Some(1))),
    ];
    assert_eq!(ok(tokens), "1. a\n1. b");
}

#[test]
fn ordered_list_multi_digit_number() {
    let tokens = vec![
        Token::Start(Tag::List(Some(1207))),
        Token::Start(Tag::Item),
        text("x"),
        Token::End(Tag::Item),
        Token::End(Tag::List(Some(1207))),
    ];
    assert_eq!(ok(tokens), "1207. x");
}

#[test]
fn ordered_list_zero() {
    let tokens = vec![Token::Start(Tag::List(Some(0))), Token::Start(Tag::Item), text("x")];
    assert_eq!(ok(tokens), "0. x");
}

#[test]
fn unordered_list_uses_bullets() {
    let tokens = vec![
        text("intro"),
        Token::Start(Tag::List(None)),
        Token::Start(Tag::Item),
        text("a"),
        Token::End(Tag::Item),
        Token::Start(Tag::Item),
        text("b"),
        Token::End(Tag::Item),
        Token::End(Tag::List(None)),
    ];
    assert_eq!(ok(tokens), "intro\n* a\n* b");
}

#[test]
fn image_alt_text_is_drained() {
    let tokens = vec![
        Token::Start(Tag::Image("x.png".to_string(), String::new())),
        text("alt"),
        Token::End(Tag::Image("x.png".to_string(), String::new())),
    ];
    assert_eq!(ok(tokens), "<img src=\"x.png\" alt=\"alt\" />");
}

#[test]
fn image_with_title_and_nested_alt() {
    let tokens = vec![
        Token::Start(Tag::Image("a.gif".to_string(), "T".to_string())),
        text("x"),
        Token::Start(Tag::Emphasis),
        text("y"),
        Token::SoftBreak,
        Token::Html("<b>".to_string()),
        Token::InlineHtml("<i>".to_string()),
        Token::HardBreak,
        Token::End(Tag::Emphasis),
        Token::End(Tag::Image("a.gif".to_string(), "T".to_string())),
        text("after"),
    ];
    assert_eq!(ok(tokens), "<img src=\"a.gif\" alt=\"xy <i> \" title=\"T\" />after");
}

#[test]
fn image_alt_text_runs_to_end_of_stream() {
    let tokens = vec![Token::Start(Tag::Image("p".to_string(), String::new())), text("z")];
    assert_eq!(ok(tokens), "<img src=\"p\" alt=\"z\" />");
}

#[test]
fn table_inside_alt_text_fails() {
    let tokens = vec![
        Token::Start(Tag::Image("p".to_string(), String::new())),
        Token::Start(Tag::TableCell),
        text("c"),
        Token::End(Tag::TableCell),
        Token::End(Tag::Image("p".to_string(), String::new())),
    ];
    assert!(fails(tokens));
}

#[test]
fn footnote_definition_end_inside_alt_text_fails() {
    let tokens = vec![
        Token::Start(Tag::Image("p".to_string(), String::new())),
        text("c"),
        Token::End(Tag::FootnoteDefinition("n".to_string())),
    ];
    assert!(fails(tokens));
}

#[test]
fn footnote_reference_fails() {
    assert!(fails(vec![text("a"), Token::FootnoteReference("1".to_string())]));
}

#[test]
fn footnote_reference_in_alt_text_fails() {
    let tokens = vec![
        Token::Start(Tag::Image("p".to_string(), String::new())),
        Token::FootnoteReference("1".to_string()),
        Token::End(Tag::Image("p".to_string(), String::new())),
    ];
    assert!(fails(tokens));
}

#[test]
fn table_tokens_fail() {
    assert!(fails(vec![Token::Start(Tag::Table(vec![Alignment::Left, Alignment::Unaligned]))]));
    assert!(fails(vec![Token::Start(Tag::TableHead)]));
    assert!(fails(vec![Token::Start(Tag::TableRow)]));
    assert!(fails(vec![Token::Start(Tag::TableCell)]));
    assert!(fails(vec![text("a"), Token::End(Tag::TableCell)]));
    assert!(fails(vec![Token::End(Tag::Table(vec![]))]));
}

#[test]
fn footnote_definition_fails() {
    assert!(fails(vec![Token::Start(Tag::FootnoteDefinition("n".to_string()))]));
    assert!(fails(vec![Token::End(Tag::FootnoteDefinition("n".to_string()))]));
}

#[test]
fn failed_push_leaves_buffer() {
    let mut buf = "kept".to_string();
    let tokens = vec![text("lost"), Token::Start(Tag::TableRow)];
    assert_eq!(push_cli(&mut buf, &tokens), Err(RenderError::UnimplementedFeature));
    assert_eq!(buf, "kept");
}

#[test]
fn push_appends_after_existing_text() {
    let mut buf = "top".to_string();
    let tokens = vec![Token::Start(Tag::Paragraph), text("p"), Token::End(Tag::Paragraph)];
    assert_eq!(push_cli(&mut buf, &tokens), Ok(()));
    assert_eq!(buf, "top\np\n");
}

#[test]
fn push_after_line_break_adds_none() {
    let mut buf = "top\n".to_string();
    let tokens = vec![Token::Start(Tag::Header(2)), text("h"), Token::End(Tag::Header(2))];
    assert_eq!(push_cli(&mut buf, &tokens), Ok(()));
    assert_eq!(buf, "top\nh\n");
}

#[test]
fn rendering_twice_gives_same_text() {
    let tokens = vec![
        Token::Start(Tag::Paragraph),
        text("a"),
        Token::Start(Tag::Strong),
        text("b"),
        Token::End(Tag::Strong),
        Token::End(Tag::Paragraph),
        Token::Start(Tag::Image("i".to_string(), String::new())),
        text("c"),
        Token::End(Tag::Image("i".to_string(), String::new())),
    ];
    let first = ok(tokens.clone());
    let second = ok(tokens);
    assert_eq!(first, second);
    assert_eq!(first, "ab\n<img src=\"i\" alt=\"c\" />");
}

#[test]
fn supported_constructs_never_fail() {
    let tokens = vec![
        Token::Start(Tag::BlockQuote),
        text("q"),
        Token::End(Tag::BlockQuote),
        Token::Start(Tag::Rule),
        Token::End(Tag::Rule),
        Token::Start(Tag::Emphasis),
        Token::End(Tag::Emphasis),
        Token::End(Tag::Strong),
        Token::End(Tag::Emphasis),
        Token::Start(Tag::Code),
        text("c"),
        Token::End(Tag::Code),
    ];
    assert_eq!(ok(tokens), "\nq\n<hr />\n\tc");
}

#[test]
fn block_quote_after_text() {
    let tokens = vec![text("a"), Token::Start(Tag::BlockQuote), text("q")];
    assert_eq!(ok(tokens), "a\n\nq");
}

#[test]
fn breaks() {
    let tokens = vec![text("a"), Token::SoftBreak, text("b"), Token::HardBreak, text("c")];
    assert_eq!(ok(tokens), "a\nb<br />\nc");
}

#[test]
fn raw_markup_is_copied() {
    let tokens = vec![Token::Html("<div>".to_string()), Token::InlineHtml("<span>".to_string())];
    assert_eq!(ok(tokens), "<div><span>");
}

#[test]
fn code_block_with_language() {
    let tokens = vec![
        text("x"),
        Token::Start(Tag::CodeBlock("rust ignore".to_string())),
        text("fn f() {}"),
        Token::End(Tag::CodeBlock("rust ignore".to_string())),
    ];
    assert_eq!(ok(tokens), "x\n<code class=\"language-rust\">fn f() {}");
}

#[test]
fn code_block_without_language() {
    let tokens = vec![Token::Start(Tag::CodeBlock(String::new())), text("1")];
    assert_eq!(ok(tokens), "<code>1");
    let tokens = vec![Token::Start(Tag::CodeBlock(" \t ".to_string())), text("2")];
    assert_eq!(ok(tokens), "<code>2");
}

#[test]
fn code_block_language_is_first_word() {
    let tokens = vec![Token::Start(Tag::CodeBlock(" \trust\tx".to_string())), text("3")];
    assert_eq!(ok(tokens), "<code class=\"language-rust\">3");
    let tokens = vec![Token::Start(Tag::CodeBlock("py\u{3000}y".to_string())), text("4")];
    assert_eq!(ok(tokens), "<code class=\"language-py\">4");
}

#[test]
fn link_with_and_without_title() {
    let tokens = vec![
        Token::Start(Tag::Link("u".to_string(), String::new())),
        text("l"),
        Token::End(Tag::Link("u".to_string(), String::new())),
        Token::Start(Tag::Link("v".to_string(), "t".to_string())),
        text("m"),
        Token::End(Tag::Link("v".to_string(), "t".to_string())),
    ];
    assert_eq!(ok(tokens), "<a href=\"u\">l<a href=\"v\" title=\"t\">m");
}

#[test]
fn rendering_in_two_parts_matches_one_pass() {
    let first = vec![
        Token::Start(Tag::Paragraph),
        text("a"),
        Token::End(Tag::Paragraph),
        Token::Start(Tag::Image("i".to_string(), String::new())),
        text("alt"),
        Token::End(Tag::Image("i".to_string(), String::new())),
    ];
    let second = vec![Token::Start(Tag::Rule), text("b"), Token::SoftBreak];
    let mut whole = first.clone();
    whole.extend(second.clone());
    let mut buf = String::new();
    assert_eq!(push_cli(&mut buf, &first), Ok(()));
    assert_eq!(push_cli(&mut buf, &second), Ok(()));
    assert_eq!(ok(whole), buf);
    assert_eq!(buf, "a\n<img src=\"i\" alt=\"alt\" />\n<hr />\nb\n");
}
