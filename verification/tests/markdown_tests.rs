use deepin_sticky_notes::markdown::{render_markdown, rendered_or_plain, RenderedText};

#[test]
fn markdown_supported_syntax_parses() {
    // Bold, italic, strikethrough, inline code, links and lists are all
    // supported by Slint's CommonMark subset.
    for src in [
        "**bold**",
        "*italic*",
        "~~strike~~",
        "`code`",
        "[link](https://example.com)",
        "- item",
        "1. item",
        "**bold** and *italic*",
    ] {
        assert!(
            slint::StyledText::from_markdown(src).is_ok(),
            "expected supported markdown to parse: {src}"
        );
    }
}

#[test]
fn markdown_unsupported_falls_back_to_plain_text() {
    // Headings/tables are not supported and must not panic; render_markdown
    // falls back to the raw text.
    for src in ["# heading", "| a | b |"] {
        let _ = render_markdown(src);
    }
    assert!(slint::StyledText::from_markdown("# heading").is_err());
}

#[test]
fn render_markdown_tells_which_way_it_went() {
    assert!(matches!(render_markdown("**bold**"), RenderedText::Markdown(_)));
    assert!(matches!(render_markdown("# heading"), RenderedText::Plain(_)));
    let plain = render_markdown("# heading").into_styled();
    assert_eq!(plain, slint::StyledText::from_plain_text("# heading"));
    let parsed = slint::StyledText::from_markdown("*x*");
    let expected = parsed.clone().unwrap();
    assert_eq!(rendered_or_plain(parsed, "*x*").into_styled(), expected);
    let failed = slint::StyledText::from_markdown("# h");
    assert!(matches!(rendered_or_plain(failed, "# h"), RenderedText::Plain(_)));
}

#[test]
fn render_markdown_gives_slints_renderings() {
    for src in ["**bold**", "- item", "# heading", "| a | b |", ""] {
        let expected = match slint::StyledText::from_markdown(src) {
            Ok(s) => s,
            Err(_) => slint::StyledText::from_plain_text(src),
        };
        assert_eq!(render_markdown(src).into_styled(), expected);
    }
    let failed = slint::StyledText::from_markdown("# h");
    assert_eq!(
        rendered_or_plain(failed, "# h").into_styled(),
        slint::StyledText::from_plain_text("# h")
    );
}
