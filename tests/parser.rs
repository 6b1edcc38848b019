use markdown_parser::{parse_markdown, InlineText, MarkdownElement};

fn text(content: &str, links: &[&str]) -> InlineText {
    InlineText {
        content: content.to_string(),
        links: links.iter().map(|l| l.to_string()).collect(),
    }
}

#[test]
fn test_parse_markdown() {
    let input = "# Heading 1\n- List item\n[[Link]] with text\nText with [[Another Link]]";
    let doc = parse_markdown(input);

    assert_eq!(doc.elements.len(), 4);
    assert_eq!(doc.elements[0], MarkdownElement::Heading {
        level: 1,
        title: InlineText {
            content: "Heading 1".to_string(),
            links: Vec::new()
        },
        children: Vec::new()
    });
    assert_eq!(doc.elements[1], MarkdownElement::BulletList {
        items: vec![InlineText {
            content: "List item".to_string(),
            links: Vec::new()
        }]
    });
    assert_eq!(doc.elements[2], MarkdownElement::InlineText(InlineText {
        content: "[[Link]] with text".to_string(),
        links: vec!["Link".to_string()]
    }));
    assert_eq!(doc.elements[3], MarkdownElement::InlineText(InlineText {
        content: "Text with [[Another Link]]".to_string(),
        links: vec!["Another Link".to_string()]
    }));
}

#[test]
fn test_parse_markdown_with_links() {
    let input = "# Heading with [[Link1]] and [[Link2]]\n- List item with [[Link3]]\nText with [[Link4]]";
    let doc = parse_markdown(input);

    assert_eq!(doc.elements.len(), 3);
    assert_eq!(doc.elements[0], MarkdownElement::Heading {
        level: 1,
        title: InlineText {
            content: "Heading with [[Link1]] and [[Link2]]".to_string(),
            links: vec!["Link1".to_string(), "Link2".to_string()]
        },
        children: Vec::new()
    });
    assert_eq!(doc.elements[1], MarkdownElement::BulletList {
        items: vec![InlineText {
            content: "List item with [[Link3]]".to_string(),
            links: vec!["Link3".to_string()]
        }]
    });
    assert_eq!(doc.elements[2], MarkdownElement::InlineText(InlineText {
        content: "Text with [[Link4]]".to_string(),
        links: vec!["Link4".to_string()]
    }));
}

#[test]
fn test_multi_level_headings() {
    let input = "# Top Level Heading\n## Second Level Heading\n### Third Level Heading with [[Link]]";
    let doc = parse_markdown(input);

    assert_eq!(doc.elements.len(), 3);
    assert_eq!(doc.elements[0], MarkdownElement::Heading {
        level: 1,
        title: InlineText {
            content: "Top Level Heading".to_string(),
            links: Vec::new()
        },
        children: Vec::new()
    });
    assert_eq!(doc.elements[1], MarkdownElement::Heading {
        level: 2,
        title: InlineText {
            content: "Second Level Heading".to_string(),
            links: Vec::new()
        },
        children: Vec::new()
    });
    assert_eq!(doc.elements[2], MarkdownElement::Heading {
        level: 3,
        title: InlineText {
            content: "Third Level Heading with [[Link]]".to_string(),
            links: vec!["Link".to_string()]
        },
        children: Vec::new()
    });
}

#[test]
fn heading_level_three() {
    let doc = parse_markdown("### text");
    assert_eq!(doc.elements, vec![MarkdownElement::Heading {
        level: 3,
        title: text("text", &[]),
        children: Vec::new(),
    }]);
}

#[test]
fn repeated_link_kept_twice() {
    let doc = parse_markdown("[[A]] middle [[A]]");
    assert_eq!(doc.elements, vec![MarkdownElement::InlineText(text(
        "[[A]] middle [[A]]",
        &["A", "A"],
    ))]);
}

#[test]
fn unterminated_bracket_is_plain_text() {
    let doc = parse_markdown("[[incomplete");
    assert_eq!(doc.elements, vec![MarkdownElement::InlineText(text("[[incomplete", &[]))]);
}

#[test]
fn bullet_keeps_link_markup_in_content() {
    let doc = parse_markdown("- buy milk [[Store]]");
    assert_eq!(doc.elements, vec![MarkdownElement::BulletList {
        items: vec![text("buy milk [[Store]]", &["Store"])],
    }]);
}

#[test]
fn surrounding_whitespace_does_not_change_elements() {
    let padded = parse_markdown("  \t## Title [[X]]  ");
    let bare = parse_markdown("## Title [[X]]");
    assert_eq!(padded, bare);
    let padded_plain = parse_markdown("   plain words \t");
    assert_eq!(padded_plain.elements, vec![MarkdownElement::InlineText(text("plain words", &[]))]);
    let padded_bullet = parse_markdown("\u{3000}-  item  ");
    assert_eq!(padded_bullet.elements, vec![MarkdownElement::BulletList {
        items: vec![text("item", &[])],
    }]);
}

#[test]
fn blank_lines_give_no_element() {
    let doc = parse_markdown("first\n\n   \n\t\nsecond\n");
    assert_eq!(doc.elements, vec![
        MarkdownElement::InlineText(text("first", &[])),
        MarkdownElement::InlineText(text("second", &[])),
    ]);
}

#[test]
fn element_count_equals_line_count_without_blank_lines() {
    let input = "# a\n- b\nc [[d]]\ne";
    assert_eq!(parse_markdown(input).elements.len(), input.lines().count());
    let with_blank = "# a\n\n- b";
    assert!(parse_markdown(with_blank).elements.len() < with_blank.lines().count());
}

#[test]
fn elements_follow_line_order() {
    let doc = parse_markdown("three\n\n# one\n- two");
    assert_eq!(doc.elements, vec![
        MarkdownElement::InlineText(text("three", &[])),
        MarkdownElement::Heading { level: 1, title: text("one", &[]), children: Vec::new() },
        MarkdownElement::BulletList { items: vec![text("two", &[])] },
    ]);
}

#[test]
fn empty_input_gives_empty_document() {
    assert!(parse_markdown("").elements.is_empty());
    assert!(parse_markdown("\n\n  \n").elements.is_empty());
}

#[test]
fn carriage_returns_are_trimmed() {
    let doc = parse_markdown("# Title\r\n- item\r\nplain\r\n");
    assert_eq!(doc.elements, vec![
        MarkdownElement::Heading { level: 1, title: text("Title", &[]), children: Vec::new() },
        MarkdownElement::BulletList { items: vec![text("item", &[])] },
        MarkdownElement::InlineText(text("plain", &[])),
    ]);
}

#[test]
fn bare_hashes_make_an_empty_heading() {
    let doc = parse_markdown("####");
    assert_eq!(doc.elements, vec![MarkdownElement::Heading {
        level: 4,
        title: text("", &[]),
        children: Vec::new(),
    }]);
}

#[test]
fn heading_takes_precedence_over_bullet_and_links() {
    let doc = parse_markdown("#- [[x]]");
    assert_eq!(doc.elements, vec![MarkdownElement::Heading {
        level: 1,
        title: text("- [[x]]", &["x"]),
        children: Vec::new(),
    }]);
}

#[test]
fn hash_after_text_is_not_a_heading() {
    let doc = parse_markdown("a # b");
    assert_eq!(doc.elements, vec![MarkdownElement::InlineText(text("a # b", &[]))]);
}

#[test]
fn non_ascii_text_is_kept() {
    let doc = parse_markdown("# AIフレンドリー\n- これは何\n[[プロンプト生成]]");
    assert_eq!(doc.elements, vec![
        MarkdownElement::Heading { level: 1, title: text("AIフレンドリー", &[]), children: Vec::new() },
        MarkdownElement::BulletList { items: vec![text("これは何", &[])] },
        MarkdownElement::InlineText(text("[[プロンプト生成]]", &["プロンプト生成"])),
    ]);
}
