use markdown_parser::{parse_bullet_list, parse_heading, parse_line, parse_wiki_link, parse_wiki_links, InlineText, MarkdownElement};

fn chars(s: &str) -> Vec<char> {
    s.chars().collect()
}

fn links(s: &str) -> Vec<String> {
    parse_wiki_links(&chars(s))
}

#[test]
fn adjacent_links() {
    assert_eq!(links("[[A]][[B]]"), vec!["A", "B"]);
}

#[test]
fn link_payload_is_trimmed() {
    assert_eq!(links("[[ A ]]"), vec!["A"]);
}

#[test]
fn unterminated_link_gives_nothing() {
    assert!(links("[[A").is_empty());
    assert!(links("[[A]").is_empty());
    assert!(links("").is_empty());
}

#[test]
fn whitespace_payload_gives_empty_target() {
    assert_eq!(links("[[   ]]"), vec![""]);
}

#[test]
fn empty_brackets_give_nothing() {
    assert!(links("[[]]").is_empty());
}

#[test]
fn payload_stops_at_first_closing_bracket() {
    assert!(links("[[a]b]]").is_empty());
    assert_eq!(links("[[a]b]] [[c]]"), vec!["c"]);
}

#[test]
fn extra_opening_bracket_belongs_to_payload() {
    assert_eq!(links("[[[x]]"), vec!["[x"]);
}

#[test]
fn unterminated_then_complete_link() {
    assert_eq!(links("[[open and [[closed]]"), vec!["open and [[closed"]);
    assert_eq!(links("[[x] [[y]]"), vec!["y"]);
}

#[test]
fn heading_function_counts_hashes() {
    let r = parse_heading(&chars("## Two [[T]]"));
    assert_eq!(r, Some(MarkdownElement::Heading {
        level: 2,
        title: InlineText { content: "Two [[T]]".to_string(), links: vec!["T".to_string()] },
        children: Vec::new(),
    }));
    assert_eq!(parse_heading(&chars("no heading")), None);
    assert_eq!(parse_heading(&chars("")), None);
}

#[test]
fn bullet_function_strips_dash() {
    let r = parse_bullet_list(&chars("-item"));
    assert_eq!(r, Some(MarkdownElement::BulletList {
        items: vec![InlineText { content: "item".to_string(), links: Vec::new() }],
    }));
    assert_eq!(parse_bullet_list(&chars("item -")), None);
}

#[test]
fn link_line_function_needs_a_link() {
    assert_eq!(parse_wiki_link(&chars("see [[A]]")), Some(MarkdownElement::InlineText(InlineText {
        content: "see [[A]]".to_string(),
        links: vec!["A".to_string()],
    })));
    assert_eq!(parse_wiki_link(&chars("see [A]")), None);
}

#[test]
fn line_function_trims_and_skips_blank() {
    assert_eq!(parse_line(&chars("   ")), None);
    assert_eq!(parse_line(&chars("  word  ")), Some(MarkdownElement::InlineText(InlineText {
        content: "word".to_string(),
        links: Vec::new(),
    })));
}
