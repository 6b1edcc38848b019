//! The line classifier and the document parser.
use vstd::prelude::*;
use vstd::slice::slice_subrange;
use crate::links::{links_spec, parse_wiki_links};
use crate::text::{
    chars_of, line_bounds, lines_spec, string_from, trim, trim_spec,
};
use crate::types::{ElementModel, InlineText, MarkdownDocument, MarkdownElement, TextModel};

verus! {

/// The number of `#` characters that `s` starts with.
pub open spec fn hashes(s: Seq<char>) -> nat
    decreases s.len(),
{
    if s.len() > 0 && s[0] == '#' {
        1 + hashes(s.drop_first())
    } else {
        0
    }
}

/// The heading that `line` makes, if it starts with `#`: its level is the
/// number of leading `#`, its title what follows them, trimmed, and its links
/// those of the whole line.
pub open spec fn heading_spec(line: Seq<char>) -> Option<ElementModel> {
    let level = hashes(line);
    if level > 0 {
        Some(
            ElementModel::Heading {
                level,
                title: TextModel {
                    content: trim_spec(line.subrange(level as int, line.len() as int)),
                    links: links_spec(line),
                },
                children: seq![],
            },
        )
    } else {
        None
    }
}

/// The one-item bullet list that `line` makes, if it starts with `-`: the
/// item's content is what follows the `-`, trimmed, its links those of the
/// whole line.
pub open spec fn bullet_spec(line: Seq<char>) -> Option<ElementModel> {
    if line.len() > 0 && line[0] == '-' {
        Some(
            ElementModel::BulletList {
                items: seq![TextModel { content: trim_spec(line.drop_first()), links: links_spec(line) }],
            },
        )
    } else {
        None
    }
}

/// The text element that `line` makes if it holds at least one link: the
/// whole line, unchanged, with its links.
pub open spec fn link_line_spec(line: Seq<char>) -> Option<ElementModel> {
    if links_spec(line).len() > 0 {
        Some(ElementModel::Text(TextModel { content: line, links: links_spec(line) }))
    } else {
        None
    }
}

/// The element that a trimmed line makes: the first of heading, bullet item
/// and link-bearing text that applies, else plain text, else (for an empty
/// line) none.
pub open spec fn classify(line: Seq<char>) -> Option<ElementModel> {
    if heading_spec(line) is Some {
        heading_spec(line)
    } else if bullet_spec(line) is Some {
        bullet_spec(line)
    } else if link_line_spec(line) is Some {
        link_line_spec(line)
    } else if line.len() > 0 {
        Some(ElementModel::Text(TextModel { content: line, links: seq![] }))
    } else {
        None
    }
}

/// The elements that a sequence of lines makes, each line trimmed first.
pub open spec fn elements_of(lines: Seq<Seq<char>>) -> Seq<ElementModel>
    decreases lines.len(),
{
    if lines.len() == 0 {
        seq![]
    } else {
        let prev = elements_of(lines.drop_last());
        match classify(trim_spec(lines.last())) {
            Some(e) => prev.push(e),
            None => prev,
        }
    }
}

/// The document that the text `s` makes.
pub open spec fn parse_spec(s: Seq<char>) -> Seq<ElementModel> {
    elements_of(lines_spec(s))
}

/// The model of an optional element.
pub open spec fn option_view(r: Option<MarkdownElement>) -> Option<ElementModel> {
    match r {
        Some(e) => Some(e@),
        None => None,
    }
}

proof fn lemma_hashes_prefix(s: Seq<char>, i: int)
    requires
        0 <= i <= s.len(),
        forall|k: int| 0 <= k < i ==> #[trigger] s[k] == '#',
    ensures
        hashes(s) == i + hashes(s.subrange(i, s.len() as int)),
    decreases i,
{
    if i > 0 {
        let t = s.drop_first();
        assert(t.subrange(i - 1, t.len() as int) == s.subrange(i, s.len() as int));
        assert forall|k: int| 0 <= k < i - 1 implies #[trigger] t[k] == '#' by {
            assert(t[k] == s[k + 1]);
        }
        lemma_hashes_prefix(t, i - 1);
    } else {
        assert(s.subrange(0, s.len() as int) == s);
    }
}

/// A heading if `line` starts with `#`, else nothing.
pub fn parse_heading(line: &[char]) -> (r: Option<MarkdownElement>)
    ensures
        option_view(r) == heading_spec(line@),
{
    let n = line.len();
    let mut level: usize = 0;
    while level < n && line[level] == '#'
        invariant
            level <= n == line@.len(),
            forall|k: int| 0 <= k < level ==> #[trigger] line@[k] == '#',
        decreases n - level,
    {
        level = level + 1;
    }
    proof {
        lemma_hashes_prefix(line@, level as int);
    }
    if level > 0 {
        let title = string_from(trim(slice_subrange(line, level, n)));
        let links = parse_wiki_links(line);
        let children: Vec<MarkdownElement> = Vec::new();
        let r = MarkdownElement::Heading {
            level,
            title: InlineText { content: title, links },
            children,
        };
        proof {
            assert(r@->children == Seq::<ElementModel>::empty());
        }
        Some(r)
    } else {
        None
    }
}

/// A one-item bullet list if `line` starts with `-`, else nothing.
pub fn parse_bullet_list(line: &[char]) -> (r: Option<MarkdownElement>)
    ensures
        option_view(r) == bullet_spec(line@),
{
    let n = line.len();
    if n > 0 && line[0] == '-' {
        let content = string_from(trim(slice_subrange(line, 1, n)));
        let links = parse_wiki_links(line);
        proof {
            assert(line@.subrange(1, n as int) == line@.drop_first());
        }
        let item = InlineText { content, links };
        let ghost iv = item@;
        let items = vec![item];
        proof {
            assert(items@.map_values(|t: InlineText| t@) == seq![iv]);
        }
        Some(MarkdownElement::BulletList { items })
    } else {
        None
    }
}

/// Text carrying the links of `line` if it has any, else nothing.
pub fn parse_wiki_link(line: &[char]) -> (r: Option<MarkdownElement>)
    ensures
        option_view(r) == link_line_spec(line@),
{
    let links = parse_wiki_links(line);
    if links.len() > 0 {
        Some(MarkdownElement::InlineText(InlineText { content: string_from(line), links }))
    } else {
        None
    }
}

/// The element that one line makes once trimmed, or nothing for a blank line.
pub fn parse_line(line: &[char]) -> (r: Option<MarkdownElement>)
    ensures
        option_view(r) == classify(trim_spec(line@)),
{
    let trimmed = trim(line);
    let heading = parse_heading(trimmed);
    if heading.is_some() {
        return heading;
    }
    let bullet = parse_bullet_list(trimmed);
    if bullet.is_some() {
        return bullet;
    }
    let link = parse_wiki_link(trimmed);
    if link.is_some() {
        return link;
    }
    if trimmed.len() > 0 {
        let r = MarkdownElement::InlineText(
            InlineText { content: string_from(trimmed), links: Vec::new() },
        );
        proof {
            assert(r@->Text_0.links == Seq::<Seq<char>>::empty());
        }
        Some(r)
    } else {
        None
    }
}

/// Parses `input` into a document: one element for each line that is not
/// blank once trimmed, in the order of the lines.
pub fn parse_markdown(input: &str) -> (doc: MarkdownDocument)
    ensures
        doc@ == parse_spec(input@),
{
    let cs = chars_of(input);
    let all = cs.as_slice();
    let bounds = line_bounds(all);
    let ghost ls = lines_spec(input@);
    let mut elements: Vec<MarkdownElement> = Vec::new();
    let mut k: usize = 0;
    assert(ls.take(0) == Seq::<Seq<char>>::empty());
    while k < bounds.len()
        invariant
            all@ == input@,
            k <= bounds@.len() == ls.len(),
            ls == lines_spec(input@),
            forall|j: int|
                0 <= j < bounds@.len() ==> {
                    &&& (#[trigger] bounds@[j]).0 <= bounds@[j].1 <= all@.len()
                    &&& all@.subrange(bounds@[j].0 as int, bounds@[j].1 as int) == ls[j]
                },
            elements@.map_values(|e: MarkdownElement| e@) == elements_of(ls.take(k as int)),
        decreases bounds@.len() - k,
    {
        let (start, end) = bounds[k];
        let line = slice_subrange(all, start, end);
        let ghost old_elements = elements@;
        assert(ls.take(k + 1).drop_last() == ls.take(k as int));
        match parse_line(line) {
            Some(e) => {
                elements.push(e);
                assert(elements@.map_values(|e: MarkdownElement| e@) == old_elements.map_values(
                    |e: MarkdownElement| e@,
                ).push(elements@.last()@));
            },
            None => {},
        }
        k = k + 1;
    }
    assert(ls.take(ls.len() as int) == ls);
    MarkdownDocument { elements }
}

} // verus!
