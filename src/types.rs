//! The document tree and its mathematical model.
use vstd::prelude::*;

verus! {

/// A text payload together with the wiki-link targets found in its line.
#[derive(Debug, PartialEq)]
pub struct InlineText {
    pub content: String,
    pub links: Vec<String>,
}

/// One structural unit of a document.
#[derive(Debug, PartialEq)]
pub enum MarkdownElement {
    /// `level` counts the leading `#` characters of the line.
    Heading { level: usize, title: InlineText, children: Vec<MarkdownElement> },
    /// One bullet line gives one list holding one item.
    BulletList { items: Vec<InlineText> },
    InlineText(InlineText),
}

/// A parsed document: its elements in the order of their lines.
#[derive(Debug, PartialEq)]
pub struct MarkdownDocument {
    pub elements: Vec<MarkdownElement>,
}

/// The model of an `InlineText`: its content and its link targets as character sequences.
pub struct TextModel {
    pub content: Seq<char>,
    pub links: Seq<Seq<char>>,
}

/// The model of a `MarkdownElement`.
pub enum ElementModel {
    Heading { level: nat, title: TextModel, children: Seq<ElementModel> },
    BulletList { items: Seq<TextModel> },
    Text(TextModel),
}

impl View for InlineText {
    type V = TextModel;

    open spec fn view(&self) -> TextModel {
        TextModel { content: self.content@, links: self.links@.map_values(|l: String| l@) }
    }
}

impl View for MarkdownElement {
    type V = ElementModel;

    open spec fn view(&self) -> ElementModel
        decreases self,
    {
        match self {
            MarkdownElement::Heading { level, title, children } => ElementModel::Heading {
                level: *level as nat,
                title: title@,
                children: Seq::new(
                    children@.len(),
                    |i: int|
                        if 0 <= i < children@.len() {
                            children@[i]@
                        } else {
                            ElementModel::Text(TextModel { content: seq![], links: seq![] })
                        },
                ),
            },
            MarkdownElement::BulletList { items } => ElementModel::BulletList {
                items: items@.map_values(|t: InlineText| t@),
            },
            MarkdownElement::InlineText(t) => ElementModel::Text(t@),
        }
    }
}

impl View for MarkdownDocument {
    type V = Seq<ElementModel>;

    open spec fn view(&self) -> Seq<ElementModel> {
        self.elements@.map_values(|e: MarkdownElement| e@)
    }
}

} // verus!
