//! The tokens of a document and what stands for them in contracts.

use crate::text::byte_len;
use vstd::prelude::*;

verus! {

/// A link or an image that was found in the text of a paragraph.
///
/// `location` is the range of bytes of the paragraph's content that holds
/// the whole construct, from its first character to its closing
/// parenthesis.
#[derive(Debug, PartialEq, Eq)]
pub enum Metadata {
    /// `[label](url)`
    Link { location: (usize, usize), label: String, url: String },
    /// `![label](url)`
    Image { location: (usize, usize), label: String, url: String },
}

/// One block of a document.
#[derive(Debug, PartialEq, Eq)]
pub enum Token {
    /// A heading of level one to six.
    Heading { level: u8, content: String },
    /// A paragraph: its text on one line, and what was found in it.
    Paragraph(String, Vec<Metadata>),
    /// A horizontal rule.
    HorizontalRule(),
    /// A block of code, as it stood between its fences.
    Code { language: String, content: String },
}

/// The tokens of a document, in its order.
pub type Tokens = Vec<Token>;

/// What a `Metadata` is in contracts.
pub enum MetadataView {
    Link { location: (nat, nat), label: Seq<char>, url: Seq<char> },
    Image { location: (nat, nat), label: Seq<char>, url: Seq<char> },
}

/// What a `Token` is in contracts.
pub enum TokenView {
    Heading { level: nat, content: Seq<char> },
    Paragraph { content: Seq<char>, metadata: Seq<MetadataView> },
    HorizontalRule,
    Code { language: Seq<char>, content: Seq<char> },
}

impl View for Metadata {
    type V = MetadataView;

    open spec fn view(&self) -> MetadataView {
        match self {
            Metadata::Link { location, label, url } => MetadataView::Link {
                location: (location.0 as nat, location.1 as nat),
                label: label@,
                url: url@,
            },
            Metadata::Image { location, label, url } => MetadataView::Image {
                location: (location.0 as nat, location.1 as nat),
                label: label@,
                url: url@,
            },
        }
    }
}

/// The views of a sequence of metadata.
pub open spec fn metadata_views(items: Seq<Metadata>) -> Seq<MetadataView> {
    items.map_values(|m: Metadata| m@)
}

impl View for Token {
    type V = TokenView;

    open spec fn view(&self) -> TokenView {
        match self {
            Token::Heading { level, content } => TokenView::Heading {
                level: *level as nat,
                content: content@,
            },
            Token::Paragraph(content, metadata) => TokenView::Paragraph {
                content: content@,
                metadata: metadata_views(metadata@),
            },
            Token::HorizontalRule() => TokenView::HorizontalRule,
            Token::Code { language, content } => TokenView::Code {
                language: language@,
                content: content@,
            },
        }
    }
}

/// The views of a sequence of tokens.
pub open spec fn token_views(tokens: Seq<Token>) -> Seq<TokenView> {
    tokens.map_values(|t: Token| t@)
}

impl Clone for Metadata {
    fn clone(&self) -> (copy: Self)
        ensures
            copy@ == self@,
    {
        match self {
            Metadata::Link { location, label, url } => Metadata::Link {
                location: (location.0, location.1),
                label: label.clone(),
                url: url.clone(),
            },
            Metadata::Image { location, label, url } => Metadata::Image {
                location: (location.0, location.1),
                label: label.clone(),
                url: url.clone(),
            },
        }
    }
}

impl Clone for Token {
    fn clone(&self) -> (copy: Self)
        ensures
            copy@ == self@,
    {
        match self {
            Token::Heading { level, content } => Token::Heading {
                level: *level,
                content: content.clone(),
            },
            Token::Paragraph(content, metadata) => {
                let mut copies: Vec<Metadata> = Vec::new();
                let mut i: usize = 0;
                while i < metadata.len()
                    invariant
                        i <= metadata.len(),
                        metadata_views(copies@) == metadata_views(metadata@).take(i as int),
                    decreases metadata.len() - i,
                {
                    let item = metadata[i].clone();
                    proof {
                        let all = metadata_views(metadata@);
                        assert(metadata_views(copies@.push(item)) == metadata_views(copies@).push(
                            item@,
                        ));
                        assert(all.take(i + 1) == all.take(i as int).push(all[i as int]));
                    }
                    copies.push(item);
                    i += 1;
                }
                proof {
                    assert(metadata_views(metadata@).take(metadata.len() as int)
                        == metadata_views(metadata@));
                }
                Token::Paragraph(content.clone(), copies)
            },
            Token::HorizontalRule() => Token::HorizontalRule(),
            Token::Code { language, content } => Token::Code {
                language: language.clone(),
                content: content.clone(),
            },
        }
    }
}

impl MetadataView {
    /// The range of bytes that the construct takes.
    pub open spec fn location(self) -> (nat, nat) {
        match self {
            MetadataView::Link { location, .. } => location,
            MetadataView::Image { location, .. } => location,
        }
    }

    /// The label of the construct.
    pub open spec fn label(self) -> Seq<char> {
        match self {
            MetadataView::Link { label, .. } => label,
            MetadataView::Image { label, .. } => label,
        }
    }

    /// The url of the construct.
    pub open spec fn url(self) -> Seq<char> {
        match self {
            MetadataView::Link { url, .. } => url,
            MetadataView::Image { url, .. } => url,
        }
    }

    /// The range is not empty and lies within `content`.
    pub open spec fn well_formed(self, content: Seq<char>) -> bool {
        self.location().0 < self.location().1 <= byte_len(content)
    }
}

impl TokenView {
    /// What holds of every token that the tokenizer makes: a heading has a
    /// level from one to six; a paragraph has no line feed in its content,
    /// and what was found in it lies within the content.
    pub open spec fn well_formed(self) -> bool {
        match self {
            TokenView::Heading { level, .. } => 1 <= level <= 6,
            TokenView::Paragraph { content, metadata } => {
                &&& !content.contains('\n')
                &&& forall|i: int|
                    0 <= i < metadata.len() ==> (#[trigger] metadata[i]).well_formed(content)
            },
            TokenView::HorizontalRule => true,
            TokenView::Code { .. } => true,
        }
    }
}

} // verus!
