//! How a token is written out for a reader.
//!
//! A token is written as the name of its variant and, in parentheses, its
//! fields with `, ` between them. A number is written in decimal and a
//! text in quotes.

use crate::text::{decimal, join, join_strings, push_decimal, string_views};
use crate::token::{metadata_views, Metadata, MetadataView, Token, TokenView};
use vstd::prelude::*;

verus! {

/// What `{:?}` of std writes for a string with the characters `s`: the
/// string in double quotes, with the characters that cannot stand there
/// written as escapes.
pub uninterp spec fn debug_form(s: Seq<char>) -> Seq<char>;

/// Formats `text` with `{:?}`, as the `Debug` of `str` writes it. What
/// comes out depends on the characters of `text` alone.
#[verifier::external_body]
fn quote(text: &str) -> (quoted: String)
    ensures
        quoted@ == debug_form(text@),
{
    format!("{:?}", text)
}

/// A name and its fields in parentheses.
pub open spec fn call_repr(name: Seq<char>, fields: Seq<Seq<char>>) -> Seq<char> {
    name + "("@ + join(fields, ", "@) + ")"@
}

/// A pair of numbers in parentheses.
pub open spec fn pair_repr(pair: (nat, nat)) -> Seq<char> {
    "("@ + decimal(pair.0) + ", "@ + decimal(pair.1) + ")"@
}

/// A list of items in square brackets.
pub open spec fn list_repr(items: Seq<Seq<char>>) -> Seq<char> {
    "["@ + join(items, ", "@) + "]"@
}

/// How a `Metadata` is written.
pub open spec fn metadata_repr(item: MetadataView) -> Seq<char> {
    match item {
        MetadataView::Link { location, label, url } => call_repr(
            "Link"@,
            seq![pair_repr(location), debug_form(label), debug_form(url)],
        ),
        MetadataView::Image { location, label, url } => call_repr(
            "Image"@,
            seq![pair_repr(location), debug_form(label), debug_form(url)],
        ),
    }
}

/// How a `Token` is written.
pub open spec fn token_repr(token: TokenView) -> Seq<char> {
    match token {
        TokenView::Heading { level, content } => call_repr(
            "Heading"@,
            seq![decimal(level), debug_form(content)],
        ),
        TokenView::Paragraph { content, metadata } => call_repr(
            "Paragraph"@,
            seq![
                debug_form(content),
                list_repr(metadata.map_values(|m: MetadataView| metadata_repr(m))),
            ],
        ),
        TokenView::HorizontalRule => "HorizontalRule"@,
        TokenView::Code { language, content } => call_repr(
            "Code"@,
            seq![debug_form(language), debug_form(content)],
        ),
    }
}

/// Writes `name` and, in parentheses, the fields as they are given.
pub fn call_form(name: &str, fields: &Vec<String>) -> (s: String)
    ensures
        s@ == call_repr(name@, string_views(fields@)),
{
    let mut s = String::from_str(name);
    s.append("(");
    s.append(join_strings(fields, ", ").as_str());
    s.append(")");
    s
}

/// Writes a pair of numbers.
pub fn pair_form(first: usize, second: usize) -> (s: String)
    ensures
        s@ == pair_repr((first as nat, second as nat)),
{
    let mut s = String::from_str("(");
    push_decimal(&mut s, first);
    s.append(", ");
    push_decimal(&mut s, second);
    s.append(")");
    s
}

/// Writes a list of the items as they are given.
pub fn list_form(items: &Vec<String>) -> (s: String)
    ensures
        s@ == list_repr(string_views(items@)),
{
    let mut s = String::from_str("[");
    s.append(join_strings(items, ", ").as_str());
    s.append("]");
    s
}

impl Metadata {
    /// Writes the metadata out: `Link((0, 9), "label", "url")`.
    pub fn py_repr(&self) -> (s: String)
        ensures
            s@ == metadata_repr(self@),
    {
        let mut fields: Vec<String> = Vec::new();
        match self {
            Metadata::Link { location, label, url } => {
                fields.push(pair_form(location.0, location.1));
                fields.push(quote(label.as_str()));
                fields.push(quote(url.as_str()));
                proof {
                    assert(string_views(fields@) == seq![
                        pair_repr(self@.location()),
                        debug_form(label@),
                        debug_form(url@),
                    ]);
                }
                call_form("Link", &fields)
            },
            Metadata::Image { location, label, url } => {
                fields.push(pair_form(location.0, location.1));
                fields.push(quote(label.as_str()));
                fields.push(quote(url.as_str()));
                proof {
                    assert(string_views(fields@) == seq![
                        pair_repr(self@.location()),
                        debug_form(label@),
                        debug_form(url@),
                    ]);
                }
                call_form("Image", &fields)
            },
        }
    }
}

impl Token {
    /// Writes the token out: `Heading(1, "Title")`.
    pub fn py_repr(&self) -> (s: String)
        ensures
            s@ == token_repr(self@),
    {
        let mut fields: Vec<String> = Vec::new();
        match self {
            Token::Heading { level, content } => {
                let mut number = String::new();
                push_decimal(&mut number, *level as usize);
                fields.push(number);
                fields.push(quote(content.as_str()));
                proof {
                    assert(number@ == decimal(*level as nat));
                    assert(string_views(fields@) == seq![
                        decimal(*level as nat),
                        debug_form(content@),
                    ]);
                }
                call_form("Heading", &fields)
            },
            Token::Paragraph(content, metadata) => {
                let mut items: Vec<String> = Vec::new();
                let ghost reprs = metadata_views(metadata@).map_values(
                    |m: MetadataView| metadata_repr(m),
                );
                let mut i: usize = 0;
                while i < metadata.len()
                    invariant
                        i <= metadata.len(),
                        reprs == metadata_views(metadata@).map_values(
                            |m: MetadataView| metadata_repr(m),
                        ),
                        string_views(items@) == reprs.take(i as int),
                    decreases metadata.len() - i,
                {
                    let item = metadata[i].py_repr();
                    proof {
                        assert(string_views(items@.push(item)) == string_views(items@).push(
                            item@,
                        ));
                        assert(reprs.take(i + 1) == reprs.take(i as int).push(reprs[i as int]));
                    }
                    items.push(item);
                    i += 1;
                }
                proof {
                    assert(reprs.take(metadata.len() as int) == reprs);
                }
                fields.push(quote(content.as_str()));
                fields.push(list_form(&items));
                proof {
                    assert(string_views(fields@) == seq![debug_form(content@), list_repr(reprs)]);
                }
                call_form("Paragraph", &fields)
            },
            Token::HorizontalRule() => String::from_str("HorizontalRule"),
            Token::Code { language, content } => {
                fields.push(quote(language.as_str()));
                fields.push(quote(content.as_str()));
                proof {
                    assert(string_views(fields@) == seq![
                        debug_form(language@),
                        debug_form(content@),
                    ]);
                }
                call_form("Code", &fields)
            },
        }
    }
}

} // verus!
