//! The renderer: from tokens to HTML.
//!
//! Each token gives one line of HTML. The text of a token is escaped and
//! nothing else is done to it: what a paragraph records of its links and
//! images, and the language of a block of code, are not rendered.

use crate::text::{decimal, join, join_strings, lemma_join_concat, push_decimal, string_views};
use crate::token::{token_views, Token, TokenView, Tokens};
use vstd::prelude::*;

verus! {

/// What stands for the character `c` in HTML: an entity for `&`, `<`,
/// `>` and the two quotes, the character itself for any other.
pub open spec fn entity(c: char) -> Seq<char> {
    if c == '&' {
        "&amp;"@
    } else if c == '<' {
        "&lt;"@
    } else if c == '>' {
        "&gt;"@
    } else if c == '"' {
        "&quot;"@
    } else if c == '\'' {
        "&#x27;"@
    } else {
        seq![c]
    }
}

/// The text `s` with each character replaced by what stands for it in
/// HTML.
pub open spec fn escaped(s: Seq<char>) -> Seq<char>
    decreases s.len(),
{
    if s.len() == 0 {
        Seq::empty()
    } else {
        escaped(s.drop_last()) + entity(s.last())
    }
}

/// The line of HTML that a token gives.
pub open spec fn html_of(token: TokenView) -> Seq<char> {
    match token {
        TokenView::Heading { level, content } => "<h"@ + decimal(level) + ">"@ + escaped(content)
            + "</h"@ + decimal(level) + ">"@,
        TokenView::Paragraph { content, .. } => "<p>"@ + escaped(content) + "</p>"@,
        TokenView::HorizontalRule => "<hr />"@,
        TokenView::Code { content, .. } => "<pre><code>"@ + escaped(content) + "</code></pre>"@,
    }
}

/// The HTML of a sequence of tokens: the line of each, in their order,
/// with a line feed between each two.
pub open spec fn html_of_all(tokens: Seq<TokenView>) -> Seq<char> {
    join(tokens.map_values(|t: TokenView| html_of(t)), "\n"@)
}

/// Escaping goes character by character: the escaped form of two texts
/// one after the other is the two escaped forms one after the other.
pub proof fn lemma_escaped_concat(a: Seq<char>, b: Seq<char>)
    ensures
        escaped(a + b) == escaped(a) + escaped(b),
    decreases b.len(),
{
    if b.len() == 0 {
        assert(a + b == a);
    } else {
        lemma_escaped_concat(a, b.drop_last());
        assert((a + b).drop_last() == a + b.drop_last());
    }
}

/// One of the five entities stands in `t` at the position `i`.
pub open spec fn entity_stands_at(t: Seq<char>, i: int) -> bool {
    exists|c: char|
        #![trigger entity(c)]
        entity(c).len() > 1 && 0 <= i && i + entity(c).len() <= t.len() && t.subrange(
            i,
            i + entity(c).len(),
        ) == entity(c)
}

/// Escaped text holds none of `<`, `>`, `"` and `'`, and every `&` in it
/// starts an entity.
pub proof fn lemma_escaped_has_no_markup(s: Seq<char>)
    ensures
        forall|i: int|
            0 <= i < escaped(s).len() ==> {
                let c = #[trigger] escaped(s)[i];
                &&& c != '<' && c != '>' && c != '"' && c != '\''
                &&& c == '&' ==> entity_stands_at(escaped(s), i)
            },
    decreases s.len(),
{
    reveal_strlit("&amp;");
    reveal_strlit("&lt;");
    reveal_strlit("&gt;");
    reveal_strlit("&quot;");
    reveal_strlit("&#x27;");
    if s.len() > 0 {
        lemma_escaped_has_no_markup(s.drop_last());
        let head = escaped(s.drop_last());
        let last = entity(s.last());
        let all = escaped(s);
        assert(all == head + last);
        assert forall|i: int| 0 <= i < all.len() implies {
            let c = #[trigger] all[i];
            &&& c != '<' && c != '>' && c != '"' && c != '\''
            &&& c == '&' ==> entity_stands_at(all, i)
        } by {
            if i < head.len() {
                assert(all[i] == head[i]);
                if all[i] == '&' {
                    let c = choose|c: char|
                        #![trigger entity(c)]
                        entity(c).len() > 1 && 0 <= i && i + entity(c).len() <= head.len()
                            && head.subrange(i, i + entity(c).len()) == entity(c);
                    assert(all.subrange(i, i + entity(c).len()) == head.subrange(
                        i,
                        i + entity(c).len(),
                    ));
                }
            } else {
                assert(all[i] == last[i - head.len()]);
                if all[i] == '&' {
                    assert(i == head.len());
                    assert(entity(s.last()).len() > 1);
                    assert(all.subrange(i, i + last.len()) == last);
                }
            }
        }
    }
}

/// Text without `&`, `<`, `>`, `"` and `'` is its own escaped form.
pub proof fn lemma_escaped_plain(s: Seq<char>)
    requires
        forall|i: int|
            0 <= i < s.len() ==> {
                let c = #[trigger] s[i];
                c != '&' && c != '<' && c != '>' && c != '"' && c != '\''
            },
    ensures
        escaped(s) == s,
    decreases s.len(),
{
    if s.len() > 0 {
        lemma_escaped_plain(s.drop_last());
        assert(s.drop_last().push(s.last()) == s);
    }
}

/// The HTML of tokens depends on nothing but the tokens: sequences with
/// the same views have the same HTML. Of a paragraph only the content
/// counts, and of a block of code only the content.
pub proof fn lemma_html_is_a_function_of_the_tokens(a: Seq<Token>, b: Seq<Token>)
    requires
        token_views(a) == token_views(b),
    ensures
        html_of_all(token_views(a)) == html_of_all(token_views(b)),
        forall|content: Seq<char>, m: Seq<crate::token::MetadataView>, n: Seq<crate::token::MetadataView>|
            html_of(TokenView::Paragraph { content, metadata: m }) == html_of(
                TokenView::Paragraph { content, metadata: n },
            ),
        forall|content: Seq<char>, k: Seq<char>, l: Seq<char>|
            html_of(TokenView::Code { language: k, content }) == html_of(
                TokenView::Code { language: l, content },
            ),
{
}

/// Each token is rendered by itself: the HTML of two sequences of tokens
/// one after the other is the HTML of the first, a line feed, and the
/// HTML of the second.
pub proof fn lemma_html_of_concat(a: Seq<TokenView>, b: Seq<TokenView>)
    requires
        a.len() > 0,
        b.len() > 0,
    ensures
        html_of_all(a + b) == html_of_all(a) + "\n"@ + html_of_all(b),
{
    let f = |t: TokenView| html_of(t);
    assert((a + b).map_values(f) == a.map_values(f) + b.map_values(f));
    lemma_join_concat(a.map_values(f), b.map_values(f), "\n"@);
}

/// Calls `html_escape::encode_quoted_attribute`, which copies the text and
/// puts `&amp;` for `&`, `&lt;` for `<`, `&gt;` for `>`, `&quot;` for `"`
/// and `&#x27;` for `'`. Every other character is kept as it is.
#[verifier::external_body]
fn escape(text: &str) -> (out: String)
    ensures
        out@ == escaped(text@),
{
    html_escape::encode_quoted_attribute(text).into_owned()
}

/// The line of HTML of one token.
pub fn render_token(token: &Token) -> (html: String)
    ensures
        html@ == html_of(token@),
{
    match token {
        Token::Heading { level, content } => {
            let mut html = String::from_str("<h");
            push_decimal(&mut html, *level as usize);
            html.append(">");
            html.append(escape(content.as_str()).as_str());
            html.append("</h");
            push_decimal(&mut html, *level as usize);
            html.append(">");
            html
        },
        Token::Paragraph(content, _) => {
            let mut html = String::from_str("<p>");
            html.append(escape(content.as_str()).as_str());
            html.append("</p>");
            html
        },
        Token::HorizontalRule() => String::from_str("<hr />"),
        Token::Code { content, .. } => {
            let mut html = String::from_str("<pre><code>");
            html.append(escape(content.as_str()).as_str());
            html.append("</code></pre>");
            html
        },
    }
}

/// Renders the tokens as HTML.
pub fn tokens_to_html(tokens: Tokens) -> (html: String)
    ensures
        html@ == html_of_all(token_views(tokens@)),
{
    let mut contents: Vec<String> = Vec::new();
    let ghost lines = token_views(tokens@).map_values(|t: TokenView| html_of(t));
    let mut i: usize = 0;
    while i < tokens.len()
        invariant
            i <= tokens.len(),
            lines == token_views(tokens@).map_values(|t: TokenView| html_of(t)),
            string_views(contents@) == lines.take(i as int),
        decreases tokens.len() - i,
    {
        let line = render_token(&tokens[i]);
        proof {
            assert(string_views(contents@.push(line)) == string_views(contents@).push(line@));
            assert(lines.take(i + 1) == lines.take(i as int).push(lines[i as int]));
        }
        contents.push(line);
        i += 1;
    }
    proof {
        assert(lines.take(tokens.len() as int) == lines);
    }
    join_strings(&contents, "\n")
}

} // verus!
