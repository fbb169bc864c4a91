//! The tokenizer: from the text of a document to its tokens.
//!
//! The text is cut into lines at each line feed. The lines are then read
//! once, from the first to the last, in one of three states: between
//! blocks (`blocks_from`), inside a paragraph (`gathered`) and inside a
//! fenced block of code (`fenced`).

use crate::inline::{lemma_metadata_stands_in_text, metadata_of};
use crate::line::{
    blank, dashes, fence_end, fence_of, heading_of, is_blank, is_dashes, is_fence_end, match_fence,
    match_heading,
};
use crate::text::{
    chars_of, join, lemma_join_concat, lemma_join_without, lemma_run_end, run_end, skip_run,
    string_of, CharClass,
};
use crate::token::{metadata_views, token_views, Metadata, Token, TokenView, Tokens};
use vstd::prelude::*;

verus! {

/// The lines of `s` from the position `from` on: what stands before the
/// next line feed, then the lines behind that line feed.
pub open spec fn lines_from(s: Seq<char>, from: int) -> Seq<Seq<char>>
    decreases s.len() - from,
{
    let end = run_end(s, from, CharClass::Except('\n'));
    if 0 <= from <= end < s.len() {
        seq![s.subrange(from, end)] + lines_from(s, end + 1)
    } else {
        seq![s.subrange(from, s.len() as int)]
    }
}

/// The lines of `s`. A text with `n` line feeds has `n + 1` lines; the
/// empty text has one line, which is empty.
pub open spec fn lines_of(s: Seq<char>) -> Seq<Seq<char>> {
    lines_from(s, 0)
}

/// The views of a sequence of lines.
pub open spec fn rows(lines: Seq<Vec<char>>) -> Seq<Seq<char>> {
    lines.map_values(|l: Vec<char>| l@)
}

/// The text of a block of code: each line, with a line feed behind it.
pub open spec fn code_text(lines: Seq<Seq<char>>) -> Seq<char>
    decreases lines.len(),
{
    if lines.len() == 0 {
        Seq::empty()
    } else {
        code_text(lines.drop_last()) + lines.last() + seq!['\n']
    }
}

/// The paragraph that the lines make: none where there is no line, else
/// one whose content is the lines with a space between each two, and
/// whose metadata is what is found in that content.
pub open spec fn paragraph_of(lines: Seq<Seq<char>>) -> Seq<TokenView> {
    if lines.len() == 0 {
        Seq::empty()
    } else {
        let content = join(lines, seq![' ']);
        seq![TokenView::Paragraph { content, metadata: metadata_of(content) }]
    }
}

/// The tokens of the lines from `at` on, where `at` stands between blocks.
///
/// An empty line is passed over. A heading line gives a heading. Any
/// other line starts a paragraph.
pub open spec fn blocks_from(lines: Seq<Seq<char>>, at: int) -> Seq<TokenView>
    decreases lines.len() - at, 1int,
{
    if at < 0 || at >= lines.len() {
        Seq::empty()
    } else if lines[at].len() == 0 {
        blocks_from(lines, at + 1)
    } else {
        match heading_of(lines[at]) {
            Some((level, content)) => seq![TokenView::Heading { level, content }] + blocks_from(
                lines,
                at + 1,
            ),
            None => gathered(lines, at, at),
        }
    }
}

/// The tokens of the lines from `at` on, where the lines from `start` up
/// to `at` have been gathered for a paragraph.
///
/// The end of the text and a blank line close the paragraph. A dash line
/// is a horizontal rule where nothing has been gathered; else it makes a
/// heading of level one of the line before it, and a paragraph of the
/// lines before that one. A line that opens a fence closes the paragraph
/// and starts a block of code. Any other line is gathered.
pub open spec fn gathered(lines: Seq<Seq<char>>, start: int, at: int) -> Seq<TokenView>
    decreases lines.len() - at, 0int,
{
    if at < 0 || at >= lines.len() {
        paragraph_of(lines.subrange(start, lines.len() as int))
    } else if is_blank(lines[at]) {
        paragraph_of(lines.subrange(start, at)) + blocks_from(lines, at + 1)
    } else if is_dashes(lines[at]) {
        if start >= at {
            seq![TokenView::HorizontalRule] + blocks_from(lines, at + 1)
        } else {
            paragraph_of(lines.subrange(start, at - 1)) + seq![
                TokenView::Heading { level: 1, content: lines[at - 1] },
            ] + blocks_from(lines, at + 1)
        }
    } else {
        match fence_of(lines[at]) {
            Some(language) => paragraph_of(lines.subrange(start, at)) + fenced(
                lines,
                language,
                at + 1,
                at + 1,
            ),
            None => gathered(lines, start, at + 1),
        }
    }
}

/// The tokens of the lines from `at` on, where the lines from `first` up
/// to `at` stand in a block of code whose fence named `language`.
///
/// The end of the text and a closing fence end the block; the closing
/// fence is no part of it. Any other line belongs to the block as it is.
pub open spec fn fenced(lines: Seq<Seq<char>>, language: Seq<char>, first: int, at: int) -> Seq<
    TokenView,
>
    decreases lines.len() - at, 0int,
{
    if at < 0 || at >= lines.len() {
        seq![
            TokenView::Code {
                language,
                content: code_text(lines.subrange(first, lines.len() as int)),
            },
        ]
    } else if is_fence_end(lines[at]) {
        seq![TokenView::Code { language, content: code_text(lines.subrange(first, at)) }]
            + blocks_from(lines, at + 1)
    } else {
        fenced(lines, language, first, at + 1)
    }
}

/// The tokens of the document whose text is `s`.
pub open spec fn document(s: Seq<char>) -> Seq<TokenView> {
    blocks_from(lines_of(s), 0)
}

/// No line holds a line feed.
pub open spec fn are_lines(lines: Seq<Seq<char>>) -> bool {
    forall|i: int| 0 <= i < lines.len() ==> !(#[trigger] lines[i]).contains('\n')
}

/// Every token is well formed.
pub open spec fn all_well_formed(tokens: Seq<TokenView>) -> bool {
    forall|i: int| 0 <= i < tokens.len() ==> (#[trigger] tokens[i]).well_formed()
}

/// The lines from `from` on are what stands between the line feeds: there
/// is at least one, none holds a line feed, and with a line feed between
/// each two they give the text from `from` on back.
pub proof fn lemma_lines_from(s: Seq<char>, from: int)
    requires
        0 <= from <= s.len(),
    ensures
        lines_from(s, from).len() >= 1,
        are_lines(lines_from(s, from)),
        join(lines_from(s, from), seq!['\n']) == s.skip(from),
    decreases s.len() - from,
{
    let sep = seq!['\n'];
    let lines = lines_from(s, from);
    let end = run_end(s, from, CharClass::Except('\n'));
    lemma_run_end(s, from, CharClass::Except('\n'));
    let first = s.subrange(from, end);
    assert forall|k: int| 0 <= k < first.len() implies #[trigger] first[k] != '\n' by {
        assert(CharClass::Except('\n').has(s[from + k]));
    }
    if end < s.len() {
        let rest = lines_from(s, end + 1);
        lemma_lines_from(s, end + 1);
        lemma_join_concat(seq![first], rest, sep);
        assert(lines == seq![first] + rest);
        assert(s.skip(from) == first + sep + s.skip(end + 1));
        assert forall|i: int| 0 <= i < lines.len() implies !(#[trigger] lines[i]).contains(
            '\n',
        ) by {
            if i > 0 {
                assert(lines[i] == rest[i - 1]);
            }
        }
    } else {
        assert(first == s.skip(from));
    }
}

/// The lines of a text are what stands between its line feeds.
pub proof fn lemma_lines_of(s: Seq<char>)
    ensures
        lines_of(s).len() >= 1,
        are_lines(lines_of(s)),
        join(lines_of(s), seq!['\n']) == s,
{
    lemma_lines_from(s, 0);
    assert(s.skip(0) == s);
}

proof fn lemma_well_formed_concat(a: Seq<TokenView>, b: Seq<TokenView>)
    requires
        all_well_formed(a),
        all_well_formed(b),
    ensures
        all_well_formed(a + b),
{
    assert forall|i: int| 0 <= i < (a + b).len() implies (#[trigger] (a + b)[i]).well_formed() by {
        if i >= a.len() {
            assert((a + b)[i] == b[i - a.len()]);
        }
    }
}

proof fn lemma_paragraph_well_formed(lines: Seq<Seq<char>>, from: int, to: int)
    requires
        are_lines(lines),
        0 <= from <= to <= lines.len(),
    ensures
        all_well_formed(paragraph_of(lines.subrange(from, to))),
{
    let part = lines.subrange(from, to);
    if part.len() > 0 {
        let sep = seq![' '];
        assert forall|i: int| 0 <= i < part.len() implies !(#[trigger] part[i]).contains(
            '\n',
        ) by {
            assert(part[i] == lines[from + i]);
        }
        assert(!sep.contains('\n'));
        lemma_join_without(part, sep, '\n');
        lemma_metadata_stands_in_text(join(part, sep));
    }
}

proof fn lemma_blocks_well_formed(lines: Seq<Seq<char>>, at: int)
    requires
        are_lines(lines),
        0 <= at <= lines.len(),
    ensures
        all_well_formed(blocks_from(lines, at)),
    decreases lines.len() - at, 1int,
{
    if at < lines.len() {
        if lines[at].len() == 0 {
            lemma_blocks_well_formed(lines, at + 1);
        } else {
            match heading_of(lines[at]) {
                Some((level, content)) => {
                    lemma_blocks_well_formed(lines, at + 1);
                    lemma_well_formed_concat(
                        seq![TokenView::Heading { level, content }],
                        blocks_from(lines, at + 1),
                    );
                },
                None => {
                    lemma_gathered_well_formed(lines, at, at);
                },
            }
        }
    }
}

proof fn lemma_gathered_well_formed(lines: Seq<Seq<char>>, start: int, at: int)
    requires
        are_lines(lines),
        0 <= start <= at <= lines.len(),
    ensures
        all_well_formed(gathered(lines, start, at)),
    decreases lines.len() - at, 0int,
{
    if at >= lines.len() {
        lemma_paragraph_well_formed(lines, start, at);
    } else if is_blank(lines[at]) {
        lemma_paragraph_well_formed(lines, start, at);
        lemma_blocks_well_formed(lines, at + 1);
        lemma_well_formed_concat(
            paragraph_of(lines.subrange(start, at)),
            blocks_from(lines, at + 1),
        );
    } else if is_dashes(lines[at]) {
        lemma_blocks_well_formed(lines, at + 1);
        if start >= at {
            lemma_well_formed_concat(seq![TokenView::HorizontalRule], blocks_from(lines, at + 1));
        } else {
            let above = seq![TokenView::Heading { level: 1, content: lines[at - 1] }];
            lemma_paragraph_well_formed(lines, start, at - 1);
            lemma_well_formed_concat(paragraph_of(lines.subrange(start, at - 1)), above);
            lemma_well_formed_concat(
                paragraph_of(lines.subrange(start, at - 1)) + above,
                blocks_from(lines, at + 1),
            );
        }
    } else {
        match fence_of(lines[at]) {
            Some(language) => {
                lemma_paragraph_well_formed(lines, start, at);
                lemma_fenced_well_formed(lines, language, at + 1, at + 1);
                lemma_well_formed_concat(
                    paragraph_of(lines.subrange(start, at)),
                    fenced(lines, language, at + 1, at + 1),
                );
            },
            None => {
                lemma_gathered_well_formed(lines, start, at + 1);
            },
        }
    }
}

proof fn lemma_fenced_well_formed(
    lines: Seq<Seq<char>>,
    language: Seq<char>,
    first: int,
    at: int,
)
    requires
        are_lines(lines),
        0 <= at <= lines.len(),
    ensures
        all_well_formed(fenced(lines, language, first, at)),
    decreases lines.len() - at, 0int,
{
    if at < lines.len() {
        if is_fence_end(lines[at]) {
            lemma_blocks_well_formed(lines, at + 1);
            lemma_well_formed_concat(
                seq![TokenView::Code { language, content: code_text(lines.subrange(first, at)) }],
                blocks_from(lines, at + 1),
            );
        } else {
            lemma_fenced_well_formed(lines, language, first, at + 1);
        }
    }
}

/// The empty text has no tokens.
pub proof fn lemma_empty_document()
    ensures
        document(Seq::empty()) == Seq::<TokenView>::empty(),
{
    let lines = lines_of(Seq::empty());
    assert(Seq::<char>::empty().subrange(0, 0) == Seq::<char>::empty());
    assert(lines == seq![Seq::<char>::empty()]);
    assert(blocks_from(lines, 1) == Seq::<TokenView>::empty());
}

/// Every token of a document is well formed: a heading has a level from
/// one to six, a paragraph has no line feed in its content, and what a
/// paragraph records lies within its content.
pub proof fn lemma_document_well_formed(s: Seq<char>)
    ensures
        all_well_formed(document(s)),
{
    lemma_lines_of(s);
    lemma_blocks_well_formed(lines_of(s), 0);
}

/// A copy of `v[from..to]`.
fn slice_of(v: &Vec<char>, from: usize, to: usize) -> (part: Vec<char>)
    requires
        from <= to <= v.len(),
    ensures
        part@ == v@.subrange(from as int, to as int),
{
    let mut part: Vec<char> = Vec::new();
    let mut i: usize = from;
    while i < to
        invariant
            from <= i <= to <= v.len(),
            part@ == v@.subrange(from as int, i as int),
        decreases to - i,
    {
        part.push(v[i]);
        i += 1;
    }
    part
}

/// The lines of `text`.
pub fn split_lines(text: &Vec<char>) -> (lines: Vec<Vec<char>>)
    ensures
        rows(lines@) == lines_of(text@),
{
    let n: usize = text.len();
    let mut lines: Vec<Vec<char>> = Vec::new();
    let mut from: usize = 0;
    loop
        invariant
            from <= n,
            n == text.len(),
            rows(lines@) + lines_from(text@, from as int) == lines_of(text@),
        decreases n - from,
    {
        let end: usize = skip_run(text, from, CharClass::Except('\n'));
        let line = slice_of(text, from, end);
        proof {
            assert(rows(lines@.push(line)) == rows(lines@).push(line@));
            if end < n {
                let rest = lines_from(text@, end + 1);
                assert(rows(lines@).push(line@) + rest == rows(lines@) + (seq![line@] + rest));
            } else {
                assert(rows(lines@).push(line@) == rows(lines@) + seq![line@]);
            }
        }
        lines.push(line);
        if end < n {
            from = end + 1;
        } else {
            return lines;
        }
    }
}

/// The string of the lines `from..to` with a space between each two.
fn join_lines(lines: &Vec<Vec<char>>, from: usize, to: usize) -> (text: String)
    requires
        from <= to <= lines.len(),
    ensures
        text@ == join(rows(lines@).subrange(from as int, to as int), seq![' ']),
{
    let mut text = String::new();
    let mut i: usize = from;
    let ghost all = rows(lines@);
    proof {
        assert(all.subrange(from as int, from as int).len() == 0);
    }
    while i < to
        invariant
            from <= i <= to <= lines.len(),
            all == rows(lines@),
            text@ == join(all.subrange(from as int, i as int), seq![' ']),
        decreases to - i,
    {
        let line = &lines[i];
        let ghost before = text@;
        if i > from {
            text.push(' ');
        }
        let ghost start = text@;
        let mut k: usize = 0;
        while k < line.len()
            invariant
                k <= line.len(),
                text@ == start + line@.take(k as int),
            decreases line.len() - k,
        {
            text.push(line[k]);
            k += 1;
        }
        proof {
            let part = all.subrange(from as int, i + 1);
            assert(line@.take(line.len() as int) == line@);
            assert(part.drop_last() == all.subrange(from as int, i as int));
            assert(part.last() == line@);
            if i > from {
                assert(start == before + seq![' ']);
            } else {
                assert(start == Seq::<char>::empty());
                assert(start + line@ == line@);
            }
        }
        i += 1;
    }
    text
}

/// The text of the block of code that the lines `from..to` make.
fn code_of(lines: &Vec<Vec<char>>, from: usize, to: usize) -> (text: String)
    requires
        from <= to <= lines.len(),
    ensures
        text@ == code_text(rows(lines@).subrange(from as int, to as int)),
{
    let mut text = String::new();
    let mut i: usize = from;
    let ghost all = rows(lines@);
    proof {
        assert(all.subrange(from as int, from as int).len() == 0);
    }
    while i < to
        invariant
            from <= i <= to <= lines.len(),
            all == rows(lines@),
            text@ == code_text(all.subrange(from as int, i as int)),
        decreases to - i,
    {
        let line = &lines[i];
        let ghost start = text@;
        let mut k: usize = 0;
        while k < line.len()
            invariant
                k <= line.len(),
                text@ == start + line@.take(k as int),
            decreases line.len() - k,
        {
            text.push(line[k]);
            k += 1;
        }
        text.push('\n');
        proof {
            let part = all.subrange(from as int, i + 1);
            assert(line@.take(line.len() as int) == line@);
            assert(part.drop_last() == all.subrange(from as int, i as int));
            assert(part.last() == line@);
            assert(text@ == start + line@ + seq!['\n']);
        }
        i += 1;
    }
    text
}

/// Closes a paragraph: where the lines `from..to` are any, their
/// paragraph is added to `tokens`.
fn flush(lines: &Vec<Vec<char>>, from: usize, to: usize, tokens: &mut Tokens)
    requires
        from <= to <= lines.len(),
    ensures
        token_views(final(tokens)@) == token_views(old(tokens)@) + paragraph_of(
            rows(lines@).subrange(from as int, to as int),
        ),
{
    if from < to {
        let content = join_lines(lines, from, to);
        let mut metadata = Metadata::links(&content);
        let mut images = Metadata::images(&content);
        proof {
            assert(metadata_views(metadata@ + images@) == metadata_views(metadata@)
                + metadata_views(images@));
        }
        metadata.append(&mut images);
        let token = Token::Paragraph(content, metadata);
        proof {
            assert(token_views(tokens@.push(token)) == token_views(tokens@) + seq![token@]);
        }
        tokens.push(token);
    } else {
        proof {
            assert(token_views(tokens@) + Seq::<TokenView>::empty() == token_views(tokens@));
        }
    }
}

/// Reads a block of code whose first line is `first` and adds it to
/// `tokens`. Returns the line at which to go on.
fn read_code(lines: &Vec<Vec<char>>, language: String, first: usize, tokens: &mut Tokens) -> (next:
    usize)
    requires
        first <= lines.len(),
    ensures
        first <= next <= lines.len(),
        token_views(final(tokens)@) + blocks_from(rows(lines@), next as int) == token_views(
            old(tokens)@,
        ) + fenced(rows(lines@), language@, first as int, first as int),
{
    let n: usize = lines.len();
    let mut at: usize = first;
    while at < n && !fence_end(&lines[at])
        invariant
            first <= at <= n,
            n == lines.len(),
            fenced(rows(lines@), language@, first as int, at as int) == fenced(
                rows(lines@),
                language@,
                first as int,
                first as int,
            ),
        decreases n - at,
    {
        at += 1;
    }
    let content = code_of(lines, first, at);
    let token = Token::Code { language, content };
    proof {
        let rest = blocks_from(rows(lines@), at + 1);
        assert(token_views(tokens@.push(token)) == token_views(tokens@) + seq![token@]);
        assert(token_views(tokens@) + seq![token@] + rest == token_views(tokens@) + (seq![token@]
            + rest));
        if at >= n {
            assert(rest == Seq::<TokenView>::empty());
            assert(seq![token@] + rest == seq![token@]);
        }
    }
    tokens.push(token);
    if at < n {
        at + 1
    } else {
        proof {
            assert(token_views(tokens@) + Seq::<TokenView>::empty() == token_views(tokens@));
        }
        at
    }
}

/// Reads the blocks that start with a paragraph at the line `start` and
/// adds them to `tokens`. Returns the line at which to go on.
fn gather(lines: &Vec<Vec<char>>, start: usize, tokens: &mut Tokens) -> (next: usize)
    requires
        start < lines.len(),
    ensures
        start < next <= lines.len(),
        token_views(final(tokens)@) + blocks_from(rows(lines@), next as int) == token_views(
            old(tokens)@,
        ) + gathered(rows(lines@), start as int, start as int),
{
    let n: usize = lines.len();
    let ghost all = rows(lines@);
    let ghost before = token_views(tokens@);
    let mut at: usize = start;
    loop
        invariant
            start <= at <= n,
            start < n,
            n == lines.len(),
            all == rows(lines@),
            before == token_views(tokens@),
            before == token_views(old(tokens)@),
            gathered(all, start as int, at as int) == gathered(all, start as int, start as int),
        decreases n - at,
    {
        if at >= n {
            flush(lines, start, at, tokens);
            proof {
                let added = paragraph_of(all.subrange(start as int, at as int));
                assert(before + added + Seq::<TokenView>::empty() == before + added);
            }
            return at;
        }
        let line = &lines[at];
        if blank(line) {
            flush(lines, start, at, tokens);
            proof {
                let added = paragraph_of(all.subrange(start as int, at as int));
                let rest = blocks_from(all, at + 1);
                assert(before + added + rest == before + (added + rest));
            }
            return at + 1;
        }
        if dashes(line) {
            if at == start {
                let token = Token::HorizontalRule();
                proof {
                    let rest = blocks_from(all, at + 1);
                    assert(token_views(tokens@.push(token)) == before + seq![token@]);
                    assert(before + seq![token@] + rest == before + (seq![token@] + rest));
                }
                tokens.push(token);
            } else {
                flush(lines, start, at - 1, tokens);
                let above = &lines[at - 1];
                let token = Token::Heading { level: 1, content: string_of(above, 0, above.len()) };
                proof {
                    let added = paragraph_of(all.subrange(start as int, at - 1));
                    let rest = blocks_from(all, at + 1);
                    assert(above@.subrange(0, above.len() as int) == above@);
                    assert(token_views(tokens@.push(token)) == before + added + seq![token@]);
                    assert(before + added + seq![token@] + rest == before + (added + seq![token@]
                        + rest));
                }
                tokens.push(token);
            }
            return at + 1;
        }
        match match_fence(line) {
            Some(tag_end) => {
                flush(lines, start, at, tokens);
                let language = string_of(line, 3, tag_end);
                let ghost added = paragraph_of(all.subrange(start as int, at as int));
                let ghost code = fenced(all, language@, at + 1, at + 1);
                let next = read_code(lines, language, at + 1, tokens);
                proof {
                    assert(before + added + code == before + (added + code));
                }
                return next;
            },
            None => {
                at += 1;
            },
        }
    }
}

/// Parses the text of a document into its tokens.
///
/// Every text has tokens: nothing is refused. The empty text has none.
pub fn parse(input: String) -> (tokens: Tokens)
    ensures
        token_views(tokens@) == document(input@),
        all_well_formed(token_views(tokens@)),
{
    let text = chars_of(input.as_str());
    let lines = split_lines(&text);
    let n: usize = lines.len();
    let ghost all = rows(lines@);
    let mut tokens: Tokens = Vec::new();
    let mut at: usize = 0;
    proof {
        assert(token_views(tokens@) + blocks_from(all, 0) == blocks_from(all, 0));
    }
    while at < n
        invariant
            at <= n,
            n == lines.len(),
            all == rows(lines@),
            all == lines_of(input@),
            token_views(tokens@) + blocks_from(all, at as int) == document(input@),
        decreases n - at,
    {
        let line = &lines[at];
        if line.len() == 0 {
            at += 1;
        } else {
            match match_heading(line) {
                Some((level, start)) => {
                    let content = string_of(line, start, line.len());
                    let token = Token::Heading { level, content };
                    proof {
                        let rest = blocks_from(all, at + 1);
                        assert(token_views(tokens@.push(token)) == token_views(tokens@) + seq![
                            token@,
                        ]);
                        assert(token_views(tokens@) + seq![token@] + rest == token_views(tokens@)
                            + (seq![token@] + rest));
                    }
                    tokens.push(token);
                    at += 1;
                },
                None => {
                    at = gather(&lines, at, &mut tokens);
                },
            }
        }
    }
    proof {
        assert(token_views(tokens@) + Seq::<TokenView>::empty() == token_views(tokens@));
        lemma_document_well_formed(input@);
    }
    tokens
}

} // verus!
