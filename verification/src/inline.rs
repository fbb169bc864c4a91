//! Finding links and images in the text of a paragraph.
//!
//! A link is `[label](url)`: the label is not empty and holds no `]`, the
//! url is not empty and holds no `)`. An image is a link with `!` before
//! it. The text is searched from left to right; after a construct the
//! search goes on behind its closing parenthesis, so that no two
//! constructs of one kind overlap.

use crate::text::{
    byte_len, byte_offsets, chars_of, lemma_byte_len_monotonic, lemma_byte_len_take,
    lemma_encode_subrange, lemma_run_end, lemma_utf8_width, run_end, run_table, string_of,
    CharClass,
};
use crate::token::{metadata_views, Metadata, MetadataView};
use vstd::prelude::*;
use vstd::utf8::encode_utf8;

verus! {

/// The link whose `[` stands at `at`, as the positions of its `]` and of
/// its closing parenthesis.
pub open spec fn link_at(text: Seq<char>, at: int) -> Option<(int, int)> {
    let close = run_end(text, at + 1, CharClass::Except(']'));
    let end = run_end(text, close + 2, CharClass::Except(')'));
    if 0 <= at < text.len() && text[at] == '[' && at + 1 < close && close + 1 < text.len()
        && text[close + 1] == '(' && close + 2 < end && end < text.len() {
        Some((close, end))
    } else {
        None
    }
}

/// The construct that starts at `at`, a link or an image as `image` says,
/// as the positions of its `[`, of its `]` and of its closing parenthesis.
pub open spec fn construct_at(text: Seq<char>, at: int, image: bool) -> Option<(int, int, int)> {
    let open = if image {
        at + 1
    } else {
        at
    };
    match link_at(text, open) {
        Some((close, end)) => if 0 <= at < text.len() && (image ==> text[at] == '!') {
            Some((open, close, end))
        } else {
            None
        },
        None => None,
    }
}

/// What is recorded of the construct that starts at `start`.
pub open spec fn entry(
    text: Seq<char>,
    start: int,
    open: int,
    close: int,
    end: int,
    image: bool,
) -> MetadataView {
    let location = (byte_len(text.take(start)), byte_len(text.take(end + 1)));
    let label = text.subrange(open + 1, close);
    let url = text.subrange(close + 2, end);
    if image {
        MetadataView::Image { location, label, url }
    } else {
        MetadataView::Link { location, label, url }
    }
}

/// The constructs of one kind in `text` at or after `from`: the leftmost
/// one, then those behind it.
pub open spec fn found_from(text: Seq<char>, from: int, image: bool) -> Seq<MetadataView>
    decreases text.len() - from,
{
    if from < 0 || from >= text.len() {
        Seq::empty()
    } else {
        match construct_at(text, from, image) {
            Some((open, close, end)) => seq![entry(text, from, open, close, end, image)]
                + found_from(text, end + 1, image),
            None => found_from(text, from + 1, image),
        }
    }
}

/// The links of `text`.
pub open spec fn links_in(text: Seq<char>) -> Seq<MetadataView> {
    found_from(text, 0, false)
}

/// The images of `text`.
pub open spec fn images_in(text: Seq<char>) -> Seq<MetadataView> {
    found_from(text, 0, true)
}

/// What a paragraph with the content `text` records: its links, then its
/// images.
pub open spec fn metadata_of(text: Seq<char>) -> Seq<MetadataView> {
    links_in(text) + images_in(text)
}

/// Where an image stands, a link stands one character further on, with
/// the same label and the same url.
pub proof fn lemma_image_holds_a_link(text: Seq<char>, at: int)
    requires
        construct_at(text, at, true) is Some,
    ensures
        ({
            let (open, close, end) = construct_at(text, at, true)->0;
            let image = entry(text, at, open, close, end, true);
            let link = entry(text, at + 1, open, close, end, false);
            &&& construct_at(text, at + 1, false) == Some((open, close, end))
            &&& link.label() == image.label()
            &&& link.url() == image.url()
            &&& link.location().0 == image.location().0 + 1
            &&& link.location().1 == image.location().1
        }),
{
    lemma_byte_len_take(text, at);
    lemma_utf8_width('!');
}

/// The text of the construct that an entry records.
pub open spec fn source_of(item: MetadataView) -> Seq<char> {
    match item {
        MetadataView::Link { label, url, .. } => "["@ + label + "]("@ + url + ")"@,
        MetadataView::Image { label, url, .. } => "!["@ + label + "]("@ + url + ")"@,
    }
}

/// An entry stands in `text` when its location is a range of the bytes of
/// `text` that is not empty, the bytes in that range are those of the
/// construct that it records, the label is not empty and holds no `]`,
/// and the url is not empty and holds no `)`.
pub open spec fn stands_in(item: MetadataView, text: Seq<char>) -> bool {
    &&& item.well_formed(text)
    &&& encode_utf8(text).subrange(item.location().0 as int, item.location().1 as int)
        == encode_utf8(source_of(item))
    &&& item.label().len() > 0
    &&& !item.label().contains(']')
    &&& item.url().len() > 0
    &&& !item.url().contains(')')
}

/// The construct that starts at `at` is recorded as it stands in the text.
proof fn lemma_entry_stands_in(text: Seq<char>, at: int, image: bool)
    requires
        construct_at(text, at, image) is Some,
    ensures
        ({
            let (open, close, end) = construct_at(text, at, image)->0;
            let item = entry(text, at, open, close, end, image);
            &&& 0 <= at < end < text.len()
            &&& stands_in(item, text)
            &&& item is Image <==> image
        }),
{
    let (open, close, end) = construct_at(text, at, image)->0;
    let item = entry(text, at, open, close, end, image);
    lemma_run_end(text, open + 1, CharClass::Except(']'));
    lemma_run_end(text, close + 2, CharClass::Except(')'));
    reveal_strlit("[");
    reveal_strlit("![");
    reveal_strlit("](");
    reveal_strlit(")");
    assert(text.subrange(at, end + 1) == source_of(item));
    lemma_encode_subrange(text, at, end + 1);
    lemma_byte_len_monotonic(text, at, end + 1);
    let label = item.label();
    let url = item.url();
    assert forall|k: int| 0 <= k < label.len() implies #[trigger] label[k] != ']' by {
        assert(CharClass::Except(']').has(text[open + 1 + k]));
    }
    assert forall|k: int| 0 <= k < url.len() implies #[trigger] url[k] != ')' by {
        assert(CharClass::Except(')').has(text[close + 2 + k]));
    }
}

/// What holds of the constructs found at or after `from`: each stands in
/// the text, at or after `from`, and is of the kind that was looked for;
/// they come from left to right, and none reaches into the next.
pub proof fn lemma_found_stand_in_text(text: Seq<char>, from: int, image: bool)
    requires
        0 <= from <= text.len(),
    ensures
        ({
            let found = found_from(text, from, image);
            &&& forall|i: int|
                0 <= i < found.len() ==> {
                    &&& stands_in(#[trigger] found[i], text)
                    &&& found[i] is Image <==> image
                    &&& found[i].location().0 >= byte_len(text.take(from))
                }
            &&& forall|i: int, j: int|
                0 <= i < j < found.len() ==> (#[trigger] found[i]).location().1 <= (
                #[trigger] found[j]).location().0
        }),
    decreases text.len() - from,
{
    let found = found_from(text, from, image);
    if from < text.len() {
        match construct_at(text, from, image) {
            Some((open, close, end)) => {
                let first = entry(text, from, open, close, end, image);
                let rest = found_from(text, end + 1, image);
                lemma_entry_stands_in(text, from, image);
                lemma_found_stand_in_text(text, end + 1, image);
                lemma_byte_len_monotonic(text, from, end + 1);
                assert(found == seq![first] + rest);
                assert forall|i: int| 0 <= i < found.len() implies {
                    &&& stands_in(#[trigger] found[i], text)
                    &&& found[i] is Image <==> image
                    &&& found[i].location().0 >= byte_len(text.take(from))
                } by {
                    if i > 0 {
                        assert(found[i] == rest[i - 1]);
                    }
                }
                assert forall|i: int, j: int| 0 <= i < j < found.len() implies (
                #[trigger] found[i]).location().1 <= (#[trigger] found[j]).location().0 by {
                    assert(found[j] == rest[j - 1]);
                    if i > 0 {
                        assert(found[i] == rest[i - 1]);
                    }
                }
            },
            None => {
                lemma_found_stand_in_text(text, from + 1, image);
                lemma_byte_len_monotonic(text, from, from + 1);
            },
        }
    }
}

/// What a paragraph records stands in its content: every entry lies
/// within the content and holds the construct that it names. The links
/// come first, then the images, each kind from left to right.
pub proof fn lemma_metadata_stands_in_text(text: Seq<char>)
    ensures
        metadata_of(text).len() == links_in(text).len() + images_in(text).len(),
        forall|i: int|
            0 <= i < metadata_of(text).len() ==> {
                &&& stands_in(#[trigger] metadata_of(text)[i], text)
                &&& metadata_of(text)[i] is Link <==> i < links_in(text).len()
            },
{
    lemma_found_stand_in_text(text, 0, false);
    lemma_found_stand_in_text(text, 0, true);
}

/// The construct that starts at `at`, read from the tables of the text.
fn construct(
    text: &Vec<char>,
    closes: &Vec<usize>,
    ends: &Vec<usize>,
    at: usize,
    image: bool,
) -> (found: Option<(usize, usize, usize)>)
    requires
        at < text.len(),
        closes.len() == text.len(),
        ends.len() == text.len(),
        forall|i: int|
            0 <= i < text.len() ==> #[trigger] closes[i] == run_end(
                text@,
                i,
                CharClass::Except(']'),
            ),
        forall|i: int|
            0 <= i < text.len() ==> #[trigger] ends[i] == run_end(text@, i, CharClass::Except(')')),
    ensures
        match found {
            Some((open, close, end)) => {
                &&& construct_at(text@, at as int, image) == Some(
                    (open as int, close as int, end as int),
                )
                &&& at <= open < close < end < text.len()
                &&& close + 2 <= end
            },
            None => construct_at(text@, at as int, image) is None,
        },
{
    let n: usize = text.len();
    let open: usize = if image {
        if text[at] != '!' || at + 1 >= n {
            return None;
        }
        at + 1
    } else {
        at
    };
    if text[open] != '[' || open + 1 >= n {
        return None;
    }
    let close: usize = closes[open + 1];
    proof {
        lemma_run_end(text@, open + 1, CharClass::Except(']'));
    }
    if close <= open + 1 || close >= n - 1 {
        return None;
    }
    if text[close + 1] != '(' || close + 2 >= n {
        return None;
    }
    let end: usize = ends[close + 2];
    proof {
        lemma_run_end(text@, close + 2, CharClass::Except(')'));
    }
    if end <= close + 2 || end >= n {
        return None;
    }
    Some((open, close, end))
}

/// The constructs of one kind in `text`.
fn scan(text: &Vec<char>, image: bool) -> (found: Vec<Metadata>)
    requires
        byte_len(text@) <= usize::MAX,
    ensures
        metadata_views(found@) == found_from(text@, 0, image),
{
    let n: usize = text.len();
    let closes = run_table(text, CharClass::Except(']'));
    let ends = run_table(text, CharClass::Except(')'));
    let offsets = byte_offsets(text);
    let mut found: Vec<Metadata> = Vec::new();
    let mut at: usize = 0;
    while at < n
        invariant
            at <= n,
            n == text.len(),
            byte_len(text@) <= usize::MAX,
            closes.len() == n,
            ends.len() == n,
            offsets.len() == n,
            forall|i: int|
                0 <= i < n ==> #[trigger] closes[i] == run_end(text@, i, CharClass::Except(']')),
            forall|i: int|
                0 <= i < n ==> #[trigger] ends[i] == run_end(text@, i, CharClass::Except(')')),
            forall|i: int| 0 <= i < n ==> #[trigger] offsets[i] == byte_len(text@.take(i)),
            metadata_views(found@) + found_from(text@, at as int, image) == found_from(
                text@,
                0,
                image,
            ),
        decreases n - at,
    {
        match construct(text, &closes, &ends, at, image) {
            Some((open, close, end)) => {
                proof {
                    lemma_run_end(text@, close + 2, CharClass::Except(')'));
                    assert(text@[end as int] == ')');
                    lemma_utf8_width(')');
                    lemma_byte_len_take(text@, end as int);
                }
                let label = string_of(text, open + 1, close);
                let url = string_of(text, close + 2, end);
                let location = (offsets[at], offsets[end] + 1);
                let item = if image {
                    Metadata::Image { location, label, url }
                } else {
                    Metadata::Link { location, label, url }
                };
                proof {
                    let rest = found_from(text@, end + 1, image);
                    assert(item@ == entry(
                        text@,
                        at as int,
                        open as int,
                        close as int,
                        end as int,
                        image,
                    ));
                    assert(metadata_views(found@.push(item)) == metadata_views(found@).push(
                        item@,
                    ));
                    assert(metadata_views(found@).push(item@) + rest == metadata_views(found@) + (
                    seq![item@] + rest));
                }
                found.push(item);
                at = end + 1;
            },
            None => {
                at += 1;
            },
        }
    }
    proof {
        assert(metadata_views(found@) + Seq::<MetadataView>::empty() == metadata_views(found@));
    }
    found
}

/// The characters of `paragraph`. A `usize` can count their bytes, as it
/// counts those of every string.
fn text_of(paragraph: &String) -> (text: Vec<char>)
    ensures
        text@ == paragraph@,
        byte_len(text@) <= usize::MAX,
{
    let _: usize = paragraph.as_str().as_bytes().len();
    chars_of(paragraph.as_str())
}

impl Metadata {
    /// The links of `paragraph`, from left to right.
    pub fn links(paragraph: &String) -> (found: Vec<Metadata>)
        ensures
            metadata_views(found@) == links_in(paragraph@),
    {
        scan(&text_of(paragraph), false)
    }

    /// The images of `paragraph`, from left to right.
    pub fn images(paragraph: &String) -> (found: Vec<Metadata>)
        ensures
            metadata_views(found@) == images_in(paragraph@),
    {
        scan(&text_of(paragraph), true)
    }
}

} // verus!
