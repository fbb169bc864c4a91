//! Telling the kinds of line apart.
//!
//! A line is a sequence of characters without a line feed. Each kind of
//! line has a spec function that says what it is, and a function that
//! decides it.

use crate::text::{is_space, lemma_run_end, run_end, skip_run, CharClass};
use vstd::prelude::*;

verus! {

/// A blank line holds nothing but white space. The empty line is blank.
pub open spec fn is_blank(line: Seq<char>) -> bool {
    forall|i: int| 0 <= i < line.len() ==> is_space(#[trigger] line[i])
}

/// Tells whether `line` is blank.
pub fn blank(line: &Vec<char>) -> (b: bool)
    ensures
        b == is_blank(line@),
{
    proof {
        lemma_run_end(line@, 0, CharClass::Space);
    }
    skip_run(line, 0, CharClass::Space) == line.len()
}

/// A dash line is made of three or more dashes and nothing else.
pub open spec fn is_dashes(line: Seq<char>) -> bool {
    line.len() >= 3 && forall|i: int| 0 <= i < line.len() ==> #[trigger] line[i] == '-'
}

/// Tells whether `line` is a dash line.
pub fn dashes(line: &Vec<char>) -> (b: bool)
    ensures
        b == is_dashes(line@),
{
    proof {
        lemma_run_end(line@, 0, CharClass::Only('-'));
    }
    line.len() >= 3 && skip_run(line, 0, CharClass::Only('-')) == line.len()
}

/// The heading that `line` is, as its level and its content.
///
/// A heading line starts with one to six `#`, then has white space, then
/// at least one more character. The level is the number of `#`. The
/// content starts after the white space and runs to the end of the line;
/// where nothing but white space follows the `#`, the content is the last
/// character of the line.
pub open spec fn heading_of(line: Seq<char>) -> Option<(nat, Seq<char>)> {
    let hashes = run_end(line, 0, CharClass::Only('#'));
    let gap = run_end(line, hashes, CharClass::Space);
    if 1 <= hashes <= 6 && hashes < gap {
        if gap < line.len() {
            Some((hashes as nat, line.skip(gap)))
        } else if hashes + 2 <= gap {
            Some((hashes as nat, line.skip(gap - 1)))
        } else {
            None
        }
    } else {
        None
    }
}

/// What a heading line looks like: one to six `#`, then white space, then
/// the content, which is not empty and starts with a character that is no
/// white space unless it is the last of the line. A line that starts with
/// more than six `#` is no heading.
pub proof fn lemma_heading_shape(line: Seq<char>)
    ensures
        match heading_of(line) {
            Some((level, content)) => {
                let gap_end = line.len() - content.len();
                &&& 1 <= level <= 6
                &&& level < gap_end < line.len()
                &&& forall|i: int| 0 <= i < level ==> #[trigger] line[i] == '#'
                &&& forall|i: int| level <= i < gap_end ==> is_space(#[trigger] line[i])
                &&& content == line.skip(gap_end)
                &&& !is_space(content[0]) || content.len() == 1
            },
            None => true,
        },
        line.len() > 6 && (forall|i: int| 0 <= i <= 6 ==> #[trigger] line[i] == '#')
            ==> heading_of(line) is None,
{
    let hashes = run_end(line, 0, CharClass::Only('#'));
    lemma_run_end(line, 0, CharClass::Only('#'));
    lemma_run_end(line, hashes, CharClass::Space);
    if line.len() > 6 && (forall|i: int| 0 <= i <= 6 ==> #[trigger] line[i] == '#') {
        if hashes <= 6 {
            assert(line[hashes] == '#');
        }
    }
}

/// The level of the heading that `line` is, and where its content starts.
pub fn match_heading(line: &Vec<char>) -> (found: Option<(u8, usize)>)
    ensures
        match found {
            Some((level, start)) => start < line.len() && 1 <= level <= 6 && heading_of(line@)
                == Some((level as nat, line@.skip(start as int))),
            None => heading_of(line@) is None,
        },
{
    let hashes: usize = skip_run(line, 0, CharClass::Only('#'));
    if hashes < 1 || hashes > 6 {
        return None;
    }
    let gap: usize = skip_run(line, hashes, CharClass::Space);
    if gap <= hashes {
        return None;
    }
    let level: u8 = hashes as u8;
    if gap < line.len() {
        Some((level, gap))
    } else if hashes + 2 <= gap {
        Some((level, gap - 1))
    } else {
        None
    }
}

/// The language tag of the fence that `line` opens.
///
/// An opening fence is three backticks at the start of the line, then a
/// language tag, which may be empty, then nothing but white space.
pub open spec fn fence_of(line: Seq<char>) -> Option<Seq<char>> {
    let tag_end = run_end(line, 3, CharClass::Tag);
    if line.len() >= 3 && line[0] == '`' && line[1] == '`' && line[2] == '`' && run_end(
        line,
        tag_end,
        CharClass::Space,
    ) == line.len() {
        Some(line.subrange(3, tag_end))
    } else {
        None
    }
}

/// Where the language tag of the fence that `line` opens ends. The tag
/// starts at the fourth character.
pub fn match_fence(line: &Vec<char>) -> (found: Option<usize>)
    ensures
        match found {
            Some(tag_end) => 3 <= tag_end <= line.len() && fence_of(line@) == Some(
                line@.subrange(3, tag_end as int),
            ),
            None => fence_of(line@) is None,
        },
{
    if line.len() < 3 || line[0] != '`' || line[1] != '`' || line[2] != '`' {
        return None;
    }
    let tag_end: usize = skip_run(line, 3, CharClass::Tag);
    if skip_run(line, tag_end, CharClass::Space) == line.len() {
        Some(tag_end)
    } else {
        None
    }
}

/// A closing fence is three backticks with nothing but white space before
/// and after them.
pub open spec fn is_fence_end(line: Seq<char>) -> bool {
    let start = run_end(line, 0, CharClass::Space);
    &&& start + 3 <= line.len()
    &&& line[start] == '`'
    &&& line[start + 1] == '`'
    &&& line[start + 2] == '`'
    &&& run_end(line, start + 3, CharClass::Space) == line.len()
}

/// Tells whether `line` closes a fence.
pub fn fence_end(line: &Vec<char>) -> (b: bool)
    ensures
        b == is_fence_end(line@),
{
    let start: usize = skip_run(line, 0, CharClass::Space);
    if line.len() - start < 3 {
        return false;
    }
    line[start] == '`' && line[start + 1] == '`' && line[start + 2] == '`' && skip_run(
        line,
        start + 3,
        CharClass::Space,
    ) == line.len()
}

} // verus!
