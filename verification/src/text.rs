//! The lines of a level file: where they end, what of them is tiles.

use vstd::prelude::*;
use vstd::string::*;
use crate::level::rows_of;

verus! {

/// The character that starts a comment, which runs to the end of its line.
pub const COMMENT_MARKER: char = ';';

/// Whether `c` is white space: whether it is one of the 25 characters
/// that Unicode classes as `White_Space`.
pub open spec fn is_whitespace(c: char) -> bool {
    let code = c as u32;
    ||| 0x0009 <= code <= 0x000D
    ||| code == 0x0020
    ||| code == 0x0085
    ||| code == 0x00A0
    ||| code == 0x1680
    ||| 0x2000 <= code <= 0x200A
    ||| code == 0x2028
    ||| code == 0x2029
    ||| code == 0x202F
    ||| code == 0x205F
    ||| code == 0x3000
}

/// Asks `char::is_whitespace` whether `c` is white space. That function
/// holds of the characters with the Unicode class `White_Space`, which are
/// the ones that `is_whitespace` lists.
#[verifier::external_body]
fn char_is_whitespace(c: char) -> (b: bool)
    ensures
        b == is_whitespace(c),
{
    c.is_whitespace()
}

/// The first position in `[from, to)` at which `text` holds `c`, or `to`
/// where there is none.
pub open spec fn first_of(text: Seq<char>, c: char, from: int, to: int) -> int
    decreases to - from,
{
    if from >= to {
        to
    } else if text[from] == c {
        from
    } else {
        first_of(text, c, from + 1, to)
    }
}

/// Where the line that starts at `from` ends: at the next line feed, or at
/// the end of the text.
pub open spec fn line_end(text: Seq<char>, from: int) -> int {
    first_of(text, '\n', from, text.len() as int)
}

/// Where the line `[from, to)` ends once its trailing white space is
/// taken off.
pub open spec fn content_end(text: Seq<char>, from: int, to: int) -> int
    decreases to - from,
{
    if to <= from || !is_whitespace(text[to - 1]) {
        to
    } else {
        content_end(text, from, to - 1)
    }
}

/// Where the tiles of the line `[from, to)` end: the line is cut where a
/// comment starts, and what is left loses its trailing white space.
pub open spec fn tiles_end(text: Seq<char>, from: int, to: int) -> int {
    content_end(text, from, first_of(text, COMMENT_MARKER, from, to))
}

/// The tiles of the line that starts at `from`.
pub open spec fn tiles_of_line(text: Seq<char>, from: int) -> Seq<char> {
    text.subrange(from, tiles_end(text, from, line_end(text, from)))
}

/// The tiles of every line from the one that starts at `from` on. A line
/// feed ends a line; what follows the last line feed is a line too.
pub open spec fn tile_lines_from(text: Seq<char>, from: int) -> Seq<Seq<char>>
    decreases text.len() - from,
{
    let end = line_end(text, from);
    if from <= end < text.len() {
        seq![tiles_of_line(text, from)] + tile_lines_from(text, end + 1)
    } else {
        seq![tiles_of_line(text, from)]
    }
}

/// The tiles of every line of `text`.
pub open spec fn tile_lines(text: Seq<char>) -> Seq<Seq<char>> {
    tile_lines_from(text, 0)
}

/// The characters of `s`, in order.
fn chars_of(s: &str) -> (v: Vec<char>)
    ensures
        v@ == s@,
{
    let mut v: Vec<char> = Vec::new();
    for c in it: s.chars()
        invariant
            it.seq() == s@,
            v@ == s@.take(it.index()),
    {
        v.push(c);
    }
    v
}

fn find_first(text: &Vec<char>, c: char, from: usize, to: usize) -> (at: usize)
    requires
        from <= to <= text.len(),
    ensures
        at == first_of(text@, c, from as int, to as int),
        from <= at <= to,
{
    let mut i = from;
    while i < to && text[i] != c
        invariant
            from <= i <= to <= text.len(),
            first_of(text@, c, from as int, to as int) == first_of(text@, c, i as int, to as int),
        decreases to - i,
    {
        i = i + 1;
    }
    i
}

fn find_content_end(text: &Vec<char>, from: usize, to: usize) -> (at: usize)
    requires
        from <= to <= text.len(),
    ensures
        at == content_end(text@, from as int, to as int),
        from <= at <= to,
{
    let mut i = to;
    while i > from && char_is_whitespace(text[i - 1])
        invariant
            from <= i <= to <= text.len(),
            content_end(text@, from as int, to as int) == content_end(text@, from as int, i as int),
        decreases i - from,
    {
        i = i - 1;
    }
    i
}

/// Splits `text` into lines and takes from each its tiles: the line up to
/// the comment marker, without the white space that then trails.
pub fn split_tile_lines(text: &str) -> (lines: Vec<&str>)
    ensures
        lines@.len() <= text@.len() + 1,
        forall|i: int| 0 <= i < lines@.len() ==> (#[trigger] lines@[i])@.len() <= text@.len(),
        rows_of(lines@) == tile_lines(text@),
{
    let chars = chars_of(text);
    let n = chars.len();
    let mut lines: Vec<&str> = Vec::new();
    let mut from: usize = 0;
    loop
        invariant_except_break
            lines@.len() <= from,
            tile_lines(text@) == rows_of(lines@) + tile_lines_from(text@, from as int),
        invariant
            chars@ == text@,
            n == chars.len(),
            from <= n,
            forall|i: int| 0 <= i < lines@.len() ==> (#[trigger] lines@[i])@.len() <= n,
        ensures
            lines@.len() <= n + 1,
            rows_of(lines@) == tile_lines(text@),
        decreases n - from,
    {
        let end = find_first(&chars, '\n', from, n);
        let comment = find_first(&chars, COMMENT_MARKER, from, end);
        let tiles = find_content_end(&chars, from, comment);
        let ghost before = lines@;
        lines.push(text.substring_char(from, tiles));
        proof {
            assert(rows_of(lines@) =~= rows_of(before).push(
                tiles_of_line(text@, from as int),
            ));
        }
        if end >= n {
            assert(tile_lines(text@) =~= rows_of(lines@));
            break ;
        }
        assert(tile_lines(text@) =~= rows_of(lines@) + tile_lines_from(
            text@,
            end + 1,
        ));
        from = end + 1;
    }
    lines
}

} // verus!
