//! Loading a collection of levels from one text.

use vstd::prelude::*;
use crate::level::{lines_fit, parse_level, rows_of, Level, LevelView};
use crate::text::{split_tile_lines, tile_lines};

verus! {

/// The maximal runs of non-empty lines, in order. An empty line ends a
/// run; several empty lines in a row end it once.
pub open spec fn groups(lines: Seq<Seq<char>>) -> Seq<Seq<Seq<char>>>
    decreases lines.len(),
{
    if lines.len() == 0 {
        Seq::empty()
    } else {
        let before = groups(lines.drop_last());
        let line = lines.last();
        if line.len() == 0 {
            before
        } else if lines.len() >= 2 && lines[lines.len() - 2].len() > 0 {
            before.drop_last().push(before.last().push(line))
        } else {
            before.push(seq![line])
        }
    }
}

/// The levels that the groups of rows describe, in order, or the error of
/// the first group that describes none.
pub open spec fn parse_all(groups: Seq<Seq<Seq<char>>>) -> Result<Seq<LevelView>, Seq<char>>
    decreases groups.len(),
{
    if groups.len() == 0 {
        Ok(Seq::empty())
    } else {
        match parse_all(groups.drop_last()) {
            Err(e) => Err(e),
            Ok(levels) => match parse_level(groups.last()) {
                Err(e) => Err(e),
                Ok(level) => Ok(levels.push(level)),
            },
        }
    }
}

/// What loading `text` gives: its lines are stripped of comments and of
/// the white space that then trails, runs of lines of which something is
/// left are read as one level each, and the first level that cannot be
/// read fails the whole load.
pub open spec fn load_result(text: Seq<char>) -> Result<Seq<LevelView>, Seq<char>> {
    parse_all(groups(tile_lines(text)))
}

/// The models of a sequence of levels.
pub open spec fn level_views(levels: Seq<Level>) -> Seq<LevelView> {
    Seq::new(levels.len(), |i: int| levels[i]@)
}

/// The groups that no further line can extend: all of them, but for the
/// last where the last line is not empty.
spec fn closed_groups(lines: Seq<Seq<char>>) -> Seq<Seq<Seq<char>>> {
    if lines.len() > 0 && lines.last().len() > 0 {
        groups(lines).drop_last()
    } else {
        groups(lines)
    }
}

/// The group that a further line would extend; empty where the last line
/// is empty.
spec fn open_group(lines: Seq<Seq<char>>) -> Seq<Seq<char>> {
    if lines.len() > 0 && lines.last().len() > 0 {
        groups(lines).last()
    } else {
        Seq::empty()
    }
}

/// How the closed groups and the open group change with one more line.
proof fn lemma_groups_step(lines: Seq<Seq<char>>)
    requires
        lines.len() > 0,
    ensures
        lines.last().len() > 0 ==> {
            &&& groups(lines).len() > 0
            &&& closed_groups(lines) == closed_groups(lines.drop_last())
            &&& open_group(lines) == open_group(lines.drop_last()).push(lines.last())
        },
        lines.last().len() == 0 ==> {
            &&& groups(lines) == groups(lines.drop_last())
            &&& open_group(lines.drop_last()).len() > 0 ==> closed_groups(lines) == closed_groups(
                lines.drop_last(),
            ).push(open_group(lines.drop_last()))
            &&& open_group(lines.drop_last()).len() == 0 ==> closed_groups(lines) == closed_groups(
                lines.drop_last(),
            )
        },
        open_group(lines).len() > 0 <==> lines.last().len() > 0,
    decreases lines.len(),
{
    let before = lines.drop_last();
    if before.len() > 0 {
        lemma_groups_step(before);
        assert(before.last() == lines[lines.len() - 2]);
    }
    if lines.last().len() > 0 {
        if before.len() > 0 && before.last().len() > 0 {
            let g = groups(before);
            assert(groups(lines) == g.drop_last().push(g.last().push(lines.last())));
            assert(groups(lines).drop_last() =~= g.drop_last());
        } else {
            assert(groups(lines) == groups(before).push(seq![lines.last()]));
            assert(groups(lines).drop_last() =~= groups(before));
            assert(Seq::<Seq<char>>::empty().push(lines.last()) =~= seq![lines.last()]);
        }
    } else {
        if before.len() > 0 && before.last().len() > 0 {
            let g = groups(before);
            assert(g =~= g.drop_last().push(g.last()));
        }
    }
}

/// The groups closed after `i` lines stay the first groups of the text.
proof fn lemma_closed_is_prefix(lines: Seq<Seq<char>>, i: int, j: int)
    requires
        0 <= i <= j <= lines.len(),
    ensures
        closed_groups(lines.take(i)).is_prefix_of(closed_groups(lines.take(j))),
        closed_groups(lines.take(i)).is_prefix_of(groups(lines.take(j))),
    decreases j - i,
{
    if i < j {
        lemma_closed_is_prefix(lines, i, j - 1);
        let longer = lines.take(j);
        assert(longer.drop_last() =~= lines.take(j - 1));
        lemma_groups_step(longer);
    }
    let l = lines.take(j);
    if l.len() > 0 && l.last().len() > 0 {
        lemma_groups_step(l);
    }
}

/// Where the first groups describe no level, neither do all.
proof fn lemma_parse_all_fails(
    first: Seq<Seq<Seq<char>>>,
    all: Seq<Seq<Seq<char>>>,
    e: Seq<char>,
)
    requires
        first.is_prefix_of(all),
        parse_all(first) == Err::<Seq<LevelView>, Seq<char>>(e),
    ensures
        parse_all(all) == Err::<Seq<LevelView>, Seq<char>>(e),
    decreases all.len(),
{
    if first.len() < all.len() {
        assert(first.is_prefix_of(all.drop_last()));
        lemma_parse_all_fails(first, all.drop_last(), e);
    } else {
        assert(first =~= all);
    }
}

/// Loads the levels that `lines` hold, each line being the tiles of one
/// line of a level file.
///
/// Consecutive non-empty lines are one level; empty lines separate
/// levels. The levels come in the order of the lines. The first level
/// that cannot be read fails the load with its error.
pub fn load_lines(lines: Vec<&str>) -> (r: Result<Vec<Level>, String>)
    requires
        lines_fit(lines@),
    ensures
        match parse_all(groups(rows_of(lines@))) {
            Ok(views) => {
                &&& r is Ok
                &&& level_views(r->Ok_0@) == views
                &&& forall|i: int| 0 <= i < r->Ok_0@.len() ==> (#[trigger] r->Ok_0@[i]).wf()
            },
            Err(e) => r is Err && r->Err_0@ == e,
        },
{
    let ghost rows = rows_of(lines@);
    let mut parsed_levels: Vec<Level> = Vec::new();
    let mut map_lines: Vec<&str> = Vec::new();
    let mut i: usize = 0;
    proof {
        assert(rows.take(0) =~= Seq::<Seq<char>>::empty());
        assert(level_views(parsed_levels@) =~= Seq::<LevelView>::empty());
        assert(closed_groups(rows.take(0)) =~= Seq::<Seq<Seq<char>>>::empty());
    }
    while i < lines.len()
        invariant
            i <= lines.len() <= i32::MAX,
            rows == rows_of(lines@),
            forall|k: int| 0 <= k < lines@.len() ==> (#[trigger] lines@[k])@.len() <= i32::MAX,
            parse_all(closed_groups(rows.take(i as int))) == Ok::<Seq<LevelView>, Seq<char>>(
                level_views(parsed_levels@),
            ),
            rows_of(map_lines@) == open_group(rows.take(i as int)),
            map_lines.len() <= i,
            forall|k: int| 0 <= k < map_lines@.len() ==> (#[trigger] map_lines@[k])@.len() <= i32::MAX,
            forall|k: int| 0 <= k < parsed_levels@.len() ==> (#[trigger] parsed_levels@[k]).wf(),
        decreases lines.len() - i,
    {
        let line: &str = lines[i];
        let ghost here = rows.take(i + 1);
        let ghost group = rows_of(map_lines@);
        let ghost done = parsed_levels@;
        proof {
            assert(here.drop_last() =~= rows.take(i as int));
            assert(here.last() == line@);
            lemma_groups_step(here);
        }
        if !line.is_empty() {
            map_lines.push(line);
            assert(rows_of(map_lines@) =~= group.push(line@));
        } else if !map_lines.is_empty() {
            assert(group.len() > 0);
            match Level::from_lines(map_lines) {
                Err(e) => {
                    proof {
                        lemma_closed_is_prefix(rows, i + 1, rows.len() as int);
                        assert(rows.take(rows.len() as int) =~= rows);
                        assert(closed_groups(here).drop_last() =~= closed_groups(
                            rows.take(i as int),
                        ));
                        lemma_parse_all_fails(closed_groups(here), groups(rows), e@);
                    }
                    return Err(e);
                },
                Ok(level) => {
                    parsed_levels.push(level);
                    proof {
                        assert(closed_groups(here).drop_last() =~= closed_groups(
                            rows.take(i as int),
                        ));
                        assert(level_views(parsed_levels@) =~= level_views(done).push(level@));
                    }
                },
            }
            map_lines = Vec::new();
            assert(rows_of(map_lines@) =~= Seq::<Seq<char>>::empty());
        }
        i = i + 1;
    }
    let ghost done = parsed_levels@;
    proof {
        assert(rows.take(i as int) =~= rows);
        if rows.len() > 0 {
            lemma_groups_step(rows);
        }
    }
    if !map_lines.is_empty() {
        assert(rows_of(map_lines@).len() > 0);
        assert(groups(rows).drop_last() == closed_groups(rows));
        match Level::from_lines(map_lines) {
            Err(e) => {
                return Err(e);
            },
            Ok(level) => {
                parsed_levels.push(level);
                assert(level_views(parsed_levels@) =~= level_views(done).push(level@));
            },
        }
    }
    Ok(parsed_levels)
}

/// Loads every level of `levels`.
///
/// A line ends at a line feed. Of each line, a comment is dropped, which
/// starts at `;`, and then the white space that trails. What is left of
/// consecutive non-empty lines is one level; lines of which nothing is
/// left separate levels. The levels come in the order of the text. The
/// first level that cannot be read fails the load with its error.
pub fn load_levels(levels: &str) -> (r: Result<Vec<Level>, String>)
    requires
        levels@.len() < i32::MAX,
    ensures
        match load_result(levels@) {
            Ok(views) => {
                &&& r is Ok
                &&& level_views(r->Ok_0@) == views
                &&& forall|i: int| 0 <= i < r->Ok_0@.len() ==> (#[trigger] r->Ok_0@[i]).wf()
            },
            Err(e) => r is Err && r->Err_0@ == e,
        },
{
    load_lines(split_tile_lines(levels))
}

/// The number of the level after level `current` of `count`; after the
/// last comes the first.
pub fn next_level_number(current: usize, count: usize) -> (next: usize)
    requires
        current < count,
    ensures
        current + 1 < count ==> next == current + 1,
        current + 1 == count ==> next == 0,
{
    if current + 1 == count {
        0
    } else {
        current + 1
    }
}

/// The number of the level before level `current` of `count`; before the
/// first comes the last.
pub fn previous_level_number(current: usize, count: usize) -> (previous: usize)
    requires
        current < count,
    ensures
        current > 0 ==> previous == current - 1,
        current == 0 ==> previous == count - 1,
{
    if current == 0 {
        count - 1
    } else {
        current - 1
    }
}

} // verus!
