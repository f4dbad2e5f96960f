//! Levels: the static map, the initial entities, and the reader that
//! builds both from rows of level text.

use vstd::prelude::*;
use vstd::string::*;
use crate::grid::{Cell, Direction, Position};
use crate::state::{goal_cells, star_cells, GameState, Goal, Player, Star, StateView};
use crate::tile::{invalid_tile_text, tile_of_char, Tile};
use crate::topology::{
    connected, filled, floodfill, grid_of, in_grid, lemma_connected_start, rectangular, tile_at,
};

verus! {

/// What a character of level text can mark besides the static map.
pub ghost enum Marker {
    Player,
    Star,
    Goal,
}

/// Whether character `c` carries the marker `m`.
pub open spec fn carries(c: char, m: Marker) -> bool {
    match tile_of_char(c) {
        Some(t) => match m {
            Marker::Player => t.marks_player(),
            Marker::Star => t.marks_star(),
            Marker::Goal => t.marks_goal(),
        },
        None => false,
    }
}

/// The cells among the first `n` columns of row `y` whose character
/// carries `m`, from left to right.
pub open spec fn marked_in_row(row: Seq<char>, y: int, n: int, m: Marker) -> Seq<Cell>
    decreases n,
{
    if n <= 0 {
        Seq::empty()
    } else {
        let before = marked_in_row(row, y, n - 1, m);
        if carries(row[n - 1], m) {
            before.push(Cell { x: n - 1, y })
        } else {
            before
        }
    }
}

/// The cells of the first `n` rows whose character carries `m`, in reading
/// order: row by row from the top, each row from left to right.
pub open spec fn marked_in_rows(rows: Seq<Seq<char>>, n: int, m: Marker) -> Seq<Cell>
    decreases n,
{
    if n <= 0 {
        Seq::empty()
    } else {
        marked_in_rows(rows, n - 1, m) + marked_in_row(rows[n - 1], n - 1, rows[n - 1].len() as int, m)
    }
}

/// All cells of the text whose character carries `m`, in reading order.
pub open spec fn marked_cells(rows: Seq<Seq<char>>, m: Marker) -> Seq<Cell> {
    marked_in_rows(rows, rows.len() as int, m)
}

/// The length of the longest of the first `n` rows.
pub open spec fn max_len(rows: Seq<Seq<char>>, n: int) -> nat
    decreases n,
{
    if n <= 0 {
        0
    } else {
        let m = max_len(rows, n - 1);
        if rows[n - 1].len() > m {
            rows[n - 1].len()
        } else {
            m
        }
    }
}

/// The width of the level that `rows` describe.
pub open spec fn text_width(rows: Seq<Seq<char>>) -> nat {
    max_len(rows, rows.len() as int)
}

/// The static tile at column `x` of a row of text: a wall where the text
/// says so, floor everywhere else, beyond the end of the row too.
pub open spec fn plain_tile(row: Seq<char>, x: int) -> Tile {
    if 0 <= x < row.len() && row[x] == '#' {
        Tile::Wall
    } else {
        Tile::OutsideFloor
    }
}

/// The map that `rows` describe before floor is classified: every row
/// padded with floor to the common width.
pub open spec fn plain_grid(rows: Seq<Seq<char>>) -> Seq<Seq<Tile>> {
    Seq::new(rows.len(), |y: int| Seq::new(text_width(rows), |x: int| plain_tile(rows[y], x)))
}

/// Whether `(y, x)` comes before `(y2, x2)` in reading order.
pub open spec fn reads_before(y: int, x: int, y2: int, x2: int) -> bool {
    y < y2 || (y == y2 && x < x2)
}

/// Whether the character at column `x` of row `y` is outside the legend
/// while every character read before it is inside.
pub open spec fn first_invalid_at(rows: Seq<Seq<char>>, y: int, x: int) -> bool {
    &&& 0 <= y < rows.len()
    &&& 0 <= x < rows[y].len()
    &&& tile_of_char(rows[y][x]) is None
    &&& forall|y2: int, x2: int|
        0 <= y2 < rows.len() && 0 <= x2 < rows[y2].len() && reads_before(y2, x2, y, x)
            ==> tile_of_char(#[trigger] rows[y2][x2]) is Some
}

/// Whether every character of the text is in the legend.
pub open spec fn all_valid(rows: Seq<Seq<char>>) -> bool {
    forall|y: int, x: int|
        0 <= y < rows.len() && 0 <= x < rows[y].len() ==> tile_of_char(#[trigger] rows[y][x])
            is Some
}

/// Text of the error for a level without rows.
pub open spec fn empty_level_text() -> Seq<char> {
    "Invalid level: Level is empty"@
}

/// Text of the error for a level without a player.
pub open spec fn no_start_text() -> Seq<char> {
    "Invalid level: Level has no starting position"@
}

/// Text of the error for a level with more than one player.
pub open spec fn several_starts_text() -> Seq<char> {
    "Invalid level: Level has more than one starting position"@
}

/// Mathematical model of a level.
pub ghost struct LevelView {
    pub width: nat,
    pub height: nat,
    pub tiles: Seq<Seq<Tile>>,
    pub start: StateView,
}

impl LevelView {
    /// Whether `c` is a wall. Cells outside the grid are not.
    pub open spec fn is_wall(self, c: Cell) -> bool {
        0 <= c.x < self.width && 0 <= c.y < self.height && self.tiles[c.y][c.x] == Tile::Wall
    }
}

/// The cell where the player starts: the one that the text marks for the
/// player.
pub open spec fn start_cell(rows: Seq<Seq<char>>) -> Cell {
    marked_cells(rows, Marker::Player)[0]
}

/// The state in which play on the level that `rows` describe begins.
pub open spec fn start_of(rows: Seq<Seq<char>>) -> StateView {
    StateView {
        player: start_cell(rows),
        facing: Direction::Right,
        boxes: marked_cells(rows, Marker::Star),
        goals: marked_cells(rows, Marker::Goal),
        steps: 0,
    }
}

/// The level that valid text with a player describes.
pub open spec fn level_of(rows: Seq<Seq<char>>) -> LevelView {
    LevelView {
        width: text_width(rows),
        height: rows.len(),
        tiles: filled(plain_grid(rows), Tile::OutsideFloor, Tile::InsideFloor, start_cell(rows)),
        start: start_of(rows),
    }
}

/// What reading `rows` as one level gives: the level, or the text of the
/// error. An empty level is reported first, then the first character
/// outside the legend, then a missing player, then a second player.
pub open spec fn parse_level(rows: Seq<Seq<char>>) -> Result<LevelView, Seq<char>> {
    if rows.len() == 0 {
        Err(empty_level_text())
    } else if !all_valid(rows) {
        let at = choose|at: (int, int)| first_invalid_at(rows, at.0, at.1);
        Err(invalid_tile_text(rows[at.0][at.1]))
    } else if marked_cells(rows, Marker::Player).len() == 0 {
        Err(no_start_text())
    } else if marked_cells(rows, Marker::Player).len() > 1 {
        Err(several_starts_text())
    } else {
        Ok(level_of(rows))
    }
}

/// The characters of each line.
pub open spec fn rows_of(lines: Seq<&str>) -> Seq<Seq<char>> {
    Seq::new(lines.len(), |i: int| lines[i]@)
}

/// Whether every cell of the text has coordinates that fit the machine
/// integers of a position: there are no more rows, and no row has more
/// characters, than the largest of them.
pub open spec fn lines_fit(lines: Seq<&str>) -> bool {
    &&& lines.len() <= i32::MAX
    &&& forall|i: int| 0 <= i < lines.len() ==> (#[trigger] lines[i])@.len() <= i32::MAX
}

/// What a level that was read from `lines` looks like: as high as there
/// are lines, as wide as the longest of them, with every row of the map
/// that wide.
pub open spec fn shaped_by(level: Level, lines: Seq<&str>) -> bool {
    &&& level.height == lines.len()
    &&& level.map.len() == lines.len()
    &&& forall|y: int| 0 <= y < level.map.len() ==> (#[trigger] level.map[y]).len() == level.width
    &&& forall|i: int| 0 <= i < lines.len() ==> (#[trigger] lines[i])@.len() <= level.width
    &&& exists|j: int| 0 <= j < lines.len() && (#[trigger] lines[j])@.len() == level.width
}

/// The width of a text is the length of its longest row.
pub proof fn lemma_max_len(rows: Seq<Seq<char>>, n: int)
    requires
        0 <= n <= rows.len(),
    ensures
        forall|y: int| 0 <= y < n ==> (#[trigger] rows[y]).len() <= max_len(rows, n),
        n > 0 ==> exists|y: int| 0 <= y < n && (#[trigger] rows[y]).len() == max_len(rows, n),
    decreases n,
{
    if n > 0 {
        lemma_max_len(rows, n - 1);
        if n - 1 > 0 && rows[n - 1].len() <= max_len(rows, n - 1) {
            let y = choose|y: int| 0 <= y < n - 1 && (#[trigger] rows[y]).len() == max_len(rows, n - 1);
            assert(rows[y].len() == max_len(rows, n));
        } else {
            assert(rows[n - 1].len() == max_len(rows, n));
        }
    }
}

/// The marked cells of one row: each lies in the row and carries the
/// marker, they run strictly left to right, and none is missing.
pub proof fn lemma_marked_in_row(row: Seq<char>, y: int, n: int, m: Marker)
    requires
        0 <= n <= row.len(),
    ensures
        forall|i: int|
            0 <= i < marked_in_row(row, y, n, m).len() ==> {
                let c = #[trigger] marked_in_row(row, y, n, m)[i];
                c.y == y && 0 <= c.x < n && carries(row[c.x], m)
            },
        forall|i: int, j: int|
            0 <= i < j < marked_in_row(row, y, n, m).len() ==> (#[trigger] marked_in_row(
                row,
                y,
                n,
                m,
            )[i]).x < (#[trigger] marked_in_row(row, y, n, m)[j]).x,
        forall|x: int|
            0 <= x < n && carries(#[trigger] row[x], m) ==> marked_in_row(row, y, n, m).contains(
                Cell { x, y },
            ),
    decreases n,
{
    if n > 0 {
        lemma_marked_in_row(row, y, n - 1, m);
        let before = marked_in_row(row, y, n - 1, m);
        let all = marked_in_row(row, y, n, m);
        assert forall|x: int| 0 <= x < n && carries(#[trigger] row[x], m) implies all.contains(
            Cell { x, y },
        ) by {
            if x < n - 1 {
                let i = choose|i: int| 0 <= i < before.len() && before[i] == (Cell { x, y });
                assert(all[i] == Cell { x, y });
            } else {
                assert(all[all.len() - 1] == Cell { x, y });
            }
        }
    }
}

/// The marked cells of a text: each lies in the text and carries the
/// marker, they run strictly in reading order, and none is missing.
pub proof fn lemma_marked_in_rows(rows: Seq<Seq<char>>, n: int, m: Marker)
    requires
        0 <= n <= rows.len(),
    ensures
        forall|i: int|
            0 <= i < marked_in_rows(rows, n, m).len() ==> {
                let c = #[trigger] marked_in_rows(rows, n, m)[i];
                0 <= c.y < n && 0 <= c.x < rows[c.y].len() && carries(rows[c.y][c.x], m)
            },
        forall|i: int, j: int|
            0 <= i < j < marked_in_rows(rows, n, m).len() ==> reads_before(
                (#[trigger] marked_in_rows(rows, n, m)[i]).y,
                marked_in_rows(rows, n, m)[i].x,
                (#[trigger] marked_in_rows(rows, n, m)[j]).y,
                marked_in_rows(rows, n, m)[j].x,
            ),
        forall|y: int, x: int|
            0 <= y < n && 0 <= x < rows[y].len() && carries(#[trigger] rows[y][x], m)
                ==> marked_in_rows(rows, n, m).contains(Cell { x, y }),
        marked_in_rows(rows, n, m).no_duplicates(),
    decreases n,
{
    if n > 0 {
        lemma_marked_in_rows(rows, n - 1, m);
        let row = rows[n - 1];
        lemma_marked_in_row(row, n - 1, row.len() as int, m);
        let before = marked_in_rows(rows, n - 1, m);
        let last = marked_in_row(row, n - 1, row.len() as int, m);
        let all = marked_in_rows(rows, n, m);
        assert(all == before + last);
        assert forall|i: int| 0 <= i < all.len() implies {
            let c = #[trigger] all[i];
            0 <= c.y < n && 0 <= c.x < rows[c.y].len() && carries(rows[c.y][c.x], m)
        } by {
            if i < before.len() {
                assert(all[i] == before[i]);
            } else {
                assert(all[i] == last[i - before.len()]);
            }
        }
        assert forall|i: int, j: int| 0 <= i < j < all.len() implies reads_before(
            (#[trigger] all[i]).y,
            all[i].x,
            (#[trigger] all[j]).y,
            all[j].x,
        ) by {
            if j < before.len() {
                assert(all[i] == before[i] && all[j] == before[j]);
            } else if i < before.len() {
                assert(all[i] == before[i]);
                assert(all[j] == last[j - before.len()]);
            } else {
                assert(all[i] == last[i - before.len()]);
                assert(all[j] == last[j - before.len()]);
            }
        }
        assert forall|y: int, x: int|
            0 <= y < n && 0 <= x < rows[y].len() && carries(
                #[trigger] rows[y][x],
                m,
            ) implies all.contains(Cell { x, y }) by {
            if y < n - 1 {
                let i = choose|i: int| 0 <= i < before.len() && before[i] == (Cell { x, y });
                assert(all[i] == Cell { x, y });
            } else {
                let i = choose|i: int| 0 <= i < last.len() && last[i] == (Cell { x, y });
                assert(all[before.len() + i] == Cell { x, y });
            }
        }
        assert forall|i: int, j: int| 0 <= i < all.len() && 0 <= j < all.len() && i != j implies all[i]
            != all[j] by {
            if i < j {
                assert(reads_before(all[i].y, all[i].x, all[j].y, all[j].x));
            } else {
                assert(reads_before(all[j].y, all[j].x, all[i].y, all[i].x));
            }
        }
    }
}

/// At most one position is the first to hold a character outside the
/// legend.
pub proof fn lemma_first_invalid_unique(rows: Seq<Seq<char>>, y: int, x: int, y2: int, x2: int)
    requires
        first_invalid_at(rows, y, x),
        first_invalid_at(rows, y2, x2),
    ensures
        y == y2 && x == x2,
{
    if reads_before(y, x, y2, x2) {
        assert(tile_of_char(rows[y][x]) is Some);
    }
    if reads_before(y2, x2, y, x) {
        assert(tile_of_char(rows[y2][x2]) is Some);
    }
}

/// The cells of a sequence of positions, in the same order.
pub open spec fn position_cells(positions: Seq<Position>) -> Seq<Cell> {
    Seq::new(positions.len(), |i: int| positions[i]@)
}

/// A static, immutable level: the tile grid and the state play starts in.
#[derive(Debug, PartialEq, Eq)]
pub struct Level {
    pub width: usize,
    pub height: usize,
    pub map: Vec<Vec<Tile>>,
    pub start_state: GameState,
}

impl View for Level {
    type V = LevelView;

    open spec fn view(&self) -> LevelView {
        LevelView {
            width: self.width as nat,
            height: self.height as nat,
            tiles: grid_of(self.map@),
            start: self.start_state@,
        }
    }
}

impl Clone for Level {
    fn clone(&self) -> (level: Level)
        ensures
            level@ == self@,
    {
        let mut map: Vec<Vec<Tile>> = Vec::new();
        let mut y: usize = 0;
        while y < self.map.len()
            invariant
                y <= self.map.len(),
                map.len() == y,
                forall|k: int| 0 <= k < y ==> (#[trigger] map[k])@ == self.map[k]@,
            decreases self.map.len() - y,
        {
            let row = self.map[y].clone();
            assert(row@ =~= self.map[y as int]@);
            map.push(row);
            y = y + 1;
        }
        assert(grid_of(map@) =~= grid_of(self.map@));
        Level {
            width: self.width,
            height: self.height,
            map,
            start_state: self.start_state.clone(),
        }
    }
}

impl LevelView {
    /// The invariant of a level: a rectangular grid of static tiles whose
    /// sides fit a coordinate, a start state with the player on interior
    /// floor, boxes and goals inside the grid, no two boxes on one cell, no
    /// two goals on one cell, and no step taken.
    pub open spec fn wf(self) -> bool {
        &&& self.height == self.tiles.len()
        &&& self.width <= i32::MAX
        &&& self.height <= i32::MAX
        &&& rectangular(self.tiles, self.width)
        &&& forall|c: Cell| #[trigger] in_grid(self.tiles, c) ==> tile_at(self.tiles, c).is_static()
        &&& in_grid(self.tiles, self.start.player)
        &&& tile_at(self.tiles, self.start.player) == Tile::InsideFloor
        &&& forall|i: int|
            0 <= i < self.start.boxes.len() ==> in_grid(self.tiles, #[trigger] self.start.boxes[i])
        &&& forall|i: int|
            0 <= i < self.start.goals.len() ==> in_grid(self.tiles, #[trigger] self.start.goals[i])
        &&& self.start.boxes_distinct()
        &&& self.start.goals_distinct()
        &&& self.start.steps == 0
    }
}

/// Text without rows over the machine's coordinate range describes, where
/// it describes a level at all, one that meets the level invariant.
pub proof fn lemma_level_of_wf(rows: Seq<Seq<char>>)
    requires
        parse_level(rows) is Ok,
        rows.len() <= i32::MAX,
        forall|y: int| 0 <= y < rows.len() ==> (#[trigger] rows[y]).len() <= i32::MAX,
    ensures
        level_of(rows).wf(),
{
    let v = level_of(rows);
    let n = rows.len() as int;
    let plain = plain_grid(rows);
    lemma_max_len(rows, n);
    lemma_marked_in_rows(rows, n, Marker::Player);
    lemma_marked_in_rows(rows, n, Marker::Star);
    lemma_marked_in_rows(rows, n, Marker::Goal);
    let players = marked_cells(rows, Marker::Player);
    let start = players[0];
    assert(start == start_cell(rows));
    assert(rows[start.y].len() <= text_width(rows));
    assert(in_grid(plain, start));
    lemma_connected_start(plain, Tile::OutsideFloor, start);
    assert(tile_at(plain, start) == Tile::OutsideFloor);
    assert(in_grid(v.tiles, start));
    assert(tile_at(v.tiles, start) == Tile::InsideFloor);
    assert forall|i: int| 0 <= i < v.start.boxes.len() implies in_grid(
        v.tiles,
        #[trigger] v.start.boxes[i],
    ) by {
        let c = marked_cells(rows, Marker::Star)[i];
        assert(rows[c.y].len() <= text_width(rows));
    }
    assert forall|i: int| 0 <= i < v.start.goals.len() implies in_grid(
        v.tiles,
        #[trigger] v.start.goals[i],
    ) by {
        let c = marked_cells(rows, Marker::Goal)[i];
        assert(rows[c.y].len() <= text_width(rows));
    }
}

/// The shape of a level that text describes: as high as the text has rows,
/// as wide as its longest row, every row of the grid that wide, and the
/// player on the one cell of the text that is marked for the player.
pub proof fn lemma_level_of_shape(rows: Seq<Seq<char>>)
    requires
        parse_level(rows) is Ok,
    ensures
        level_of(rows).height == rows.len(),
        level_of(rows).tiles.len() == rows.len(),
        forall|y: int| 0 <= y < rows.len() ==> (#[trigger] rows[y]).len() <= level_of(rows).width,
        exists|y: int| 0 <= y < rows.len() && (#[trigger] rows[y]).len() == level_of(rows).width,
        rectangular(level_of(rows).tiles, level_of(rows).width),
        ({
            let start = level_of(rows).start.player;
            &&& 0 <= start.y < rows.len()
            &&& 0 <= start.x < rows[start.y].len()
            &&& carries(rows[start.y][start.x], Marker::Player)
            &&& forall|y: int, x: int|
                0 <= y < rows.len() && 0 <= x < rows[y].len() && carries(
                    #[trigger] rows[y][x],
                    Marker::Player,
                ) ==> y == start.y && x == start.x
        }),
{
    let n = rows.len() as int;
    lemma_max_len(rows, n);
    lemma_marked_in_rows(rows, n, Marker::Player);
    let players = marked_cells(rows, Marker::Player);
    let start = players[0];
    assert(start == level_of(rows).start.player);
    assert forall|y: int, x: int|
        0 <= y < rows.len() && 0 <= x < rows[y].len() && carries(
            #[trigger] rows[y][x],
            Marker::Player,
        ) implies y == start.y && x == start.x by {
        assert(players.contains(Cell { x, y }));
    }
}

/// Which tile of a level is what: a wall where the text has `#`, interior
/// floor where a walk over floor joins the cell to the player's start, and
/// exterior floor everywhere else. The start itself is floor, so such a
/// walk touches no wall.
pub proof fn lemma_level_of_tiles(rows: Seq<Seq<char>>, c: Cell)
    requires
        parse_level(rows) is Ok,
        in_grid(plain_grid(rows), c),
    ensures
        tile_at(plain_grid(rows), level_of(rows).start.player) == Tile::OutsideFloor,
        tile_at(level_of(rows).tiles, c) == Tile::Wall <==> tile_at(plain_grid(rows), c)
            == Tile::Wall,
        tile_at(level_of(rows).tiles, c) == Tile::InsideFloor <==> tile_at(plain_grid(rows), c)
            == Tile::OutsideFloor && connected(
            plain_grid(rows),
            Tile::OutsideFloor,
            level_of(rows).start.player,
            c,
        ),
        tile_at(level_of(rows).tiles, c) == Tile::OutsideFloor <==> tile_at(plain_grid(rows), c)
            == Tile::OutsideFloor && !connected(
            plain_grid(rows),
            Tile::OutsideFloor,
            level_of(rows).start.player,
            c,
        ),
{
    lemma_level_of_shape(rows);
}

/// Reads one row of level text: appends the boxes, the goals and the
/// player positions it marks, and returns the row's static tiles padded
/// with floor to `width`. Stops at the first character
/// outside the legend.
fn read_row(
    line: &str,
    y: usize,
    width: usize,
    stars: &mut Vec<Star>,
    goals: &mut Vec<Goal>,
    players: &mut Vec<Position>,
) -> (r: Result<Vec<Tile>, String>)
    requires
        line@.len() <= width <= i32::MAX,
        y <= i32::MAX,
    ensures
        match r {
            Ok(row) => {
                &&& forall|x: int| 0 <= x < line@.len() ==> tile_of_char(#[trigger] line@[x]) is Some
                &&& row@ == Seq::new(width as nat, |x: int| plain_tile(line@, x))
                &&& star_cells(final(stars)@) == star_cells(old(stars)@)
                    + marked_in_row(line@, y as int, line@.len() as int, Marker::Star)
                &&& goal_cells(final(goals)@) == goal_cells(old(goals)@)
                    + marked_in_row(line@, y as int, line@.len() as int, Marker::Goal)
                &&& position_cells(final(players)@) == position_cells(old(players)@)
                    + marked_in_row(line@, y as int, line@.len() as int, Marker::Player)
            },
            Err(e) => exists|x: int|
                {
                    &&& 0 <= x < line@.len()
                    &&& tile_of_char(#[trigger] line@[x]) is None
                    &&& forall|k: int| 0 <= k < x ==> tile_of_char(#[trigger] line@[k]) is Some
                    &&& e@ == invalid_tile_text(line@[x])
                },
        },
{
    let mut row: Vec<Tile> = Vec::new();
    let mut x: usize = 0;
    for c in it: line.chars()
        invariant
            it.seq() == line@,
            x == it.index(),
            line@.len() <= width <= i32::MAX,
            y <= i32::MAX,
            forall|k: int| 0 <= k < x ==> tile_of_char(#[trigger] line@[k]) is Some,
            row@ == Seq::new(x as nat, |k: int| plain_tile(line@, k)),
            star_cells(stars@) == star_cells(old(stars)@)
                + marked_in_row(line@, y as int, x as int, Marker::Star),
            goal_cells(goals@) == goal_cells(old(goals)@)
                + marked_in_row(line@, y as int, x as int, Marker::Goal),
            position_cells(players@) == position_cells(old(players)@) + marked_in_row(
                line@,
                y as int,
                x as int,
                Marker::Player,
            ),
    {
        assert(c == line@[x as int]);
        let ghost stars_before = stars@;
        let ghost goals_before = goals@;
        let ghost players_before = players@;
        let here = Position::new(x as i32, y as i32);
        assert(here@ == Cell { x: x as int, y: y as int });
        match Tile::from_char(c) {
            Err(e) => {
                return Err(e);
            },
            Ok(tile) => {
                match tile {
                    Tile::Player | Tile::PlayerOnGoal => {
                        players.push(here);
                    },
                    Tile::Star | Tile::StarOnGoal => {
                        stars.push(Star::new(here));
                    },
                    _ => {},
                }
                match tile {
                    Tile::Goal | Tile::PlayerOnGoal | Tile::StarOnGoal => {
                        goals.push(Goal::new(here));
                    },
                    _ => {},
                }
                match tile {
                    Tile::Wall => {
                        row.push(Tile::Wall);
                    },
                    _ => {
                        row.push(Tile::OutsideFloor);
                    },
                }
            },
        }
        proof {
            assert(row@ =~= Seq::new((x + 1) as nat, |k: int| plain_tile(line@, k)));
            assert(star_cells(stars@) =~= star_cells(old(stars)@)
                + marked_in_row(line@, y as int, x + 1, Marker::Star)) by {
                if carries(c, Marker::Star) {
                    assert(stars@ == stars_before.push(Star { position: here }));
                    assert(star_cells(stars@) =~= star_cells(
                        stars_before,
                    ).push(here@));
                }
            }
            assert(position_cells(players@) =~= position_cells(old(players)@) + marked_in_row(
                line@,
                y as int,
                x + 1,
                Marker::Player,
            )) by {
                if carries(c, Marker::Player) {
                    assert(players@ == players_before.push(here));
                    assert(position_cells(players@) =~= position_cells(players_before).push(
                        here@,
                    ));
                }
            }
            assert(goal_cells(goals@) =~= goal_cells(old(goals)@)
                + marked_in_row(line@, y as int, x + 1, Marker::Goal)) by {
                if carries(c, Marker::Goal) {
                    assert(goals@ == goals_before.push(Goal { position: here }));
                    assert(goal_cells(goals@) =~= goal_cells(
                        goals_before,
                    ).push(here@));
                }
            }
        }
        x = x + 1;
    }
    assert(x == line@.len());
    while row.len() < width
        invariant
            line@.len() <= row.len() <= width,
            row@ == Seq::new(row.len() as nat, |k: int| plain_tile(line@, k)),
        decreases width - row.len(),
    {
        let ghost n = row.len();
        row.push(Tile::OutsideFloor);
        assert(row@ =~= Seq::new((n + 1) as nat, |k: int| plain_tile(line@, k)));
    }
    Ok(row)
}

/// The length in characters of the longest line.
fn longest_line(lines: &Vec<&str>) -> (width: usize)
    ensures
        width == text_width(rows_of(lines@)),
{
    let ghost rows = rows_of(lines@);
    let mut width: usize = 0;
    let mut i: usize = 0;
    while i < lines.len()
        invariant
            i <= lines.len(),
            rows == rows_of(lines@),
            width == max_len(rows, i as int),
        decreases lines.len() - i,
    {
        let len = lines[i].unicode_len();
        assert(len == rows[i as int].len());
        if len > width {
            width = len;
        }
        i = i + 1;
    }
    width
}

impl Level {
    /// The level invariant, on the level's model.
    pub open spec fn wf(&self) -> bool {
        self@.wf()
    }

    /// Reads one level from its rows of text, top row first.
    ///
    /// Fails on an empty set of rows, on the first character outside the
    /// legend, and on text that marks no cell or more than one for the
    /// player. Otherwise the level is as wide as the longest row and as
    /// high as there are rows; shorter rows are padded with floor; the
    /// player starts, facing right, on the cell marked for it; boxes and
    /// goals stand in reading order; and floor connected to the start is
    /// interior floor.
    pub fn from_lines(lines: Vec<&str>) -> (r: Result<Level, String>)
        requires
            lines_fit(lines@),
        ensures
            match parse_level(rows_of(lines@)) {
                Ok(v) => r is Ok && r->Ok_0@ == v && r->Ok_0.wf(),
                Err(e) => r is Err && r->Err_0@ == e,
            },
            r matches Ok(level) ==> shaped_by(level, lines@),
    {
        let ghost rows = rows_of(lines@);
        if lines.len() == 0 {
            return Err(String::from_str("Invalid level: Level is empty"));
        }
        let width = longest_line(&lines);
        proof {
            lemma_max_len(rows, rows.len() as int);
        }
        let mut map: Vec<Vec<Tile>> = Vec::new();
        let mut stars: Vec<Star> = Vec::new();
        let mut goals: Vec<Goal> = Vec::new();
        let mut players: Vec<Position> = Vec::new();
        let mut y: usize = 0;
        while y < lines.len()
            invariant
                y <= lines.len() <= i32::MAX,
                rows == rows_of(lines@),
                width == text_width(rows),
                width <= i32::MAX,
                forall|k: int| 0 <= k < rows.len() ==> (#[trigger] rows[k]).len() <= width,
                forall|k: int, x: int|
                    0 <= k < y && 0 <= x < rows[k].len() ==> tile_of_char(#[trigger] rows[k][x])
                        is Some,
                map.len() == y,
                forall|k: int|
                    0 <= k < y ==> (#[trigger] map[k])@ == Seq::new(
                        width as nat,
                        |x: int| plain_tile(rows[k], x),
                    ),
                star_cells(stars@) == marked_in_rows(rows, y as int, Marker::Star),
                goal_cells(goals@) == marked_in_rows(rows, y as int, Marker::Goal),
                position_cells(players@) == marked_in_rows(rows, y as int, Marker::Player),
            decreases lines.len() - y,
        {
            let line: &str = lines[y];
            assert(line@ == rows[y as int]);
            match read_row(line, y, width, &mut stars, &mut goals, &mut players) {
                Err(e) => {
                    proof {
                        let x = choose|x: int|
                            {
                                &&& 0 <= x < line@.len()
                                &&& tile_of_char(#[trigger] line@[x]) is None
                                &&& forall|k: int|
                                    0 <= k < x ==> tile_of_char(#[trigger] line@[k]) is Some
                                &&& e@ == invalid_tile_text(line@[x])
                            };
                        assert(tile_of_char(rows[y as int][x]) is None);
                        assert(first_invalid_at(rows, y as int, x));
                        let at = choose|at: (int, int)| first_invalid_at(rows, at.0, at.1);
                        assert(first_invalid_at(rows, (y as int, x).0, (y as int, x).1));
                        lemma_first_invalid_unique(rows, y as int, x, at.0, at.1);
                    }
                    return Err(e);
                },
                Ok(row) => {
                    map.push(row);
                },
            }
            y = y + 1;
        }
        assert(all_valid(rows));
        if players.len() == 0 {
            return Err(String::from_str("Invalid level: Level has no starting position"));
        }
        if players.len() > 1 {
            return Err(
                String::from_str("Invalid level: Level has more than one starting position"),
            );
        }
        let pos = players[0];
        proof {
            lemma_marked_in_rows(rows, rows.len() as int, Marker::Player);
            assert(pos@ == marked_cells(rows, Marker::Player)[0]);
            assert(rows[pos@.y].len() <= width);
            assert(grid_of(map@) =~~= plain_grid(rows));
            lemma_level_of_wf(rows);
            let j = choose|j: int| 0 <= j < rows.len() && (#[trigger] rows[j]).len() == width;
            assert(lines@[j]@.len() == width);
            assert forall|i: int| 0 <= i < lines.len() implies (#[trigger] lines@[i])@.len()
                <= width by {
                assert(rows[i].len() <= width);
            }
        }
        let start_state = GameState::new(Player::new(pos, Direction::Right), stars, goals, 0);
        let height = map.len();
        floodfill(&mut map, Tile::OutsideFloor, Tile::InsideFloor, pos.x as usize, pos.y as usize);
        proof {
            assert forall|k: int| 0 <= k < map.len() implies (#[trigger] map[k]).len()
                == width by {
                assert(grid_of(map@)[k] == map[k]@);
            }
        }
        Ok(Level { map, width, height, start_state })
    }

    /// Reads one level from its rows of text where every cell of the text
    /// has coordinates that fit a position, and says so where they do not.
    pub fn try_from_lines(lines: Vec<&str>) -> (r: Option<Result<Level, String>>)
        ensures
            r is Some <==> lines_fit(lines@),
            r matches Some(read) ==> {
                &&& match parse_level(rows_of(lines@)) {
                    Ok(v) => read is Ok && read->Ok_0@ == v && read->Ok_0.wf(),
                    Err(e) => read is Err && read->Err_0@ == e,
                }
                &&& read matches Ok(level) ==> shaped_by(level, lines@)
            },
    {
        if lines.len() > i32::MAX as usize {
            return None;
        }
        let mut i: usize = 0;
        while i < lines.len()
            invariant
                i <= lines.len(),
                forall|k: int| 0 <= k < i ==> (#[trigger] lines[k])@.len() <= i32::MAX,
            decreases lines.len() - i,
        {
            if lines[i].unicode_len() > i32::MAX as usize {
                return None;
            }
            i = i + 1;
        }
        Some(Level::from_lines(lines))
    }

    /// Whether the cell `(x, y)` is a wall. Cells outside the grid are not.
    pub fn is_wall(&self, x: i32, y: i32) -> (b: bool)
        requires
            self.wf(),
        ensures
            b == self@.is_wall(Cell { x: x as int, y: y as int }),
    {
        if y < 0 || y >= self.height as i32 || x < 0 || x >= self.width as i32 {
            false
        } else {
            assert(self.map[y as int]@ == grid_of(self.map@)[y as int]);
            self.map[y as usize][x as usize] == Tile::Wall
        }
    }
}

/// Whether position `p` lies on a map of the given sides.
fn on_map(p: Position, width: usize, height: usize) -> (b: bool)
    requires
        width <= i32::MAX,
        height <= i32::MAX,
    ensures
        b == (0 <= p.x < width && 0 <= p.y < height),
{
    p.x >= 0 && p.x < width as i32 && p.y >= 0 && p.y < height as i32
}

/// Whether the boxes lie on a map of the given sides, each on a cell of
/// its own.
fn stars_in_place(stars: &Vec<Star>, width: usize, height: usize) -> (b: bool)
    requires
        width <= i32::MAX,
        height <= i32::MAX,
    ensures
        b == {
            &&& star_cells(stars@).no_duplicates()
            &&& forall|i: int|
                0 <= i < stars.len() ==> 0 <= (#[trigger] stars[i]).position.x < width && 0
                    <= stars[i].position.y < height
        },
{
    let ghost cells = star_cells(stars@);
    let mut i: usize = 0;
    while i < stars.len()
        invariant
            i <= stars.len(),
            width <= i32::MAX,
            height <= i32::MAX,
            cells == star_cells(stars@),
            forall|a: int, b: int| 0 <= a < b < i ==> cells[a] != cells[b],
            forall|k: int|
                0 <= k < i ==> 0 <= (#[trigger] stars[k]).position.x < width && 0
                    <= stars[k].position.y < height,
        decreases stars.len() - i,
    {
        let p = stars[i].position;
        if !on_map(p, width, height) {
            return false;
        }
        let mut j: usize = 0;
        while j < i
            invariant
                j <= i < stars.len(),
                cells == star_cells(stars@),
                p == stars[i as int].position,
                forall|a: int| 0 <= a < j ==> cells[a] != cells[i as int],
            decreases i - j,
        {
            let q = stars[j].position;
            if q.x == p.x && q.y == p.y {
                assert(cells[j as int] == cells[i as int]);
                return false;
            }
            j = j + 1;
        }
        i = i + 1;
    }
    true
}

/// Whether the goals lie on a map of the given sides, each on a cell of
/// its own.
fn goals_in_place(goals: &Vec<Goal>, width: usize, height: usize) -> (b: bool)
    requires
        width <= i32::MAX,
        height <= i32::MAX,
    ensures
        b == {
            &&& goal_cells(goals@).no_duplicates()
            &&& forall|i: int|
                0 <= i < goals.len() ==> 0 <= (#[trigger] goals[i]).position.x < width && 0
                    <= goals[i].position.y < height
        },
{
    let ghost cells = goal_cells(goals@);
    let mut i: usize = 0;
    while i < goals.len()
        invariant
            i <= goals.len(),
            width <= i32::MAX,
            height <= i32::MAX,
            cells == goal_cells(goals@),
            forall|a: int, b: int| 0 <= a < b < i ==> cells[a] != cells[b],
            forall|k: int|
                0 <= k < i ==> 0 <= (#[trigger] goals[k]).position.x < width && 0
                    <= goals[k].position.y < height,
        decreases goals.len() - i,
    {
        let p = goals[i].position;
        if !on_map(p, width, height) {
            return false;
        }
        let mut j: usize = 0;
        while j < i
            invariant
                j <= i < goals.len(),
                cells == goal_cells(goals@),
                p == goals[i as int].position,
                forall|a: int| 0 <= a < j ==> cells[a] != cells[i as int],
            decreases i - j,
        {
            let q = goals[j].position;
            if q.x == p.x && q.y == p.y {
                assert(cells[j as int] == cells[i as int]);
                return false;
            }
            j = j + 1;
        }
        i = i + 1;
    }
    true
}

/// Whether the map has `height` rows of `width` static tiles each.
fn map_in_shape(map: &Vec<Vec<Tile>>, width: usize, height: usize) -> (b: bool)
    ensures
        b == {
            &&& map.len() == height
            &&& rectangular(grid_of(map@), width as nat)
            &&& forall|c: Cell| #[trigger]
                in_grid(grid_of(map@), c) ==> tile_at(grid_of(map@), c).is_static()
        },
{
    if map.len() != height {
        return false;
    }
    let ghost tiles = grid_of(map@);
    let mut y: usize = 0;
    while y < map.len()
        invariant
            y <= map.len(),
            tiles == grid_of(map@),
            forall|k: int| 0 <= k < y ==> (#[trigger] tiles[k]).len() == width,
            forall|c: Cell| 0 <= c.y < y && #[trigger] in_grid(tiles, c) ==> tile_at(tiles, c).is_static(),
        decreases map.len() - y,
    {
        let row = &map[y];
        assert(row@ == tiles[y as int]);
        if row.len() != width {
            return false;
        }
        let mut x: usize = 0;
        while x < row.len()
            invariant
                x <= row.len(),
                y < map.len(),
                tiles == grid_of(map@),
                row@ == tiles[y as int],
                forall|k: int| 0 <= k < x ==> (#[trigger] row@[k]).is_static(),
            decreases row.len() - x,
        {
            match row[x] {
                Tile::Wall | Tile::OutsideFloor | Tile::InsideFloor => {},
                _ => {
                    let ghost c = Cell { x: x as int, y: y as int };
                    assert(in_grid(tiles, c) && !tile_at(tiles, c).is_static());
                    return false;
                },
            }
            x = x + 1;
        }
        assert forall|c: Cell| 0 <= c.y < y + 1 && #[trigger] in_grid(tiles, c) implies tile_at(
            tiles,
            c,
        ).is_static() by {
            if c.y == y {
                assert(row@[c.x].is_static());
            }
        }
        y = y + 1;
    }
    true
}

impl Level {
    /// Whether the level meets the level invariant. The levels that
    /// `from_lines` returns do; this is for levels put together by hand.
    pub fn is_well_formed(&self) -> (b: bool)
        ensures
            b == self.wf(),
    {
        if self.width > i32::MAX as usize || self.height > i32::MAX as usize {
            return false;
        }
        if !map_in_shape(&self.map, self.width, self.height) {
            return false;
        }
        let p = self.start_state.player.position;
        if !on_map(p, self.width, self.height) {
            return false;
        }
        assert(self.map[p.y as int]@ == grid_of(self.map@)[p.y as int]);
        if self.map[p.y as usize][p.x as usize] != Tile::InsideFloor {
            return false;
        }
        if !stars_in_place(&self.start_state.stars, self.width, self.height) {
            assert(!self.wf()) by {
                if self.wf() {
                    assert forall|i: int| 0 <= i < self.start_state.stars.len() implies 0 <= (
                    #[trigger] self.start_state.stars[i]).position.x < self.width && 0
                        <= self.start_state.stars[i].position.y < self.height by {
                        assert(in_grid(self@.tiles, self@.start.boxes[i]));
                    }
                }
            }
            return false;
        }
        if !goals_in_place(&self.start_state.goals, self.width, self.height) {
            assert(!self.wf()) by {
                if self.wf() {
                    assert forall|i: int| 0 <= i < self.start_state.goals.len() implies 0 <= (
                    #[trigger] self.start_state.goals[i]).position.x < self.width && 0
                        <= self.start_state.goals[i].position.y < self.height by {
                        assert(in_grid(self@.tiles, self@.start.goals[i]));
                    }
                }
            }
            return false;
        }
        self.start_state.steps == 0
    }
}

} // verus!
