//! Reachability over a tile grid and the flood fill that relabels what is
//! reachable.

use vstd::prelude::*;
use crate::grid::{Cell, Direction};
use crate::tile::Tile;

verus! {

/// The rows of a map as sequences of tiles.
pub open spec fn grid_of(map: Seq<Vec<Tile>>) -> Seq<Seq<Tile>> {
    Seq::new(map.len(), |y: int| map[y]@)
}

/// Every row of `grid` has exactly `width` columns.
pub open spec fn rectangular(grid: Seq<Seq<Tile>>, width: nat) -> bool {
    forall|y: int| 0 <= y < grid.len() ==> (#[trigger] grid[y]).len() == width
}

/// Whether `c` lies inside `grid`.
pub open spec fn in_grid(grid: Seq<Seq<Tile>>, c: Cell) -> bool {
    0 <= c.y < grid.len() && 0 <= c.x < grid[c.y].len()
}

/// The tile `grid` holds at `c`; meaningful for cells inside the grid.
pub open spec fn tile_at(grid: Seq<Seq<Tile>>, c: Cell) -> Tile {
    grid[c.y][c.x]
}

/// `path` is a walk that starts anywhere and then moves one edge-adjacent
/// cell at a time, every cell after the first lying inside `grid` and
/// holding `kind`.
pub open spec fn is_path(grid: Seq<Seq<Tile>>, kind: Tile, path: Seq<Cell>) -> bool {
    &&& path.len() > 0
    &&& forall|i: int|
        1 <= i < path.len() ==> {
            &&& path[i - 1].adjacent(#[trigger] path[i])
            &&& in_grid(grid, path[i])
            &&& tile_at(grid, path[i]) == kind
        }
}

/// Whether a walk through `kind` tiles leads from `start` to `c`.
pub open spec fn connected(grid: Seq<Seq<Tile>>, kind: Tile, start: Cell, c: Cell) -> bool {
    exists|path: Seq<Cell>|
        #[trigger] is_path(grid, kind, path) && path[0] == start && path.last() == c
}

/// What a flood fill from `start` leaves at `c`: `to` where `c` held `from`
/// and is connected to `start`, the old tile everywhere else.
pub open spec fn filled_tile(
    grid: Seq<Seq<Tile>>,
    from: Tile,
    to: Tile,
    start: Cell,
    c: Cell,
) -> Tile {
    if tile_at(grid, c) == from && connected(grid, from, start, c) {
        to
    } else {
        tile_at(grid, c)
    }
}

/// The grid a flood fill from `start` produces.
pub open spec fn filled(grid: Seq<Seq<Tile>>, from: Tile, to: Tile, start: Cell) -> Seq<Seq<Tile>> {
    Seq::new(
        grid.len(),
        |y: int| Seq::new(grid[y].len(), |x: int| filled_tile(grid, from, to, start, Cell { x, y })),
    )
}

/// A cell is connected to itself.
pub proof fn lemma_connected_start(grid: Seq<Seq<Tile>>, kind: Tile, start: Cell)
    ensures
        connected(grid, kind, start, start),
{
    let path = seq![start];
    assert(is_path(grid, kind, path));
    assert(path[0] == start && path.last() == start);
}

/// A walk can be extended by one `kind` cell next to its end.
pub proof fn lemma_connected_step(
    grid: Seq<Seq<Tile>>,
    kind: Tile,
    start: Cell,
    c: Cell,
    dir: Direction,
)
    requires
        connected(grid, kind, start, c),
        in_grid(grid, c.shifted(dir)),
        tile_at(grid, c.shifted(dir)) == kind,
    ensures
        connected(grid, kind, start, c.shifted(dir)),
{
    let path = choose|path: Seq<Cell>|
        #[trigger] is_path(grid, kind, path) && path[0] == start && path.last() == c;
    let longer = path.push(c.shifted(dir));
    assert forall|i: int| 1 <= i < longer.len() implies {
        &&& longer[i - 1].adjacent(#[trigger] longer[i])
        &&& in_grid(grid, longer[i])
        &&& tile_at(grid, longer[i]) == kind
    } by {
        if i < path.len() {
            assert(longer[i] == path[i]);
            assert(longer[i - 1] == path[i - 1]);
        } else {
            assert(longer[i - 1] == c);
        }
    }
    assert(is_path(grid, kind, longer));
    assert(longer[0] == start && longer.last() == c.shifted(dir));
}

/// A flood fill changes only tiles that held `from` and that a walk joins
/// to the start; those it relabels as `to`.
pub proof fn lemma_fill_relabels_only_connected(
    grid: Seq<Seq<Tile>>,
    from: Tile,
    to: Tile,
    start: Cell,
    c: Cell,
)
    requires
        in_grid(grid, c),
        tile_at(filled(grid, from, to, start), c) != tile_at(grid, c),
    ensures
        tile_at(grid, c) == from,
        tile_at(filled(grid, from, to, start), c) == to,
        connected(grid, from, start, c),
{
}

/// A flood fill keeps the shape of the grid.
pub proof fn lemma_fill_keeps_shape(grid: Seq<Seq<Tile>>, from: Tile, to: Tile, start: Cell)
    ensures
        filled(grid, from, to, start).len() == grid.len(),
        forall|y: int|
            0 <= y < grid.len() ==> (#[trigger] filled(grid, from, to, start)[y]).len()
                == grid[y].len(),
        forall|c: Cell| in_grid(filled(grid, from, to, start), c) <==> in_grid(grid, c),
{
}

/// Number of `kind` tiles in a row.
spec fn row_count(row: Seq<Tile>, kind: Tile) -> nat
    decreases row.len(),
{
    if row.len() == 0 {
        0
    } else {
        row_count(row.drop_last(), kind) + if row.last() == kind {
            1nat
        } else {
            0nat
        }
    }
}

/// Number of `kind` tiles in a grid.
spec fn grid_count(grid: Seq<Seq<Tile>>, kind: Tile) -> nat
    decreases grid.len(),
{
    if grid.len() == 0 {
        0
    } else {
        grid_count(grid.drop_last(), kind) + row_count(grid.last(), kind)
    }
}

proof fn lemma_row_count_replace(row: Seq<Tile>, x: int, kind: Tile, t: Tile)
    requires
        0 <= x < row.len(),
        row[x] == kind,
        t != kind,
    ensures
        row_count(row.update(x, t), kind) + 1 == row_count(row, kind),
    decreases row.len(),
{
    let changed = row.update(x, t);
    if x == row.len() - 1 {
        assert(changed.drop_last() =~= row.drop_last());
    } else {
        lemma_row_count_replace(row.drop_last(), x, kind, t);
        assert(changed.drop_last() =~= row.drop_last().update(x, t));
    }
}

proof fn lemma_grid_count_replace(grid: Seq<Seq<Tile>>, y: int, row: Seq<Tile>, kind: Tile)
    requires
        0 <= y < grid.len(),
        row_count(row, kind) + 1 == row_count(grid[y], kind),
    ensures
        grid_count(grid.update(y, row), kind) + 1 == grid_count(grid, kind),
    decreases grid.len(),
{
    let changed = grid.update(y, row);
    if y == grid.len() - 1 {
        assert(changed.drop_last() =~= grid.drop_last());
    } else {
        lemma_grid_count_replace(grid.drop_last(), y, row, kind);
        assert(changed.drop_last() =~= grid.drop_last().update(y, row));
    }
}

/// Relabels one `from` cell as `to`.
fn mark(map: &mut Vec<Vec<Tile>>, x: usize, y: usize, from: Tile, to: Tile)
    requires
        y < old(map).len(),
        x < old(map)[y as int].len(),
        old(map)[y as int][x as int] == from,
        from != to,
    ensures
        grid_of(final(map)@) == grid_of(old(map)@).update(
            y as int,
            grid_of(old(map)@)[y as int].update(x as int, to),
        ),
        grid_count(grid_of(final(map)@), from) + 1 == grid_count(grid_of(old(map)@), from),
{
    let ghost before = grid_of(map@);
    map[y][x] = to;
    proof {
        let row = before[y as int].update(x as int, to);
        assert(grid_of(map@) =~= before.update(y as int, row));
        lemma_row_count_replace(before[y as int], x as int, from, to);
        lemma_grid_count_replace(before, y as int, row, from);
    }
}

/// The cell a worklist entry `(x, y)` names.
spec fn cell_of(p: (usize, usize)) -> Cell {
    Cell { x: p.0 as int, y: p.1 as int }
}

/// Whether `c` waits on the worklist.
spec fn pending(work: Seq<(usize, usize)>, c: Cell) -> bool {
    exists|i: int| 0 <= i < work.len() && cell_of(#[trigger] work[i]) == c
}

/// `g` has the shape of `g0` and differs from it only where a `from` tile
/// became `to`.
spec fn relabeled(g0: Seq<Seq<Tile>>, g: Seq<Seq<Tile>>, from: Tile, to: Tile) -> bool {
    &&& g.len() == g0.len()
    &&& forall|y: int| 0 <= y < g0.len() ==> (#[trigger] g[y]).len() == g0[y].len()
    &&& forall|c: Cell| #[trigger]
        in_grid(g0, c) ==> tile_at(g, c) == tile_at(g0, c) || (tile_at(g0, c) == from && tile_at(
            g,
            c,
        ) == to)
}

/// Whether the fill has relabeled `c` so far.
spec fn marked(g0: Seq<Seq<Tile>>, g: Seq<Seq<Tile>>, c: Cell) -> bool {
    in_grid(g0, c) && tile_at(g, c) != tile_at(g0, c)
}

/// Whether the neighbour of `c` in direction `d` needs no more work.
spec fn expanded_toward(
    g0: Seq<Seq<Tile>>,
    g: Seq<Seq<Tile>>,
    from: Tile,
    c: Cell,
    d: Direction,
) -> bool {
    in_grid(g0, c.shifted(d)) && tile_at(g0, c.shifted(d)) == from ==> tile_at(g, c.shifted(d))
        != from
}

spec fn expanded(g0: Seq<Seq<Tile>>, g: Seq<Seq<Tile>>, from: Tile, c: Cell) -> bool {
    forall|d: Direction| #[trigger] expanded_toward(g0, g, from, c, d)
}

/// What holds between two visits of the fill: the relabeled cells are
/// connected to `start`, so are the waiting ones, and every cell the fill
/// has left behind, other than `cur`, has no `from` neighbour left.
spec fn fill_inv(
    g0: Seq<Seq<Tile>>,
    g: Seq<Seq<Tile>>,
    from: Tile,
    to: Tile,
    start: Cell,
    work: Seq<(usize, usize)>,
    cur: Option<Cell>,
) -> bool {
    &&& from != to
    &&& in_grid(g0, start)
    &&& relabeled(g0, g, from, to)
    &&& forall|c: Cell| #[trigger] marked(g0, g, c) ==> connected(g0, from, start, c)
    &&& forall|i: int|
        0 <= i < work.len() ==> in_grid(g0, cell_of(#[trigger] work[i])) && connected(
            g0,
            from,
            start,
            cell_of(work[i]),
        )
    &&& tile_at(g0, start) == from ==> tile_at(g, start) == to
    &&& forall|c: Cell|
        (c == start || marked(g0, g, c)) && !pending(work, c) && cur != Some(c)
            ==> #[trigger] expanded(g0, g, from, c)
}

/// Looks at the neighbour `(nx, ny)` of `cur` in direction `d`; if it still
/// holds `from`, relabels it and puts it on the worklist.
fn visit(
    map: &mut Vec<Vec<Tile>>,
    work: &mut Vec<(usize, usize)>,
    nx: usize,
    ny: usize,
    from: Tile,
    to: Tile,
    Ghost(g0): Ghost<Seq<Seq<Tile>>>,
    Ghost(start): Ghost<Cell>,
    Ghost(cur): Ghost<Cell>,
    Ghost(d): Ghost<Direction>,
)
    requires
        fill_inv(g0, grid_of(old(map)@), from, to, start, old(work)@, Some(cur)),
        connected(g0, from, start, cur),
        cur.shifted(d) == (Cell { x: nx as int, y: ny as int }),
        in_grid(g0, cur.shifted(d)),
    ensures
        fill_inv(g0, grid_of(final(map)@), from, to, start, final(work)@, Some(cur)),
        expanded_toward(g0, grid_of(final(map)@), from, cur, d),
        forall|e: Direction|
            expanded_toward(g0, grid_of(old(map)@), from, cur, e) ==> expanded_toward(
                g0,
                grid_of(final(map)@),
                from,
                cur,
                e,
            ),
        grid_count(grid_of(final(map)@), from) <= grid_count(grid_of(old(map)@), from),
        grid_count(grid_of(final(map)@), from) == grid_count(grid_of(old(map)@), from)
            ==> final(work)@ == old(work)@,
{
    let ghost g = grid_of(map@);
    let ghost n = Cell { x: nx as int, y: ny as int };
    assert(in_grid(g0, n));
    assert(map[ny as int]@ == g[ny as int]);
    if map[ny][nx] == from {
        let ghost w = work@;
        mark(map, nx, ny, from, to);
        work.push((nx, ny));
        proof {
            let g1 = grid_of(map@);
            let w1 = work@;
            assert(tile_at(g, n) == from);
            assert(tile_at(g0, n) == from);
            lemma_connected_step(g0, from, start, cur, d);
            assert(cell_of(w1[w.len() as int]) == n);
            assert(pending(w1, n));
            assert forall|c: Cell| in_grid(g0, c) implies tile_at(g1, c) == (if c == n {
                to
            } else {
                tile_at(g, c)
            }) by {}
            assert(relabeled(g0, g1, from, to));
            assert forall|c: Cell| #[trigger] marked(g0, g1, c) implies connected(
                g0,
                from,
                start,
                c,
            ) by {
                if c != n {
                    assert(marked(g0, g, c));
                }
            }
            assert forall|i: int| 0 <= i < w1.len() implies in_grid(
                g0,
                cell_of(#[trigger] w1[i]),
            ) && connected(g0, from, start, cell_of(w1[i])) by {
                if i < w.len() {
                    assert(w1[i] == w[i]);
                }
            }
            assert forall|c: Cell|
                (c == start || marked(g0, g1, c)) && !pending(w1, c) && Some(cur) != Some(
                    c,
                ) implies #[trigger] expanded(g0, g1, from, c) by {
                assert(c != n);
                if marked(g0, g1, c) {
                    assert(marked(g0, g, c));
                }
                if pending(w, c) {
                    let i = choose|i: int| 0 <= i < w.len() && cell_of(#[trigger] w[i]) == c;
                    assert(w1[i] == w[i]);
                    assert(pending(w1, c));
                }
                assert(expanded(g0, g, from, c));
                assert forall|e: Direction| #[trigger] expanded_toward(g0, g1, from, c, e) by {
                    assert(expanded_toward(g0, g, from, c, e));
                }
            }
        }
    }
}

/// Once nothing waits, every cell on a walk from `start` has been relabeled.
proof fn lemma_fill_complete(
    g0: Seq<Seq<Tile>>,
    g: Seq<Seq<Tile>>,
    from: Tile,
    to: Tile,
    start: Cell,
    path: Seq<Cell>,
    i: int,
)
    requires
        fill_inv(g0, g, from, to, start, Seq::empty(), None),
        is_path(g0, from, path),
        path[0] == start,
        1 <= i < path.len(),
    ensures
        tile_at(g, path[i]) == to,
    decreases i,
{
    let prev = path[i - 1];
    let here = path[i];
    if i > 1 {
        lemma_fill_complete(g0, g, from, to, start, path, i - 1);
        assert(in_grid(g0, path[i - 1]));
        assert(marked(g0, g, prev));
    }
    assert(!pending(Seq::<(usize, usize)>::empty(), prev));
    assert(expanded(g0, g, from, prev));
    assert(prev.adjacent(here));
    let d = choose|d: Direction| here == prev.shifted(d);
    assert(expanded_toward(g0, g, from, prev, d));
    assert(in_grid(g0, here));
}

/// Relabels as `to` every `from` tile that a walk through `from` tiles
/// joins to the cell `(x, y)`, that cell included, and leaves every other
/// tile as it was.
pub fn floodfill(map: &mut Vec<Vec<Tile>>, from: Tile, to: Tile, x: usize, y: usize)
    requires
        y < old(map).len(),
        x < old(map)[y as int].len(),
        rectangular(grid_of(old(map)@), old(map)[y as int].len() as nat),
    ensures
        grid_of(final(map)@) == filled(
            grid_of(old(map)@),
            from,
            to,
            Cell { x: x as int, y: y as int },
        ),
{
    let ghost g0 = grid_of(map@);
    let ghost start = Cell { x: x as int, y: y as int };
    if from == to {
        assert(g0 =~~= filled(g0, from, to, start));
        return ;
    }
    let height = map.len();
    let width = map[y].len();
    let mut work: Vec<(usize, usize)> = Vec::new();
    if map[y][x] == from {
        mark(map, x, y, from, to);
    }
    work.push((x, y));
    proof {
        let g = grid_of(map@);
        lemma_connected_start(g0, from, start);
        assert(cell_of(work@[0]) == start);
        assert(pending(work@, start));
        assert forall|c: Cell| #[trigger] marked(g0, g, c) implies c == start by {}
    }
    while work.len() > 0
        invariant
            height == map.len(),
            rectangular(g0, width as nat),
            fill_inv(g0, grid_of(map@), from, to, start, work@, None),
        decreases grid_count(grid_of(map@), from), work.len(),
    {
        let ghost w = work@;
        let ghost g = grid_of(map@);
        let (cx, cy) = work.pop().unwrap();
        let ghost cur = Cell { x: cx as int, y: cy as int };
        proof {
            assert(cell_of(w[w.len() - 1]) == cur);
            assert forall|c: Cell| pending(work@, c) implies pending(w, c) by {
                let i = choose|i: int| 0 <= i < work@.len() && cell_of(#[trigger] work@[i]) == c;
                assert(w[i] == work@[i]);
            }
            assert forall|c: Cell| c != cur && pending(w, c) implies pending(work@, c) by {
                let i = choose|i: int| 0 <= i < w.len() && cell_of(#[trigger] w[i]) == c;
                assert(work@[i] == w[i]);
            }
            assert(fill_inv(g0, g, from, to, start, work@, Some(cur)));
            assert(g[cy as int].len() == width);
            assert(cur.shifted(Direction::Left) == Cell { x: cx - 1, y: cy as int });
            assert(cur.shifted(Direction::Right) == Cell { x: cx + 1, y: cy as int });
            assert(cur.shifted(Direction::Up) == Cell { x: cx as int, y: cy - 1 });
            assert(cur.shifted(Direction::Down) == Cell { x: cx as int, y: cy + 1 });
        }
        if cx > 0 {
            visit(map, &mut work, cx - 1, cy, from, to, Ghost(g0), Ghost(start), Ghost(cur), Ghost(Direction::Left));
        }
        if cx + 1 < width {
            visit(map, &mut work, cx + 1, cy, from, to, Ghost(g0), Ghost(start), Ghost(cur), Ghost(Direction::Right));
        }
        if cy > 0 {
            visit(map, &mut work, cx, cy - 1, from, to, Ghost(g0), Ghost(start), Ghost(cur), Ghost(Direction::Up));
        }
        if cy + 1 < height {
            visit(map, &mut work, cx, cy + 1, from, to, Ghost(g0), Ghost(start), Ghost(cur), Ghost(Direction::Down));
        }
        proof {
            let g1 = grid_of(map@);
            assert forall|d: Direction| #[trigger] expanded_toward(g0, g1, from, cur, d) by {
                match d {
                    Direction::Left => {},
                    Direction::Right => {},
                    Direction::Up => {},
                    Direction::Down => {},
                }
            }
            assert(expanded(g0, g1, from, cur));
        }
    }
    proof {
        let g = grid_of(map@);
        assert(work@ =~= Seq::<(usize, usize)>::empty());
        assert forall|c: Cell| in_grid(g0, c) implies tile_at(g, c) == filled_tile(
            g0,
            from,
            to,
            start,
            c,
        ) by {
            if marked(g0, g, c) {
            } else if tile_at(g0, c) == from && connected(g0, from, start, c) {
                let path = choose|path: Seq<Cell>|
                    #[trigger] is_path(g0, from, path) && path[0] == start && path.last() == c;
                if path.len() > 1 {
                    lemma_fill_complete(g0, g, from, to, start, path, path.len() - 1);
                }
            }
        }
        assert forall|r: int, k: int| 0 <= r < g.len() && 0 <= k < g[r].len() implies g[r][k]
            == filled(g0, from, to, start)[r][k] by {
            assert(in_grid(g0, Cell { x: k, y: r }));
            assert(tile_at(g, Cell { x: k, y: r }) == g[r][k]);
        }
        assert(g =~~= filled(g0, from, to, start));
    }
}

} // verus!
