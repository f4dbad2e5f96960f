//! What to draw where: the sprite of each thing on the sprite sheet, and
//! the list of copies from the sheet that shows a session.

use vstd::prelude::*;
use crate::game::{Game, TILE_HEIGHT, TILE_WIDTH};
use crate::grid::{Cell, Direction, Position};
use crate::level::LevelView;
use crate::state::{Player, StateView};
use crate::tile::Tile;
use crate::topology::grid_of;

verus! {

/// A rectangle on the sprite sheet: its top left corner and its size, in
/// pixels.
#[derive(Debug, Clone, Copy, PartialEq, Eq, Structural)]
pub struct SpriteRect {
    pub x: i32,
    pub y: i32,
    pub w: u32,
    pub h: u32,
}

/// Side of the goal marker, in pixels.
pub const GOAL_SIDE: u32 = 20;

/// Distance of the goal marker from the top left corner of its tile, in
/// pixels: what centres it.
pub const GOAL_INSET: i32 = 22;

/// The sprite of a tile. Walls, interior floor, boxes and goals have one.
pub open spec fn tile_sprite(t: Tile) -> SpriteRect {
    match t {
        Tile::Wall => SpriteRect { x: 448, y: 64, w: 64, h: 64 },
        Tile::Star => SpriteRect { x: 384, y: 0, w: 64, h: 64 },
        Tile::InsideFloor => SpriteRect { x: 192, y: 528, w: 64, h: 64 },
        _ => SpriteRect { x: 60, y: 576, w: 20, h: 20 },
    }
}

/// The sprite of the player facing `d`.
pub open spec fn player_sprite(d: Direction) -> SpriteRect {
    match d {
        Direction::Down => SpriteRect { x: 554, y: 208, w: 42, h: 50 },
        Direction::Left => SpriteRect { x: 543, y: 440, w: 45, h: 50 },
        Direction::Right => SpriteRect { x: 512, y: 108, w: 45, h: 50 },
        Direction::Up => SpriteRect { x: 554, y: 158, w: 42, h: 50 },
    }
}

impl Tile {
    /// Whether the tile has a sprite. The player's tiles and exterior
    /// floor have none.
    pub open spec fn has_sprite(self) -> bool {
        self != Tile::Player && self != Tile::OutsideFloor
    }

    /// Where on the sprite sheet the tile is drawn.
    pub fn spritesheet_rect(&self) -> (r: SpriteRect)
        requires
            self.has_sprite(),
        ensures
            r == tile_sprite(*self),
    {
        match *self {
            Tile::Wall => SpriteRect { x: 448, y: 64, w: 64, h: 64 },
            Tile::PlayerOnGoal | Tile::Goal | Tile::StarOnGoal => SpriteRect {
                x: 60,
                y: 576,
                w: 20,
                h: 20,
            },
            Tile::Star => SpriteRect { x: 384, y: 0, w: 64, h: 64 },
            _ => SpriteRect { x: 192, y: 528, w: 64, h: 64 },
        }
    }
}

impl Player {
    /// Where on the sprite sheet the player is drawn, by the way it faces.
    pub fn spritesheet_rect(&self) -> (r: SpriteRect)
        ensures
            r == player_sprite(self.direction),
    {
        match self.direction {
            Direction::Down => SpriteRect { x: 554, y: 208, w: 42, h: 50 },
            Direction::Left => SpriteRect { x: 543, y: 440, w: 45, h: 50 },
            Direction::Right => SpriteRect { x: 512, y: 108, w: 45, h: 50 },
            Direction::Up => SpriteRect { x: 554, y: 158, w: 42, h: 50 },
        }
    }
}

/// One copy from the sprite sheet onto the picture of a level: which
/// sprite, and the rectangle of the picture it goes to. The rectangle is
/// given by its top left corner, or by its centre where `centered` holds.
#[derive(Debug, Clone, Copy, PartialEq, Eq, Structural)]
pub struct Blit {
    pub sprite: SpriteRect,
    pub x: i32,
    pub y: i32,
    pub w: u32,
    pub h: u32,
    pub centered: bool,
}

/// Mathematical model of a blit.
pub ghost struct BlitView {
    pub sprite: SpriteRect,
    pub x: int,
    pub y: int,
    pub w: int,
    pub h: int,
    pub centered: bool,
}

impl View for Blit {
    type V = BlitView;

    open spec fn view(&self) -> BlitView {
        BlitView {
            sprite: self.sprite,
            x: self.x as int,
            y: self.y as int,
            w: self.w as int,
            h: self.h as int,
            centered: self.centered,
        }
    }
}

/// The views of a sequence of blits.
pub open spec fn blit_views(blits: Seq<Blit>) -> Seq<BlitView> {
    Seq::new(blits.len(), |i: int| blits[i]@)
}

/// A tile-sized sprite drawn over cell `c`.
pub open spec fn tile_blit(t: Tile, c: Cell) -> BlitView {
    BlitView {
        sprite: tile_sprite(t),
        x: c.x * TILE_WIDTH,
        y: c.y * TILE_HEIGHT,
        w: TILE_WIDTH as int,
        h: TILE_HEIGHT as int,
        centered: false,
    }
}

/// The goal marker drawn in the middle of cell `c`.
pub open spec fn goal_blit(c: Cell) -> BlitView {
    BlitView {
        sprite: tile_sprite(Tile::Goal),
        x: c.x * TILE_WIDTH + GOAL_INSET,
        y: c.y * TILE_HEIGHT + GOAL_INSET,
        w: GOAL_SIDE as int,
        h: GOAL_SIDE as int,
        centered: false,
    }
}

/// The player drawn around the centre of cell `c`, in the size of its
/// sprite.
pub open spec fn player_blit(c: Cell, d: Direction) -> BlitView {
    BlitView {
        sprite: player_sprite(d),
        x: c.x * TILE_WIDTH + TILE_WIDTH / 2,
        y: c.y * TILE_HEIGHT + TILE_HEIGHT / 2,
        w: player_sprite(d).w as int,
        h: player_sprite(d).h as int,
        centered: true,
    }
}

/// Whether a tile of the map is drawn. Exterior floor is not.
pub open spec fn drawn(t: Tile) -> bool {
    t == Tile::Wall || t == Tile::InsideFloor
}

/// The blits for the first `n` tiles of row `y`, from left to right.
pub open spec fn row_blits(row: Seq<Tile>, y: int, n: int) -> Seq<BlitView>
    decreases n,
{
    if n <= 0 {
        Seq::empty()
    } else if drawn(row[n - 1]) {
        row_blits(row, y, n - 1).push(tile_blit(row[n - 1], Cell { x: n - 1, y }))
    } else {
        row_blits(row, y, n - 1)
    }
}

/// The blits for the first `n` rows of a map, top row first.
pub open spec fn map_blits(tiles: Seq<Seq<Tile>>, n: int) -> Seq<BlitView>
    decreases n,
{
    if n <= 0 {
        Seq::empty()
    } else {
        map_blits(tiles, n - 1) + row_blits(tiles[n - 1], n - 1, tiles[n - 1].len() as int)
    }
}

/// Everything that is drawn for a session, in drawing order: the map, the
/// goals, the boxes, and last the player.
pub open spec fn scene(level: LevelView, s: StateView) -> Seq<BlitView> {
    map_blits(level.tiles, level.tiles.len() as int) + Seq::new(
        s.goals.len(),
        |i: int| goal_blit(s.goals[i]),
    ) + Seq::new(s.boxes.len(), |i: int| tile_blit(Tile::Star, s.boxes[i])) + seq![
        player_blit(s.player, s.facing),
    ]
}

/// Whether the pixels of cell `c` have coordinates that fit machine
/// integers.
pub open spec fn cell_fits(c: Cell) -> bool {
    &&& i32::MIN <= c.x * TILE_WIDTH
    &&& c.x * TILE_WIDTH + TILE_WIDTH <= i32::MAX
    &&& i32::MIN <= c.y * TILE_HEIGHT
    &&& c.y * TILE_HEIGHT + TILE_HEIGHT <= i32::MAX
}

/// Whether the pixels of the cell at `p` have coordinates that fit machine
/// integers.
fn position_fits(p: Position) -> (b: bool)
    ensures
        b == cell_fits(p@),
{
    let low = i32::MIN / 64;
    let high = (i32::MAX - 64) / 64;
    low <= p.x && p.x <= high && low <= p.y && p.y <= high
}

impl Game {
    /// Whether every pixel that is drawn for the session has coordinates
    /// that fit machine integers.
    pub open spec fn fits_picture(&self) -> bool {
        &&& self.level.width * TILE_WIDTH <= i32::MAX
        &&& self.level.height * TILE_HEIGHT <= i32::MAX
        &&& cell_fits(self.state@.player)
        &&& forall|i: int| 0 <= i < self.state@.boxes.len() ==> cell_fits(#[trigger] self.state@.boxes[i])
        &&& forall|i: int| 0 <= i < self.state@.goals.len() ==> cell_fits(#[trigger] self.state@.goals[i])
    }

    /// Whether the session can be drawn with machine integers.
    pub fn can_draw(&self) -> (b: bool)
        ensures
            b == self.fits_picture(),
    {
        let side = (i32::MAX / 64) as usize;
        if self.level.width > side || self.level.height > side {
            return false;
        }
        if !position_fits(self.state.player.position) {
            return false;
        }
        let mut i: usize = 0;
        while i < self.state.stars.len()
            invariant
                i <= self.state.stars.len(),
                forall|k: int| 0 <= k < i ==> cell_fits(#[trigger] self.state@.boxes[k]),
            decreases self.state.stars.len() - i,
        {
            if !position_fits(self.state.stars[i].position) {
                assert(!cell_fits(self.state@.boxes[i as int]));
                return false;
            }
            i = i + 1;
        }
        let mut j: usize = 0;
        while j < self.state.goals.len()
            invariant
                j <= self.state.goals.len(),
                forall|k: int| 0 <= k < j ==> cell_fits(#[trigger] self.state@.goals[k]),
            decreases self.state.goals.len() - j,
        {
            if !position_fits(self.state.goals[j].position) {
                assert(!cell_fits(self.state@.goals[j as int]));
                return false;
            }
            j = j + 1;
        }
        true
    }

    /// Width and height of the picture of the level, in pixels.
    pub fn picture_size(&self) -> (size: (u32, u32))
        requires
            self.fits_picture(),
        ensures
            size.0 == self.level.width * TILE_WIDTH,
            size.1 == self.level.height * TILE_HEIGHT,
    {
        ((self.level.width as u32) * 64, (self.level.height as u32) * 64)
    }

    /// The blits that draw the session onto a picture of the level, in the
    /// order in which they are to be made.
    pub fn draw_list(&self) -> (blits: Vec<Blit>)
        requires
            self.level.wf(),
            self.fits_picture(),
        ensures
            blit_views(blits@) == scene(self.level@, self.state@),
    {
        let ghost tiles = grid_of(self.level.map@);
        let mut blits: Vec<Blit> = Vec::new();
        let mut y: usize = 0;
        while y < self.level.map.len()
            invariant
                self.level.wf(),
                self.fits_picture(),
                tiles == grid_of(self.level.map@),
                y <= self.level.map.len(),
                blit_views(blits@) == map_blits(tiles, y as int),
            decreases self.level.map.len() - y,
        {
            let row = &self.level.map[y];
            let ghost before = blit_views(blits@);
            assert(row@ == tiles[y as int]);
            let mut x: usize = 0;
            while x < row.len()
                invariant
                    self.level.wf(),
                    self.fits_picture(),
                    tiles == grid_of(self.level.map@),
                    y < self.level.map.len(),
                    row@ == tiles[y as int],
                    x <= row.len(),
                    blit_views(blits@) == before + row_blits(row@, y as int, x as int),
                decreases row.len() - x,
            {
                let tile = row[x];
                let ghost so_far = blit_views(blits@);
                match tile {
                    Tile::Wall | Tile::InsideFloor => {
                        let blit = Blit {
                            sprite: tile.spritesheet_rect(),
                            x: (x as i32) * TILE_WIDTH,
                            y: (y as i32) * TILE_HEIGHT,
                            w: 64,
                            h: 64,
                            centered: false,
                        };
                        blits.push(blit);
                        assert(blit_views(blits@) =~= so_far.push(
                            tile_blit(tile, Cell { x: x as int, y: y as int }),
                        ));
                    },
                    _ => {},
                }
                x = x + 1;
                assert(blit_views(blits@) =~= before + row_blits(row@, y as int, x as int));
            }
            y = y + 1;
        }
        let ghost map_part = blit_views(blits@);
        let ghost goals = self.state@.goals;
        let mut i: usize = 0;
        while i < self.state.goals.len()
            invariant
                self.fits_picture(),
                goals == self.state@.goals,
                i <= self.state.goals.len(),
                blit_views(blits@) == map_part + Seq::new(i as nat, |k: int| goal_blit(goals[k])),
            decreases self.state.goals.len() - i,
        {
            let p = self.state.goals[i].position;
            assert(p@ == goals[i as int]);
            assert(cell_fits(goals[i as int]));
            let blit = Blit {
                sprite: Tile::Goal.spritesheet_rect(),
                x: p.x * TILE_WIDTH + GOAL_INSET,
                y: p.y * TILE_HEIGHT + GOAL_INSET,
                w: GOAL_SIDE,
                h: GOAL_SIDE,
                centered: false,
            };
            let ghost so_far = blit_views(blits@);
            blits.push(blit);
            assert(blit@ == goal_blit(goals[i as int]));
            assert(blit_views(blits@) =~= so_far.push(blit@));
            i = i + 1;
            assert(blit_views(blits@) =~= map_part + Seq::new(
                i as nat,
                |k: int| goal_blit(goals[k]),
            ));
        }
        let ghost goal_part = blit_views(blits@);
        let ghost boxes = self.state@.boxes;
        let mut j: usize = 0;
        while j < self.state.stars.len()
            invariant
                self.fits_picture(),
                boxes == self.state@.boxes,
                j <= self.state.stars.len(),
                blit_views(blits@) == goal_part + Seq::new(
                    j as nat,
                    |k: int| tile_blit(Tile::Star, boxes[k]),
                ),
            decreases self.state.stars.len() - j,
        {
            let p = self.state.stars[j].position;
            assert(p@ == boxes[j as int]);
            assert(cell_fits(boxes[j as int]));
            let blit = Blit {
                sprite: Tile::Star.spritesheet_rect(),
                x: p.x * TILE_WIDTH,
                y: p.y * TILE_HEIGHT,
                w: 64,
                h: 64,
                centered: false,
            };
            let ghost so_far = blit_views(blits@);
            blits.push(blit);
            assert(blit@ == tile_blit(Tile::Star, boxes[j as int]));
            assert(blit_views(blits@) =~= so_far.push(blit@));
            j = j + 1;
            assert(blit_views(blits@) =~= goal_part + Seq::new(
                j as nat,
                |k: int| tile_blit(Tile::Star, boxes[k]),
            ));
        }
        let ghost star_part = blit_views(blits@);
        let player = self.state.player;
        let sprite = player.spritesheet_rect();
        blits.push(
            Blit {
                sprite,
                x: player.position.x * TILE_WIDTH + TILE_WIDTH / 2,
                y: player.position.y * TILE_HEIGHT + TILE_HEIGHT / 2,
                w: sprite.w,
                h: sprite.h,
                centered: true,
            },
        );
        assert(blit_views(blits@) =~= star_part.push(
            player_blit(self.state@.player, self.state@.facing),
        ));
        assert(blit_views(blits@) =~= scene(self.level@, self.state@));
        blits
    }
}

} // verus!
