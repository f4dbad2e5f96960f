//! The play session: move resolution, blocking and the solved predicate.

use vstd::prelude::*;
use crate::camera::{lemma_wf_can_pan, Camera};
use crate::grid::{Cell, Direction, Position};
use crate::input::Input;
use crate::level::{Level, LevelView};
use crate::state::{goal_cells, star_cells, GameState, Goal, Star, StateView};

verus! {

/// Whether `i` is the first index at which `boxes` holds `c`.
pub open spec fn is_first_at(boxes: Seq<Cell>, c: Cell, i: int) -> bool {
    &&& 0 <= i < boxes.len()
    &&& boxes[i] == c
    &&& forall|j: int| 0 <= j < i ==> boxes[j] != c
}

/// The first index at which `boxes` holds `c`, where it holds `c` at all.
pub open spec fn first_at(boxes: Seq<Cell>, c: Cell) -> int {
    choose|i: int| is_first_at(boxes, c, i)
}

/// Whether cell `c` cannot take a box: a wall or a box is there.
pub open spec fn blocked(level: LevelView, s: StateView, c: Cell) -> bool {
    level.is_wall(c) || s.boxes.contains(c)
}

/// State `s` with the player turned to face `d`. This is what a rejected
/// move leaves.
pub open spec fn turned(s: StateView, d: Direction) -> StateView {
    StateView { player: s.player, facing: d, boxes: s.boxes, goals: s.goals, steps: s.steps }
}

/// Whether a move in direction `d` is rejected: a wall is ahead, or a box
/// that has a wall or another box behind it.
pub open spec fn rejected(level: LevelView, s: StateView, d: Direction) -> bool {
    let target = s.player.shifted(d);
    level.is_wall(target) || (s.boxes.contains(target) && blocked(level, s, target.shifted(d)))
}

/// Whether a move in direction `d` pushes a box.
pub open spec fn pushes(level: LevelView, s: StateView, d: Direction) -> bool {
    let target = s.player.shifted(d);
    !level.is_wall(target) && s.boxes.contains(target) && !blocked(level, s, target.shifted(d))
}

/// The transition: the state after a move in direction `d` is attempted.
///
/// The player always turns to face `d`. A rejected move changes nothing
/// else. An accepted move takes the player one cell in direction `d`,
/// takes the first box found on that cell one cell further, and counts one
/// step.
pub open spec fn after_move(level: LevelView, s: StateView, d: Direction) -> StateView {
    let target = s.player.shifted(d);
    if rejected(level, s, d) {
        turned(s, d)
    } else {
        StateView {
            player: target,
            facing: d,
            boxes: if s.boxes.contains(target) {
                s.boxes.update(first_at(s.boxes, target), target.shifted(d))
            } else {
                s.boxes
            },
            goals: s.goals,
            steps: s.steps + 1,
        }
    }
}

/// The state reached from `s` by attempting `moves` in order.
pub open spec fn run(level: LevelView, s: StateView, moves: Seq<Direction>) -> StateView
    decreases moves.len(),
{
    if moves.len() == 0 {
        s
    } else {
        after_move(level, run(level, s, moves.drop_last()), moves.last())
    }
}

/// A sequence that holds `c` holds it at a first index.
pub proof fn lemma_first_at(boxes: Seq<Cell>, c: Cell)
    requires
        boxes.contains(c),
    ensures
        is_first_at(boxes, c, first_at(boxes, c)),
    decreases boxes.len(),
{
    let i = choose|i: int| 0 <= i < boxes.len() && boxes[i] == c;
    if exists|j: int| 0 <= j < i && boxes[j] == c {
        let shorter = boxes.take(i);
        let j = choose|j: int| 0 <= j < i && boxes[j] == c;
        assert(shorter[j] == c);
        lemma_first_at(shorter, c);
        let k = first_at(shorter, c);
        assert(boxes[k] == shorter[k]);
        assert forall|m: int| 0 <= m < k implies boxes[m] != c by {
            assert(shorter[m] == boxes[m]);
        }
        assert(is_first_at(boxes, c, k));
    } else {
        assert(is_first_at(boxes, c, i));
    }
}

/// Half of the view's width, in pixels.
pub const HALF_WIDTH: i32 = 450;

/// Half of the view's height, in pixels.
pub const HALF_HEIGHT: i32 = 337;

/// Width of a tile, in pixels.
pub const TILE_WIDTH: i32 = 64;

/// Height of a tile, in pixels.
pub const TILE_HEIGHT: i32 = 64;

/// How far the camera may pan along an axis on which the view is `half`
/// pixels from edge to centre and the level has `cells` cells.
pub open spec fn pan_limit(half: int, cells: int, tile: int) -> int {
    let d = half - cells / 2;
    (if d < 0 {
        -d
    } else {
        d
    }) + tile
}

fn pan_limit_of(half: i32, cells: usize, tile: i32) -> (limit: i32)
    requires
        0 <= half <= 1000,
        0 <= tile <= 1000,
        cells <= i32::MAX,
    ensures
        limit == pan_limit(half as int, cells as int, tile as int),
        0 <= limit <= i32::MAX - 1000,
{
    let d: i32 = half - (cells / 2) as i32;
    if d < 0 {
        -d + tile
    } else {
        d + tile
    }
}

/// The index of the first box on position `p`, if there is one.
fn find_star(stars: &Vec<Star>, p: Position) -> (r: Option<usize>)
    ensures
        match r {
            Some(i) => is_first_at(star_cells(stars@), p@, i as int),
            None => !star_cells(stars@).contains(p@),
        },
{
    let mut i: usize = 0;
    while i < stars.len()
        invariant
            i <= stars.len(),
            forall|j: int| 0 <= j < i ==> star_cells(stars@)[j] != p@,
        decreases stars.len() - i,
    {
        if stars[i].position.x == p.x && stars[i].position.y == p.y {
            assert(star_cells(stars@)[i as int] == p@);
            return Some(i);
        }
        i = i + 1;
    }
    None
}

/// Whether some goal marks position `p`.
fn has_goal(goals: &Vec<Goal>, p: Position) -> (b: bool)
    ensures
        b == goal_cells(goals@).contains(p@),
{
    let mut i: usize = 0;
    while i < goals.len()
        invariant
            i <= goals.len(),
            forall|j: int| 0 <= j < i ==> goal_cells(goals@)[j] != p@,
        decreases goals.len() - i,
    {
        if goals[i].position.x == p.x && goals[i].position.y == p.y {
            assert(goal_cells(goals@)[i as int] == p@);
            return true;
        }
        i = i + 1;
    }
    false
}

/// One play session on a level, with the camera that looks at it.
#[derive(Debug, PartialEq, Eq)]
pub struct Game {
    pub level: Level,
    pub state: GameState,
    pub camera: Camera,
    pub camera_moving: bool,
    pub camera_direction: Direction,
}

impl Clone for Game {
    fn clone(&self) -> (g: Game)
        ensures
            g.level@ == self.level@,
            g.state@ == self.state@,
            g.camera == self.camera,
            g.camera_moving == self.camera_moving,
            g.camera_direction == self.camera_direction,
    {
        Game {
            level: self.level.clone(),
            state: self.state.clone(),
            camera: self.camera,
            camera_moving: self.camera_moving,
            camera_direction: self.camera_direction,
        }
    }
}

impl Game {
    pub fn new(level: Level, state: GameState, camera: Camera) -> (g: Game)
        ensures
            g.level == level,
            g.state == state,
            g.camera == camera,
            !g.camera_moving,
            g.camera_direction == Direction::Left,
    {
        Game { level, state, camera, camera_moving: false, camera_direction: Direction::Left }
    }

    /// Starts a session on `level`: the state is the level's start state,
    /// and the camera rests at the centre with pan limits that grow with
    /// the distance between the view's and the level's half sides.
    pub fn from_level(level: Level) -> (g: Game)
        requires
            level.wf(),
        ensures
            g.level == level,
            g.state@ == level@.start,
            g.camera.x_offset == 0,
            g.camera.y_offset == 0,
            g.camera.max_x_pan == pan_limit(
                HALF_HEIGHT as int,
                level.height as int,
                TILE_HEIGHT as int,
            ),
            g.camera.max_y_pan == pan_limit(
                HALF_WIDTH as int,
                level.width as int,
                TILE_WIDTH as int,
            ),
            g.camera.speed == 5,
            g.camera.wf(),
            !g.camera_moving,
            g.camera_direction == Direction::Left,
    {
        let max_x_pan = pan_limit_of(HALF_HEIGHT, level.height, TILE_HEIGHT);
        let max_y_pan = pan_limit_of(HALF_WIDTH, level.width, TILE_WIDTH);
        let state = level.start_state.clone();
        Game::new(level, state, Camera::new(0, 0, max_x_pan, max_y_pan, 5))
    }

    /// Whether the cell `(x, y)` cannot take a box: a wall or a box is
    /// there.
    pub fn is_blocked(&self, x: i32, y: i32) -> (b: bool)
        requires
            self.level.wf(),
        ensures
            b == blocked(self.level@, self.state@, Cell { x: x as int, y: y as int }),
    {
        self.level.is_wall(x, y) || find_star(&self.state.stars, Position::new(x, y)).is_some()
    }

    /// Whether every box sits on a goal.
    pub fn solved(&self) -> (b: bool)
        ensures
            b == self.state@.solved(),
    {
        let mut i: usize = 0;
        while i < self.state.stars.len()
            invariant
                i <= self.state.stars.len(),
                forall|j: int|
                    0 <= j < i ==> self.state@.goals.contains(#[trigger] self.state@.boxes[j]),
            decreases self.state.stars.len() - i,
        {
            if !has_goal(&self.state.goals, self.state.stars[i].position) {
                assert(!self.state@.goals.contains(self.state@.boxes[i as int]));
                return false;
            }
            i = i + 1;
        }
        true
    }
}

impl Game {
    /// Attempts one move of the player in `direction`.
    ///
    /// The player turns to face `direction` in any case. A wall ahead, or a
    /// box ahead with a wall or another box behind it, rejects the move, and
    /// nothing else changes. Otherwise the player advances one cell, a box
    /// on that cell advances one cell too, and the step counter grows by
    /// one.
    pub fn make_move(&mut self, direction: Direction)
        requires
            old(self).level.wf(),
            old(self).state.within_limits(),
        ensures
            final(self).state@ == after_move(old(self).level@, old(self).state@, direction),
            final(self).state@.facing == direction,
            final(self).state@.goals == old(self).state@.goals,
            final(self).state@.boxes.len() == old(self).state@.boxes.len(),
            rejected(old(self).level@, old(self).state@, direction) ==> final(self).state@
                == turned(old(self).state@, direction),
            !rejected(old(self).level@, old(self).state@, direction) ==> {
                &&& final(self).state@.player == old(self).state@.player.shifted(direction)
                &&& final(self).state@.steps == old(self).state@.steps + 1
            },
            pushes(old(self).level@, old(self).state@, direction) ==> final(self).state@.boxes
                == old(self).state@.boxes.update(
                first_at(old(self).state@.boxes, old(self).state@.player.shifted(direction)),
                old(self).state@.player.shifted(direction).shifted(direction),
            ),
            !pushes(old(self).level@, old(self).state@, direction) ==> final(self).state@.boxes
                == old(self).state@.boxes,
            old(self).state@.boxes_distinct() ==> final(self).state@.boxes_distinct(),
            final(self).state.goals == old(self).state.goals,
            final(self).level == old(self).level,
            final(self).camera == old(self).camera,
            final(self).camera_moving == old(self).camera_moving,
            final(self).camera_direction == old(self).camera_direction,
    {
        let ghost before = self.state@;
        let ghost target = before.player.shifted(direction);
        proof {
            if before.boxes_distinct() {
                lemma_after_move_keeps_boxes_distinct(self.level@, before, direction);
            }
        }
        self.state.player.direction = direction;
        let (x_off, y_off) = direction.as_offset();
        let new_x = self.state.player.position.x + x_off;
        let new_y = self.state.player.position.y + y_off;
        if !self.level.is_wall(new_x, new_y) {
            match find_star(&self.state.stars, Position::new(new_x, new_y)) {
                Some(ind) => {
                    if !self.is_blocked(new_x + x_off, new_y + y_off) {
                        let moved = self.state.stars[ind].move_in_direction(direction);
                        self.state.stars[ind] = moved;
                        proof {
                            lemma_first_at(before.boxes, target);
                            assert(first_at(before.boxes, target) == ind);
                            assert(self.state@.boxes =~= before.boxes.update(
                                ind as int,
                                target.shifted(direction),
                            ));
                        }
                    } else {
                        assert(self.state@ == turned(before, direction));
                        return ;
                    }
                },
                None => {},
            }
            self.state.player = self.state.player.move_in_direction(direction);
            self.state.steps = self.state.steps + 1;
        }
    }

    /// Pans the camera in direction `dir`, and notes that it is panning and
    /// which way.
    pub fn move_camera(&mut self, dir: Direction)
        requires
            old(self).camera.can_pan(dir),
        ensures
            final(self).camera_direction == dir,
            final(self).camera_moving,
            final(self).camera == old(self).camera.pan(dir),
            old(self).camera.wf() ==> final(self).camera.wf(),
            final(self).level == old(self).level,
            final(self).state == old(self).state,
    {
        self.camera_direction = dir;
        self.camera_moving = true;
        match dir {
            Direction::Up => self.camera.move_up(),
            Direction::Down => self.camera.move_down(),
            Direction::Left => self.camera.move_left(),
            Direction::Right => self.camera.move_right(),
        }
    }
}

impl Game {
    /// The camera after the drift that precedes every input: while it is
    /// panning, it pans once more the way it last did.
    pub open spec fn drifted(&self) -> Camera {
        if self.camera_moving {
            self.camera.pan(self.camera_direction)
        } else {
            self.camera
        }
    }

    /// Handles one input. A panning camera first pans once more. Then a
    /// released key stops the panning, a move key attempts a move of the
    /// player, a pan key pans the camera, and anything else does nothing.
    pub fn step(&mut self, input: Input)
        requires
            old(self).level.wf(),
            old(self).camera.wf(),
            input is Move ==> old(self).state.within_limits(),
        ensures
            final(self).level == old(self).level,
            final(self).camera.wf(),
            match input {
                Input::KeyUp => {
                    &&& final(self).camera == old(self).drifted()
                    &&& !final(self).camera_moving
                    &&& final(self).camera_direction == old(self).camera_direction
                    &&& final(self).state == old(self).state
                },
                Input::Move(d) => {
                    &&& final(self).camera == old(self).drifted()
                    &&& final(self).camera_moving == old(self).camera_moving
                    &&& final(self).camera_direction == old(self).camera_direction
                    &&& final(self).state@ == after_move(old(self).level@, old(self).state@, d)
                    &&& final(self).state.goals == old(self).state.goals
                },
                Input::Pan(d) => {
                    &&& final(self).camera == old(self).drifted().pan(d)
                    &&& final(self).camera_moving
                    &&& final(self).camera_direction == d
                    &&& final(self).state == old(self).state
                },
                Input::Other => {
                    &&& final(self).camera == old(self).drifted()
                    &&& final(self).camera_moving == old(self).camera_moving
                    &&& final(self).camera_direction == old(self).camera_direction
                    &&& final(self).state == old(self).state
                },
            },
    {
        if self.camera_moving {
            let d = self.camera_direction;
            proof {
                lemma_wf_can_pan(self.camera, d);
            }
            self.move_camera(d);
        }
        match input {
            Input::KeyUp => {
                self.camera_moving = false;
            },
            Input::Move(d) => {
                self.make_move(d);
            },
            Input::Pan(d) => {
                proof {
                    lemma_wf_can_pan(self.camera, d);
                }
                self.move_camera(d);
            },
            Input::Other => {},
        }
    }
}

/// A move keeps boxes on pairwise distinct cells.
pub proof fn lemma_after_move_keeps_boxes_distinct(level: LevelView, s: StateView, d: Direction)
    requires
        s.boxes_distinct(),
    ensures
        after_move(level, s, d).boxes_distinct(),
{
    let target = s.player.shifted(d);
    if !rejected(level, s, d) && s.boxes.contains(target) {
        lemma_first_at(s.boxes, target);
        let i = first_at(s.boxes, target);
        let beyond = target.shifted(d);
        let after = s.boxes.update(i, beyond);
        assert forall|a: int, b: int| 0 <= a < after.len() && 0 <= b < after.len() && a
            != b implies after[a] != after[b] by {
            if a != i && b != i {
                assert(after[a] == s.boxes[a] && after[b] == s.boxes[b]);
            } else if a == i {
                assert(s.boxes.contains(s.boxes[b]));
            } else {
                assert(s.boxes.contains(s.boxes[a]));
            }
        }
    }
}

/// A move into a wall leaves the player and every box where they were; the
/// player faces the way of the move.
pub proof fn lemma_wall_rejects(level: LevelView, s: StateView, d: Direction)
    requires
        level.is_wall(s.player.shifted(d)),
    ensures
        after_move(level, s, d).player == s.player,
        after_move(level, s, d).boxes == s.boxes,
        after_move(level, s, d).facing == d,
        after_move(level, s, d) == turned(s, d),
{
}

/// A push of a box against a wall or against another box changes nothing
/// but the way the player faces.
pub proof fn lemma_blocked_push_rejects(level: LevelView, s: StateView, d: Direction)
    requires
        s.boxes.contains(s.player.shifted(d)),
        level.is_wall(s.player.shifted(d).shifted(d)) || s.boxes.contains(
            s.player.shifted(d).shifted(d),
        ),
    ensures
        after_move(level, s, d) == turned(s, d),
{
}

/// A push onto a free cell takes the player and the pushed box one cell
/// each in the direction of the move, leaves every other box where it was,
/// and counts exactly one step.
pub proof fn lemma_push_moves_both(level: LevelView, s: StateView, d: Direction, i: int)
    requires
        pushes(level, s, d),
        is_first_at(s.boxes, s.player.shifted(d), i),
    ensures
        after_move(level, s, d).player == s.player.shifted(d),
        after_move(level, s, d).facing == d,
        after_move(level, s, d).boxes.len() == s.boxes.len(),
        after_move(level, s, d).boxes[i] == s.boxes[i].shifted(d),
        forall|j: int|
            0 <= j < s.boxes.len() && j != i ==> after_move(level, s, d).boxes[j] == s.boxes[j],
        after_move(level, s, d).steps == s.steps + 1,
        after_move(level, s, d).goals == s.goals,
{
    lemma_first_at(s.boxes, s.player.shifted(d));
}

/// A step onto a free cell takes the player there, leaves every box where
/// it was, and counts exactly one step.
pub proof fn lemma_free_step(level: LevelView, s: StateView, d: Direction)
    requires
        !level.is_wall(s.player.shifted(d)),
        !s.boxes.contains(s.player.shifted(d)),
    ensures
        after_move(level, s, d).player == s.player.shifted(d),
        after_move(level, s, d).facing == d,
        after_move(level, s, d).boxes == s.boxes,
        after_move(level, s, d).steps == s.steps + 1,
        after_move(level, s, d).goals == s.goals,
{
}

/// Whatever moves are attempted from a state whose boxes stand on pairwise
/// distinct cells, the boxes still do; there are as many as before; and
/// the goals are the same.
pub proof fn lemma_run_keeps_boxes_distinct(level: LevelView, s: StateView, moves: Seq<Direction>)
    requires
        s.boxes_distinct(),
    ensures
        run(level, s, moves).boxes_distinct(),
        run(level, s, moves).boxes.len() == s.boxes.len(),
        run(level, s, moves).goals == s.goals,
    decreases moves.len(),
{
    if moves.len() > 0 {
        let before = run(level, s, moves.drop_last());
        lemma_run_keeps_boxes_distinct(level, s, moves.drop_last());
        lemma_after_move_keeps_boxes_distinct(level, before, moves.last());
        if before.boxes.contains(before.player.shifted(moves.last())) {
            lemma_first_at(before.boxes, before.player.shifted(moves.last()));
        }
    }
}

/// In every state that play can reach from the start state of a level, no
/// two boxes share a cell.
pub proof fn lemma_reachable_boxes_distinct(level: LevelView, moves: Seq<Direction>)
    requires
        level.wf(),
    ensures
        run(level, level.start, moves).boxes_distinct(),
{
    lemma_run_keeps_boxes_distinct(level, level.start, moves);
}

/// With boxes on pairwise distinct cells, the cells of the boxes are the
/// cells of the goals exactly when every box sits on a goal and there are
/// as many boxes as cells with a goal. So where there are as many boxes as
/// goals, and no two goals share a cell, a state is solved exactly when the
/// boxes cover the goals.
pub proof fn lemma_solved_iff_boxes_cover_goals(s: StateView)
    requires
        s.boxes_distinct(),
    ensures
        s.boxes.to_set() == s.goals.to_set() <==> s.solved() && s.boxes.len()
            == s.goals.to_set().len(),
        s.goals_distinct() ==> s.goals.to_set().len() == s.goals.len(),
        s.goals_distinct() && s.boxes.len() == s.goals.len() ==> (s.solved() <==> s.boxes.to_set()
            == s.goals.to_set()),
{
    let boxes = s.boxes.to_set();
    let goals = s.goals.to_set();
    vstd::seq_lib::seq_to_set_is_finite(s.boxes);
    vstd::seq_lib::seq_to_set_is_finite(s.goals);
    s.boxes.unique_seq_to_set();
    if s.goals_distinct() {
        s.goals.unique_seq_to_set();
    }
    if boxes == goals {
        assert forall|i: int| 0 <= i < s.boxes.len() implies s.goals.contains(
            #[trigger] s.boxes[i],
        ) by {
            assert(boxes.contains(s.boxes[i]));
            assert(goals.contains(s.boxes[i]));
        }
    }
    if s.solved() && s.boxes.len() == goals.len() {
        assert forall|c: Cell| boxes.contains(c) implies goals.contains(c) by {
            let i = choose|i: int| 0 <= i < s.boxes.len() && s.boxes[i] == c;
            assert(s.goals.contains(s.boxes[i]));
        }
        assert(boxes.subset_of(goals));
        vstd::set_lib::lemma_subset_equality(boxes, goals);
    }
}

} // verus!
