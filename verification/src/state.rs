//! The movable and fixed entities of a level and the per-session state.

use vstd::prelude::*;
use crate::grid::{Cell, Direction, Position};

verus! {

/// The controllable entity: where it stands and which way it faces.
#[derive(Debug, Clone, Copy, PartialEq, Eq, Structural)]
pub struct Player {
    pub position: Position,
    pub direction: Direction,
}

impl Player {
    pub fn new(position: Position, direction: Direction) -> (p: Player)
        ensures
            p.position == position,
            p.direction == direction,
    {
        Player { position, direction }
    }

    /// The player one step further in `direction`, facing that way.
    pub fn move_in_direction(&self, direction: Direction) -> (p: Player)
        requires
            self.position.can_move(direction),
        ensures
            p.position@ == self.position@.shifted(direction),
            p.direction == direction,
    {
        Player::new(self.position.move_in_direction(direction), direction)
    }
}

/// A movable box. Boxes have no identity beyond the cell they occupy.
#[derive(Debug, Clone, Copy, PartialEq, Eq, Structural)]
pub struct Star {
    pub position: Position,
}

impl Star {
    pub fn new(position: Position) -> (s: Star)
        ensures
            s.position == position,
    {
        Star { position }
    }

    /// The box one step further in `direction`.
    pub fn move_in_direction(&self, direction: Direction) -> (s: Star)
        requires
            self.position.can_move(direction),
        ensures
            s.position@ == self.position@.shifted(direction),
    {
        Star::new(self.position.move_in_direction(direction))
    }
}

/// A fixed target cell for a box.
#[derive(Debug, Clone, Copy, PartialEq, Eq, Structural)]
pub struct Goal {
    pub position: Position,
}

impl Goal {
    pub fn new(position: Position) -> (g: Goal)
        ensures
            g.position == position,
    {
        Goal { position }
    }
}

/// The cells occupied by a sequence of boxes, in the same order.
pub open spec fn star_cells(stars: Seq<Star>) -> Seq<Cell> {
    Seq::new(stars.len(), |i: int| stars[i].position@)
}

/// The cells marked by a sequence of goals, in the same order.
pub open spec fn goal_cells(goals: Seq<Goal>) -> Seq<Cell> {
    Seq::new(goals.len(), |i: int| goals[i].position@)
}

/// Mathematical model of a game state.
pub ghost struct StateView {
    pub player: Cell,
    pub facing: Direction,
    pub boxes: Seq<Cell>,
    pub goals: Seq<Cell>,
    pub steps: nat,
}

impl StateView {
    /// No two boxes share a cell.
    pub open spec fn boxes_distinct(self) -> bool {
        self.boxes.no_duplicates()
    }

    /// No two goals share a cell.
    pub open spec fn goals_distinct(self) -> bool {
        self.goals.no_duplicates()
    }

    /// Every box sits on some goal.
    pub open spec fn solved(self) -> bool {
        forall|i: int| 0 <= i < self.boxes.len() ==> self.goals.contains(#[trigger] self.boxes[i])
    }
}

/// The mutable state of one play session.
#[derive(Debug, PartialEq, Eq)]
pub struct GameState {
    pub player: Player,
    pub stars: Vec<Star>,
    pub goals: Vec<Goal>,
    pub steps: usize,
}

impl View for GameState {
    type V = StateView;

    open spec fn view(&self) -> StateView {
        StateView {
            player: self.player.position@,
            facing: self.player.direction,
            boxes: star_cells(self.stars@),
            goals: goal_cells(self.goals@),
            steps: self.steps as nat,
        }
    }
}

impl Clone for GameState {
    fn clone(&self) -> (s: GameState)
        ensures
            s.player == self.player,
            s.stars@ == self.stars@,
            s.goals@ == self.goals@,
            s.steps == self.steps,
            s@ == self@,
    {
        GameState {
            player: self.player,
            stars: self.stars.clone(),
            goals: self.goals.clone(),
            steps: self.steps,
        }
    }
}

impl GameState {
    /// Whether one more move stays within machine integers: the player is
    /// at least two cells away from the ends of the coordinate range, and
    /// the step counter can still count.
    pub open spec fn within_limits(&self) -> bool {
        &&& i32::MIN + 2 <= self.player.position.x <= i32::MAX - 2
        &&& i32::MIN + 2 <= self.player.position.y <= i32::MAX - 2
        &&& self.steps < usize::MAX
    }

    /// Whether one more move stays within machine integers.
    pub fn has_room(&self) -> (b: bool)
        ensures
            b == self.within_limits(),
    {
        let p = self.player.position;
        p.x >= i32::MIN + 2 && p.x <= i32::MAX - 2 && p.y >= i32::MIN + 2 && p.y <= i32::MAX - 2
            && self.steps < usize::MAX
    }

    pub fn new(player: Player, stars: Vec<Star>, goals: Vec<Goal>, steps: usize) -> (s: GameState)
        ensures
            s.player == player,
            s.stars == stars,
            s.goals == goals,
            s.steps == steps,
    {
        GameState { player, stars, goals, steps }
    }
}

} // verus!
