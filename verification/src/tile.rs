//! Tile kinds and the level-text legend.

use vstd::prelude::*;
use vstd::string::*;

verus! {

/// A cell kind. `Wall`, `OutsideFloor` and `InsideFloor` are the kinds a
/// finished map holds; the others only occur while level text is read.
#[derive(Debug, Clone, Copy, PartialEq, Eq, Structural)]
pub enum Tile {
    Wall,
    Player,
    PlayerOnGoal,
    Star,
    StarOnGoal,
    Goal,
    OutsideFloor,
    InsideFloor,
}

/// The legend: which tile a character of level text stands for, if any.
pub open spec fn tile_of_char(c: char) -> Option<Tile> {
    if c == '#' {
        Some(Tile::Wall)
    } else if c == '@' {
        Some(Tile::Player)
    } else if c == '+' {
        Some(Tile::PlayerOnGoal)
    } else if c == '$' {
        Some(Tile::Star)
    } else if c == '*' {
        Some(Tile::StarOnGoal)
    } else if c == '.' {
        Some(Tile::Goal)
    } else if c == ' ' {
        Some(Tile::OutsideFloor)
    } else {
        None
    }
}

/// Text of the error reported for a character outside the legend.
pub open spec fn invalid_tile_text(c: char) -> Seq<char> {
    seq!['\'', c] + "' is an invalid tile"@
}

/// Appends one character to a string with `String::push`, which adds the
/// character at the end and leaves the rest as it was.
#[verifier::external_body]
pub(crate) fn push_char(s: &mut String, c: char)
    ensures
        final(s)@ == old(s)@.push(c),
{
    s.push(c)
}

impl Tile {
    /// Whether the tile marks the player's starting cell.
    pub open spec fn marks_player(self) -> bool {
        self == Tile::Player || self == Tile::PlayerOnGoal
    }

    /// Whether the tile marks a box.
    pub open spec fn marks_star(self) -> bool {
        self == Tile::Star || self == Tile::StarOnGoal
    }

    /// Whether the tile marks a goal.
    pub open spec fn marks_goal(self) -> bool {
        self == Tile::Goal || self == Tile::PlayerOnGoal || self == Tile::StarOnGoal
    }

    /// Whether the tile is one of the kinds a finished map may hold.
    pub open spec fn is_static(self) -> bool {
        self == Tile::Wall || self == Tile::OutsideFloor || self == Tile::InsideFloor
    }

    /// The tile a character stands for, or an error naming the character.
    pub fn from_char(c: char) -> (r: Result<Tile, String>)
        ensures
            match tile_of_char(c) {
                Some(t) => r == Ok::<Tile, String>(t),
                None => r is Err && r->Err_0@ == invalid_tile_text(c),
            },
    {
        match c {
            '#' => Ok(Tile::Wall),
            '@' => Ok(Tile::Player),
            '+' => Ok(Tile::PlayerOnGoal),
            '$' => Ok(Tile::Star),
            '*' => Ok(Tile::StarOnGoal),
            '.' => Ok(Tile::Goal),
            ' ' => Ok(Tile::OutsideFloor),
            _ => {
                let mut msg = String::from_str("'");
                push_char(&mut msg, c);
                msg.append("' is an invalid tile");
                proof {
                    reveal_strlit("'");
                    assert(msg@ =~= invalid_tile_text(c));
                }
                Err(msg)
            },
        }
    }
}

} // verus!
