//! Teams, roles, action kinds, game modes, difficulties and errors.

use vstd::prelude::*;

verus! {

/// Team colors.  There is deliberately no "no team" sentinel: every piece
/// and every possession always belongs to exactly one of the two teams.
#[derive(Clone, Copy, PartialEq, Eq, Structural, Debug, Hash)]
pub enum Team {
    White,
    Black,
}

impl Team {
    /// The other team.
    pub open spec fn spec_opponent(self) -> Team {
        match self {
            Team::White => Team::Black,
            Team::Black => Team::White,
        }
    }

    /// The other team.
    pub fn opponent(self) -> (r: Team)
        ensures
            r == self.spec_opponent(),
    {
        match self {
            Team::White => Team::Black,
            Team::Black => Team::White,
        }
    }
}

/// Piece roles.
#[derive(Clone, Copy, PartialEq, Eq, Structural, Debug, Hash)]
pub enum PieceRole {
    Goalkeeper,
    Defender,
    Midfielder,
    Attacker,
}

/// Action types available in the game: a closed, tag-dispatched set.
#[derive(Clone, Copy, PartialEq, Eq, Structural, Debug, Hash)]
pub enum ActionType {
    Move,
    Pass,
    Shoot,
    Intercept,
    Kick,
    Defend,
    Push,
}

/// Game mode options.  The mode is immutable for the life of a match.
#[derive(Clone, Copy, PartialEq, Eq, Structural, Debug, Hash)]
pub enum GameModeType {
    /// Fixed small turn limit.
    QuickMatch,
    /// Larger fixed turn limit.
    StandardMatch,
    /// No turn limit; the match ends immediately on the first goal.
    GoldenGoal,
}

impl GameModeType {
    /// Whether the mode ends after a fixed number of turns.
    pub open spec fn is_limited(self) -> bool {
        self != GameModeType::GoldenGoal
    }

    /// The turn-number ceiling of a limited mode: 10 quick turns or 20
    /// standard turns.  Golden goal has no ceiling and never consults this.
    pub open spec fn spec_turn_limit(self) -> int {
        match self {
            GameModeType::QuickMatch => 10,
            GameModeType::StandardMatch => 20,
            GameModeType::GoldenGoal => 0,
        }
    }

    /// The turn-number ceiling of a limited mode.
    pub fn turn_limit(self) -> (r: u32)
        ensures
            r == self.spec_turn_limit(),
    {
        match self {
            GameModeType::QuickMatch => 10,
            GameModeType::StandardMatch => 20,
            GameModeType::GoldenGoal => 0,
        }
    }
}

/// Game difficulty levels.  A "Hard" level is referenced by surrounding
/// systems but is not part of the engine.
#[derive(Clone, Copy, PartialEq, Eq, Structural, Debug, Hash)]
pub enum Difficulty {
    Easy,
    Medium,
}

/// The engine's error taxonomy.  Every failure is one of these; none is
/// fatal and none leaves board state modified.
#[derive(Clone, Copy, PartialEq, Eq, Structural, Debug, Hash)]
pub enum GameError {
    /// No match lives under the given handle.
    MatchNotFound,
    /// No piece stands on the given tile.
    PieceNotFound,
    /// Wrong team's turn, destination or path not in the legal set, action
    /// kind not permitted for the piece's current state, or match already
    /// over.
    IllegalAction,
}

} // verus!
