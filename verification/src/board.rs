//! The board: 14 pieces on the 8x8 grid and the ball, held or loose.

use vstd::prelude::*;
use crate::geometry::Position;
use crate::types::{PieceRole, Team};

verus! {

/// A piece on the board.  Identity (team, role, sequence number) is fixed at
/// match start; only the tile changes.
#[derive(Clone, Copy, PartialEq, Eq, Structural, Debug)]
pub struct Piece {
    pub team: Team,
    pub role: PieceRole,
    /// Sequence number within the team and role, starting at 1.
    pub seq: u8,
    pub pos: Position,
}

/// The ball is in exactly one of two states: possessed by one piece
/// (implicitly colocated with it) or loose at its own tile.
#[derive(Clone, Copy, PartialEq, Eq, Structural, Debug)]
pub enum BallState {
    /// Possessed by the piece with this roster index.
    Held { holder: usize },
    /// Loose at this tile, which no piece occupies.
    Loose { pos: Position },
}

/// The team of the roster slot `i` (0-6 White, 7-13 Black).
pub open spec fn roster_team(i: int) -> Team {
    if i < 7 {
        Team::White
    } else {
        Team::Black
    }
}

/// The role of the roster slot `i`: per team one goalkeeper, two defenders,
/// two midfielders and two attackers.
pub open spec fn roster_role(i: int) -> PieceRole {
    let j = if i < 7 {
        i
    } else {
        i - 7
    };
    if j == 0 {
        PieceRole::Goalkeeper
    } else if j <= 2 {
        PieceRole::Defender
    } else if j <= 4 {
        PieceRole::Midfielder
    } else {
        PieceRole::Attacker
    }
}

/// The per-role sequence number of roster slot `i`.
pub open spec fn roster_seq(i: int) -> int {
    let j = if i < 7 {
        i
    } else {
        i - 7
    };
    if j == 0 || j == 1 || j == 3 || j == 5 {
        1
    } else {
        2
    }
}

/// Kickoff tile of roster slot `i`.  White lines up on rows 0-3, Black
/// mirrored on rows 4-7.
pub open spec fn roster_start(i: int) -> Position {
    if i == 0 {
        Position { row: 0, col: 3 }
    } else if i == 1 {
        Position { row: 1, col: 2 }
    } else if i == 2 {
        Position { row: 1, col: 5 }
    } else if i == 3 {
        Position { row: 2, col: 2 }
    } else if i == 4 {
        Position { row: 2, col: 5 }
    } else if i == 5 {
        Position { row: 3, col: 3 }
    } else if i == 6 {
        Position { row: 3, col: 4 }
    } else if i == 7 {
        Position { row: 7, col: 4 }
    } else if i == 8 {
        Position { row: 6, col: 5 }
    } else if i == 9 {
        Position { row: 6, col: 2 }
    } else if i == 10 {
        Position { row: 5, col: 5 }
    } else if i == 11 {
        Position { row: 5, col: 2 }
    } else if i == 12 {
        Position { row: 4, col: 4 }
    } else {
        Position { row: 4, col: 3 }
    }
}

/// Roster index of a team's first attacker, who takes the kickoff.
pub open spec fn spec_attacker_of(t: Team) -> int {
    match t {
        Team::White => 5,
        Team::Black => 12,
    }
}

/// Roster index of a team's first attacker.
pub fn attacker_of(t: Team) -> (r: usize)
    ensures
        r == spec_attacker_of(t),
        r < 14,
{
    match t {
        Team::White => 5,
        Team::Black => 12,
    }
}

/// Identity string of roster slot `i`: team letter, role letter, two-digit
/// sequence number.
pub open spec fn roster_id_view(i: int) -> Seq<char> {
    if i == 0 {
        "WG01"@
    } else if i == 1 {
        "WD01"@
    } else if i == 2 {
        "WD02"@
    } else if i == 3 {
        "WM01"@
    } else if i == 4 {
        "WM02"@
    } else if i == 5 {
        "WA01"@
    } else if i == 6 {
        "WA02"@
    } else if i == 7 {
        "BG01"@
    } else if i == 8 {
        "BD01"@
    } else if i == 9 {
        "BD02"@
    } else if i == 10 {
        "BM01"@
    } else if i == 11 {
        "BM02"@
    } else {
        if i == 12 {
            "BA01"@
        } else {
            "BA02"@
        }
    }
}

/// Identity string of roster slot `i`.
pub fn roster_id(i: usize) -> (r: String)
    requires
        i < 14,
    ensures
        r@ == roster_id_view(i as int),
{
    if i == 0 {
        String::from_str("WG01")
    } else if i == 1 {
        String::from_str("WD01")
    } else if i == 2 {
        String::from_str("WD02")
    } else if i == 3 {
        String::from_str("WM01")
    } else if i == 4 {
        String::from_str("WM02")
    } else if i == 5 {
        String::from_str("WA01")
    } else if i == 6 {
        String::from_str("WA02")
    } else if i == 7 {
        String::from_str("BG01")
    } else if i == 8 {
        String::from_str("BD01")
    } else if i == 9 {
        String::from_str("BD02")
    } else if i == 10 {
        String::from_str("BM01")
    } else if i == 11 {
        String::from_str("BM02")
    } else if i == 12 {
        String::from_str("BA01")
    } else {
        String::from_str("BA02")
    }
}

/// The piece that fills roster slot `i` at kickoff.
pub fn roster_piece(i: usize) -> (r: Piece)
    requires
        i < 14,
    ensures
        r.team == roster_team(i as int),
        r.role == roster_role(i as int),
        r.seq == roster_seq(i as int),
        r.pos == roster_start(i as int),
{
    let team = if i < 7 {
        Team::White
    } else {
        Team::Black
    };
    let j = if i < 7 {
        i
    } else {
        i - 7
    };
    let role = if j == 0 {
        PieceRole::Goalkeeper
    } else if j <= 2 {
        PieceRole::Defender
    } else if j <= 4 {
        PieceRole::Midfielder
    } else {
        PieceRole::Attacker
    };
    let seq: u8 = if j == 0 || j == 1 || j == 3 || j == 5 {
        1
    } else {
        2
    };
    let pos = match i {
        0 => Position { row: 0, col: 3 },
        1 => Position { row: 1, col: 2 },
        2 => Position { row: 1, col: 5 },
        3 => Position { row: 2, col: 2 },
        4 => Position { row: 2, col: 5 },
        5 => Position { row: 3, col: 3 },
        6 => Position { row: 3, col: 4 },
        7 => Position { row: 7, col: 4 },
        8 => Position { row: 6, col: 5 },
        9 => Position { row: 6, col: 2 },
        10 => Position { row: 5, col: 5 },
        11 => Position { row: 5, col: 2 },
        12 => Position { row: 4, col: 4 },
        _ => Position { row: 4, col: 3 },
    };
    Piece { team, role, seq, pos }
}

/// The ball after the piece with roster index `mover` arrives on `dest`: a
/// held ball stays with its holder, and a loose ball on `dest` is picked up
/// by the arriving piece.
pub open spec fn ball_after_arrival(ball: BallState, mover: usize, dest: Position) -> BallState {
    match ball {
        BallState::Held { holder } => BallState::Held { holder },
        BallState::Loose { pos } => {
            if pos == dest {
                BallState::Held { holder: mover }
            } else {
                BallState::Loose { pos }
            }
        },
    }
}

/// Authoritative spatial state: the fixed 14-piece roster, each on its own
/// tile, and the ball.
#[derive(Debug)]
pub struct Board {
    pub pieces: Vec<Piece>,
    pub ball: BallState,
}

impl Board {
    /// Some piece stands on tile `p`.
    pub open spec fn occ_at(self, p: Position) -> bool {
        exists|i: int| 0 <= i < self.pieces.len() && self.pieces[i].pos == p
    }

    /// A piece of team `t` stands on tile `p`.
    pub open spec fn occ_team_at(self, t: Team, p: Position) -> bool {
        exists|i: int|
            0 <= i < self.pieces.len() && self.pieces[i].pos == p && self.pieces[i].team == t
    }

    /// The roster index of the piece on tile `p` (meaningful only where
    /// `occ_at` holds; unique under `wf`).
    pub open spec fn idx_at(self, p: Position) -> int {
        choose|i: int| 0 <= i < self.pieces.len() && self.pieces[i].pos == p
    }

    /// Piece `i` possesses the ball.
    pub open spec fn holds_ball(self, i: int) -> bool {
        match self.ball {
            BallState::Held { holder } => holder == i,
            BallState::Loose { .. } => false,
        }
    }

    /// The tile the ball is on: its holder's tile, or its own when loose.
    pub open spec fn ball_tile(self) -> Position {
        match self.ball {
            BallState::Held { holder } => self.pieces[holder as int].pos,
            BallState::Loose { pos } => pos,
        }
    }

    /// Well-formedness: the full fixed roster, every piece on its own
    /// on-board tile, no two pieces sharing a tile, and the ball either
    /// possessed by a real piece or loose on an unoccupied on-board tile.
    pub open spec fn wf(self) -> bool {
        &&& self.pieces.len() == 14
        &&& forall|i: int|
            0 <= i < 14 ==> {
                &&& (#[trigger] self.pieces[i]).team == roster_team(i)
                &&& self.pieces[i].role == roster_role(i)
                &&& self.pieces[i].seq == roster_seq(i)
                &&& self.pieces[i].pos.in_bounds()
            }
        &&& forall|i: int, j: int|
            0 <= i < 14 && 0 <= j < 14 && i != j ==> #[trigger] self.pieces[i].pos != (
            #[trigger] self.pieces[j]).pos
        &&& match self.ball {
            BallState::Held { holder } => holder < 14,
            BallState::Loose { pos } => pos.in_bounds() && !self.occ_at(pos),
        }
    }

    /// The roster index of the piece on tile `p`, or `None` on an empty tile.
    pub fn occupant(&self, p: Position) -> (r: Option<usize>)
        ensures
            match r {
                Some(i) => i < self.pieces.len() && self.pieces[i as int].pos == p,
                None => !self.occ_at(p),
            },
    {
        let n = self.pieces.len();
        let mut k: usize = 0;
        while k < n
            invariant
                n == self.pieces.len(),
                k <= n,
                forall|j: int| 0 <= j < k ==> (#[trigger] self.pieces[j]).pos != p,
            decreases n - k,
        {
            if self.pieces[k].pos == p {
                return Some(k);
            }
            k = k + 1;
        }
        None
    }

    /// Relocates piece `i` to the unoccupied on-board tile `dest`.  A held
    /// ball stays with its holder (and so follows a moving holder); a loose
    /// ball on `dest` is picked up by the arriving piece.
    pub fn relocate(&mut self, i: usize, dest: Position)
        requires
            old(self).wf(),
            i < 14,
            dest.in_bounds(),
            !old(self).occ_at(dest),
        ensures
            final(self).wf(),
            final(self).pieces@ == old(self).pieces@.update(
                i as int,
                Piece { pos: dest, ..old(self).pieces@[i as int] },
            ),
            final(self).ball == ball_after_arrival(old(self).ball, i, dest),
    {
        let p = self.pieces[i];
        self.pieces[i] = Piece { pos: dest, ..p };
        match self.ball {
            BallState::Loose { pos } => {
                if pos == dest {
                    self.ball = BallState::Held { holder: i };
                }
            },
            BallState::Held { .. } => {},
        }
        proof {
            assert forall|a: int, j: int|
                0 <= a < 14 && 0 <= j < 14 && a != j implies #[trigger] self.pieces[a].pos != (
            #[trigger] self.pieces[j]).pos by {
                if a == i as int {
                    assert(old(self).pieces[j].pos != dest);
                } else if j == i as int {
                    assert(old(self).pieces[a].pos != dest);
                }
            }
            match self.ball {
                BallState::Loose { pos } => {
                    assert forall|j: int|
                        0 <= j < 14 implies (#[trigger] self.pieces[j]).pos != pos by {
                        if j != i as int {
                            assert(!old(self).occ_at(pos));
                        }
                    }
                },
                BallState::Held { .. } => {},
            }
        }
    }

    /// Sets the ball state outright; with `relocate`, the executor's only
    /// mutation primitives.
    pub fn set_ball(&mut self, ball: BallState)
        requires
            old(self).wf(),
            match ball {
                BallState::Held { holder } => holder < 14,
                BallState::Loose { pos } => pos.in_bounds() && !old(self).occ_at(pos),
            },
        ensures
            final(self).wf(),
            final(self).pieces@ == old(self).pieces@,
            final(self).ball == ball,
    {
        self.ball = ball;
    }

    /// The board at kickoff: the fixed roster on its starting tiles, the
    /// ball with the first attacker of the team to move first.
    pub fn initial(first: Team) -> (r: Board)
        ensures
            r.wf(),
            r.pieces.len() == 14,
            forall|i: int| 0 <= i < 14 ==> (#[trigger] r.pieces[i]).pos == roster_start(i),
            r.ball == (BallState::Held { holder: spec_attacker_of(first) as usize }),
    {
        let mut pieces: Vec<Piece> = Vec::new();
        let mut i: usize = 0;
        while i < 14
            invariant
                i <= 14,
                pieces.len() == i,
                forall|j: int|
                    0 <= j < i ==> {
                        &&& (#[trigger] pieces[j]).team == roster_team(j)
                        &&& pieces[j].role == roster_role(j)
                        &&& pieces[j].seq == roster_seq(j)
                        &&& pieces[j].pos == roster_start(j)
                    },
            decreases 14 - i,
        {
            let piece = roster_piece(i);
            pieces.push(piece);
            i = i + 1;
        }
        let holder = attacker_of(first);
        let board = Board { pieces, ball: BallState::Held { holder } };
        proof {
            assert forall|i: int| 0 <= i < 14 implies (#[trigger] board.pieces[i]).pos.in_bounds()
            by {
                assert(board.pieces[i].pos == roster_start(i));
            }
            assert forall|i: int, j: int|
                0 <= i < 14 && 0 <= j < 14 && i != j implies #[trigger] board.pieces[i].pos != (
            #[trigger] board.pieces[j]).pos by {
                assert(board.pieces[i].pos == roster_start(i));
                assert(board.pieces[j].pos == roster_start(j));
            }
        }
        board
    }
}

} // verus!
