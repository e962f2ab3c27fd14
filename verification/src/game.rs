//! The match: board, turn scheduler, score, mode, and the action executor.

use vstd::prelude::*;
use crate::board::{
    attacker_of, ball_after_arrival, roster_id, roster_id_view, roster_role, roster_start,
    roster_team, spec_attacker_of, BallState, Board, Piece,
};
use crate::geometry::{
    line_path, line_position, path_list_contains, path_list_member, Position, PositionPath,
};
use crate::rules::{
    defend_via, is_holder, kick_via, kind_path_legal, legal_kind_paths, legal_move_dests,
    lemma_unique_occupant, move_dest_legal, move_via, pass_via, push_path_of, push_via,
    step_clear,
};
use crate::types::{ActionType, GameError, GameModeType, PieceRole, Team};

verus! {

/// A piece as a read-only projection for display.
#[derive(Clone, Debug)]
pub struct PieceView {
    /// Identity string: team letter, role letter, two-digit sequence.
    pub id: String,
    pub team: Team,
    pub role: PieceRole,
    pub position: Position,
    pub has_ball: bool,
}

/// Read-only projection of a whole match for display.
#[derive(Clone, Debug)]
pub struct BoardView {
    pub pieces: Vec<PieceView>,
    /// The ball's own tile when it is loose; `None` while it is possessed.
    pub ball_position: Option<Position>,
    pub current_turn: Team,
    pub actions_remaining: u8,
    pub white_score: u8,
    pub black_score: u8,
    pub turn_number: u32,
}

/// Structured outcome of one executed action.
#[derive(Clone, Copy, PartialEq, Eq, Structural, Debug)]
pub struct ActionOutcome {
    pub action: ActionType,
    pub game_over: bool,
    pub winner: Option<Team>,
    pub actions_remaining: u8,
    /// Which team scored a goal, if any.
    pub goal_scored: Option<Team>,
    /// Whether the turn ended after this action.
    pub turn_ended: bool,
}

/// Result of an action, shaped for display.
#[derive(Clone, Debug)]
pub struct ActionResult {
    pub success: bool,
    pub message: String,
    pub game_over: bool,
    pub winner: Option<Team>,
    pub actions_remaining: u8,
    pub goal_scored: Option<Team>,
    pub turn_ended: bool,
}

impl ActionResult {
    /// A failure result carrying a message and otherwise empty fields.
    pub fn error(msg: String) -> (r: ActionResult)
        ensures
            !r.success,
            r.message@ == msg@,
            !r.game_over,
            r.winner.is_none(),
            r.actions_remaining == 0,
            r.goal_scored.is_none(),
            !r.turn_ended,
    {
        ActionResult {
            success: false,
            message: msg,
            game_over: false,
            winner: None,
            actions_remaining: 0,
            goal_scored: None,
            turn_ended: false,
        }
    }

    /// A success result copying the outcome's fields.
    pub fn from_outcome(outcome: &ActionOutcome) -> (r: ActionResult)
        ensures
            r.success,
            r.game_over == outcome.game_over,
            r.winner == outcome.winner,
            r.actions_remaining == outcome.actions_remaining,
            r.goal_scored == outcome.goal_scored,
            r.turn_ended == outcome.turn_ended,
    {
        ActionResult {
            success: true,
            message: String::from_str("action completed"),
            game_over: outcome.game_over,
            winner: outcome.winner,
            actions_remaining: outcome.actions_remaining,
            goal_scored: outcome.goal_scored,
            turn_ended: outcome.turn_ended,
        }
    }
}

/// `v` is the faithful read-only projection of match `m`: all fourteen
/// pieces with their identities, teams, roles, tiles and ball flags, the
/// loose-ball tile if any, and the scheduler and score fields.
pub open spec fn view_matches(m: GameMatch, v: BoardView) -> bool {
    &&& v.pieces@.len() == 14
    &&& forall|i: int|
        0 <= i < 14 ==> {
            &&& (#[trigger] v.pieces@[i]).id@ == roster_id_view(i)
            &&& v.pieces@[i].team == roster_team(i)
            &&& v.pieces@[i].role == roster_role(i)
            &&& v.pieces@[i].position == m.board.pieces@[i].pos
            &&& v.pieces@[i].has_ball == m.board.holds_ball(i)
        }
    &&& v.ball_position == (match m.board.ball {
        BallState::Loose { pos } => Some(pos),
        BallState::Held { .. } => None::<Position>,
    })
    &&& v.current_turn == m.current_turn
    &&& v.actions_remaining == m.actions_remaining
    &&& v.white_score == m.white_score
    &&& v.black_score == m.black_score
    &&& v.turn_number == m.turn_number
}

/// The winner a limited match declares when its turn ceiling is reached:
/// the team with the higher score, or no winner on a tie.
pub open spec fn spec_winner_by_score(ws: int, bs: int) -> Option<Team> {
    if ws > bs {
        Some(Team::White)
    } else if bs > ws {
        Some(Team::Black)
    } else {
        None
    }
}

/// The composition root: one board, the turn/action-budget scheduler,
/// cumulative score and the game-mode configuration.
#[derive(Debug)]
pub struct GameMatch {
    pub board: Board,
    pub mode: GameModeType,
    pub started: bool,
    /// Terminal flag; set once, never cleared.
    pub over: bool,
    pub winner: Option<Team>,
    pub current_turn: Team,
    /// Actions the team on turn may still take; observably 1 or 2 (a turn
    /// that reaches 0 flips and resets within the same call).
    pub actions_remaining: u8,
    /// Completed turns; starts at 0.
    pub turn_number: u32,
    pub white_score: u8,
    pub black_score: u8,
}

impl GameMatch {
    /// Well-formedness, preserved by every operation:
    /// the board invariant, the action budget in its observable range, the
    /// mode's termination rule, score bounds, and winner consistency.
    pub open spec fn wf(self) -> bool {
        &&& self.board.wf()
        &&& 1 <= self.actions_remaining <= 2
        &&& !self.started ==> {
            &&& self.turn_number == 0
            &&& self.white_score == 0
            &&& self.black_score == 0
            &&& !self.over
        }
        &&& self.mode.is_limited() ==> {
            &&& self.turn_number <= self.mode.spec_turn_limit()
            &&& (self.over <==> self.turn_number >= self.mode.spec_turn_limit())
            &&& self.white_score + self.black_score <= 2 * self.turn_number + 2
                - self.actions_remaining
        }
        &&& self.mode == GameModeType::GoldenGoal ==> {
            &&& self.white_score + self.black_score <= 1
            &&& (self.over <==> self.white_score + self.black_score == 1)
            &&& (self.over ==> self.winner == (if self.white_score == 1 {
                Some(Team::White)
            } else {
                Some(Team::Black)
            }))
        }
        &&& !self.over ==> self.winner.is_none()
        &&& (self.mode.is_limited() && self.over) ==> self.winner == spec_winner_by_score(
            self.white_score as int,
            self.black_score as int,
        )
    }

    /// A fresh, not yet started match with the standard roster for `mode`.
    pub fn standard(mode: GameModeType) -> (r: GameMatch)
        ensures
            r.wf(),
            r.mode == mode,
            !r.started,
            !r.over,
            r.winner.is_none(),
            r.current_turn == Team::White,
            r.actions_remaining == 2,
            r.turn_number == 0,
            r.white_score == 0,
            r.black_score == 0,
    {
        GameMatch {
            board: Board::initial(Team::White),
            mode,
            started: false,
            over: false,
            winner: None,
            current_turn: Team::White,
            actions_remaining: 2,
            turn_number: 0,
            white_score: 0,
            black_score: 0,
        }
    }

    /// Starts (or restarts) the match: the fixed roster on its kickoff
    /// tiles, the ball with `first`'s first attacker, `first` on turn with
    /// the full action budget, score 0-0, turn number 0.
    pub fn start(&mut self, first: Team)
        ensures
            final(self).wf(),
            final(self).mode == old(self).mode,
            final(self).started,
            !final(self).over,
            final(self).winner.is_none(),
            final(self).current_turn == first,
            final(self).actions_remaining == 2,
            final(self).turn_number == 0,
            final(self).white_score == 0,
            final(self).black_score == 0,
            final(self).board.wf(),
            final(self).board.pieces.len() == 14,
            forall|i: int|
                0 <= i < 14 ==> (#[trigger] final(self).board.pieces[i]).pos == roster_start(i),
            final(self).board.ball == (BallState::Held {
                holder: spec_attacker_of(first) as usize,
            }),
    {
        self.board = Board::initial(first);
        self.started = true;
        self.over = false;
        self.winner = None;
        self.current_turn = first;
        self.actions_remaining = 2;
        self.turn_number = 0;
        self.white_score = 0;
        self.black_score = 0;
    }

    /// Whether the match has become terminal.
    pub fn is_over(&self) -> (r: bool)
        ensures
            r == self.over,
    {
        self.over
    }

    /// The winner, once the match is over; `None` before, and on a tie.
    pub fn winner(&self) -> (r: Option<Team>)
        ensures
            r == self.winner,
    {
        self.winner
    }

    /// The team on turn.
    pub fn current_turn(&self) -> (r: Team)
        ensures
            r == self.current_turn,
    {
        self.current_turn
    }

    /// Actions the team on turn may still take.
    pub fn actions_remaining(&self) -> (r: u8)
        ensures
            r == self.actions_remaining,
    {
        self.actions_remaining
    }

    /// The score as (white, black).
    pub fn score(&self) -> (r: (u8, u8))
        ensures
            r.0 == self.white_score,
            r.1 == self.black_score,
    {
        (self.white_score, self.black_score)
    }

    /// The number of completed turns.
    pub fn turn_number(&self) -> (r: u32)
        ensures
            r == self.turn_number,
    {
        self.turn_number
    }

    /// Identity of the piece holding the ball, or `None` while it is loose.
    pub fn ball_holder(&self) -> (r: Option<String>)
        requires
            self.wf(),
        ensures
            match self.board.ball {
                BallState::Held { holder } => r.is_some() && r.unwrap()@ == roster_id_view(
                    holder as int,
                ),
                BallState::Loose { .. } => r.is_none(),
            },
    {
        match self.board.ball {
            BallState::Held { holder } => Some(roster_id(holder)),
            BallState::Loose { .. } => None,
        }
    }

    /// Read-only projection of the whole match state.
    pub fn snapshot(&self) -> (r: BoardView)
        requires
            self.wf(),
        ensures
            view_matches(*self, r),
    {
        let mut pieces: Vec<PieceView> = Vec::new();
        let mut i: usize = 0;
        while i < 14
            invariant
                self.wf(),
                i <= 14,
                pieces@.len() == i,
                forall|j: int|
                    0 <= j < i ==> {
                        &&& (#[trigger] pieces@[j]).id@ == roster_id_view(j)
                        &&& pieces@[j].team == roster_team(j)
                        &&& pieces@[j].role == roster_role(j)
                        &&& pieces@[j].position == self.board.pieces@[j].pos
                        &&& pieces@[j].has_ball == self.board.holds_ball(j)
                    },
            decreases 14 - i,
        {
            let piece = &self.board.pieces[i];
            let view = PieceView {
                id: roster_id(i),
                team: piece.team,
                role: piece.role,
                position: piece.pos,
                has_ball: is_holder(&self.board, i),
            };
            pieces.push(view);
            i = i + 1;
        }
        let ball_position = match self.board.ball {
            BallState::Loose { pos } => Some(pos),
            BallState::Held { .. } => None,
        };
        BoardView {
            pieces,
            ball_position,
            current_turn: self.current_turn,
            actions_remaining: self.actions_remaining,
            white_score: self.white_score,
            black_score: self.black_score,
            turn_number: self.turn_number,
        }
    }

    /// The piece on `from` exists, belongs to the team on turn, the match
    /// is running, and `p` is in the legal set for `kind`: exactly the
    /// condition under which `execute` succeeds.
    pub open spec fn action_allowed(
        self,
        from: Position,
        kind: ActionType,
        p: Seq<Position>,
    ) -> bool {
        &&& self.started
        &&& !self.over
        &&& self.board.occ_at(from)
        &&& self.board.pieces[self.board.idx_at(from)].team == self.current_turn
        &&& kind_path_legal(self.board, self.board.idx_at(from), kind, p)
    }

    /// All legal paths of the piece on `from` for `kind`: empty for a
    /// missing piece, a piece of the team not on turn, or a finished or
    /// unstarted match, and exactly the legal set otherwise.
    pub fn legal_paths(&self, from: Position, kind: ActionType) -> (r: Vec<PositionPath>)
        requires
            self.wf(),
        ensures
            forall|p: Seq<Position>|
                path_list_contains(r@, p) <==> self.action_allowed(from, kind, p),
    {
        let empty: Vec<PositionPath> = Vec::new();
        if !self.started || self.over {
            return empty;
        }
        let i = match self.board.occupant(from) {
            Some(i) => i,
            None => {
                return empty;
            },
        };
        proof {
            lemma_unique_occupant(self.board, from, i as int);
            assert(self.board.idx_at(from) == i);
        }
        if self.board.pieces[i].team != self.current_turn {
            return empty;
        }
        legal_kind_paths(&self.board, i, kind)
    }

    /// All legal move destinations of the piece on `from`: empty for a
    /// missing piece, a piece off turn, or a finished or unstarted match.
    pub fn legal_moves(&self, from: Position) -> (r: Vec<Position>)
        requires
            self.wf(),
        ensures
            forall|p: Position|
                r@.contains(p) <==> {
                    &&& self.started
                    &&& !self.over
                    &&& self.board.occ_at(from)
                    &&& self.board.pieces[self.board.idx_at(from)].team == self.current_turn
                    &&& move_dest_legal(self.board, self.board.idx_at(from), p)
                },
    {
        let empty: Vec<Position> = Vec::new();
        if !self.started || self.over {
            return empty;
        }
        let i = match self.board.occupant(from) {
            Some(i) => i,
            None => {
                return empty;
            },
        };
        proof {
            lemma_unique_occupant(self.board, from, i as int);
            assert(self.board.idx_at(from) == i);
        }
        if self.board.pieces[i].team != self.current_turn {
            return empty;
        }
        legal_move_dests(&self.board, i)
    }
}

/// How the board changes under one legal action of kind `kind` with path
/// `p` by the piece with roster index `i`.
pub open spec fn board_step(
    pre: Board,
    post: Board,
    i: int,
    kind: ActionType,
    p: Seq<Position>,
) -> bool {
    match kind {
        ActionType::Move => {
            &&& post.pieces@ == pre.pieces@.update(i, Piece { pos: p[0], ..pre.pieces@[i] })
            &&& post.ball == ball_after_arrival(pre.ball, i as usize, p[0])
        },
        ActionType::Defend => {
            &&& post.pieces@ == pre.pieces@.update(i, Piece { pos: p[0], ..pre.pieces@[i] })
            &&& post.ball == ball_after_arrival(pre.ball, i as usize, p[0])
        },
        ActionType::Push => {
            let j = pre.idx_at(p[0]);
            &&& post.pieces@ == pre.pieces@.update(j, Piece { pos: p[1], ..pre.pieces@[j] })
            &&& post.ball == ball_after_arrival(pre.ball, j as usize, p[1])
        },
        ActionType::Pass => {
            &&& post.pieces@ == pre.pieces@
            &&& post.ball == (BallState::Held { holder: pre.idx_at(p.last()) as usize })
        },
        ActionType::Shoot => {
            &&& post.pieces@ == pre.pieces@
            &&& post.ball == (BallState::Held {
                holder: spec_attacker_of(pre.pieces[i].team.spec_opponent()) as usize,
            })
        },
        ActionType::Intercept => {
            &&& post.pieces@ == pre.pieces@
            &&& post.ball == (BallState::Held { holder: i as usize })
        },
        ActionType::Kick => {
            &&& post.pieces@ == pre.pieces@
            &&& post.ball == (BallState::Loose { pos: p.last() })
        },
    }
}

/// How score, budget, turn and termination change after one action;
/// `goal` says whether the action scored.  A golden goal ends the match
/// instantly, with the budget and turn number untouched; otherwise the
/// budget decrements, and on reaching zero the turn flips, the budget
/// resets to two, and a limited mode checks its turn ceiling.
pub open spec fn sched_step(pre: GameMatch, post: GameMatch, goal: bool) -> bool {
    &&& post.white_score == pre.white_score + (if goal && pre.current_turn == Team::White {
        1int
    } else {
        0int
    })
    &&& post.black_score == pre.black_score + (if goal && pre.current_turn == Team::Black {
        1int
    } else {
        0int
    })
    &&& if goal && pre.mode == GameModeType::GoldenGoal {
        &&& post.over
        &&& post.winner == Some(pre.current_turn)
        &&& post.current_turn == pre.current_turn
        &&& post.actions_remaining == pre.actions_remaining
        &&& post.turn_number == pre.turn_number
    } else if pre.actions_remaining == 2 {
        &&& post.actions_remaining == 1
        &&& post.current_turn == pre.current_turn
        &&& post.turn_number == pre.turn_number
        &&& post.over == pre.over
        &&& post.winner == pre.winner
    } else {
        &&& post.actions_remaining == 2
        &&& post.current_turn == pre.current_turn.spec_opponent()
        &&& post.turn_number as int == (if pre.turn_number < u32::MAX {
            pre.turn_number + 1
        } else {
            pre.turn_number as int
        })
        &&& (post.over <==> pre.mode.is_limited() && post.turn_number
            >= pre.mode.spec_turn_limit())
        &&& post.winner == (if post.over {
            spec_winner_by_score(post.white_score as int, post.black_score as int)
        } else {
            pre.winner
        })
    }
}

/// The full transition of one successfully executed action.
pub open spec fn exec_step(
    pre: GameMatch,
    post: GameMatch,
    from: Position,
    kind: ActionType,
    p: Seq<Position>,
) -> bool {
    &&& board_step(pre.board, post.board, pre.board.idx_at(from), kind, p)
    &&& post.mode == pre.mode
    &&& post.started == pre.started
    &&& sched_step(pre, post, kind == ActionType::Shoot)
}

/// The full contract of `GameMatch::execute`: classification of every
/// failure, untouched state on failure, and the exact transition and
/// outcome on success.
pub open spec fn execute_contract(
    pre: GameMatch,
    post: GameMatch,
    from: Position,
    kind: ActionType,
    p: Seq<Position>,
    r: Result<ActionOutcome, GameError>,
) -> bool {
    &&& post.wf()
    &&& (r.is_ok() <==> pre.action_allowed(from, kind, p))
    &&& (r.is_err() ==> same_state(post, pre))
    &&& ((!pre.started || pre.over) ==> r == Err::<ActionOutcome, GameError>(
        GameError::IllegalAction,
    ))
    &&& ((pre.started && !pre.over && !pre.board.occ_at(from)) ==> r == Err::<
        ActionOutcome,
        GameError,
    >(GameError::PieceNotFound))
    &&& ((pre.started && !pre.over && pre.board.occ_at(from) && !pre.action_allowed(
        from,
        kind,
        p,
    )) ==> r == Err::<ActionOutcome, GameError>(GameError::IllegalAction))
    &&& (pre.action_allowed(from, kind, p) ==> {
        &&& exec_step(pre, post, from, kind, p)
        &&& r matches Ok(o) && {
            &&& o.action == kind
            &&& o.game_over == post.over
            &&& o.winner == post.winner
            &&& o.actions_remaining == post.actions_remaining
            &&& o.goal_scored == (if kind == ActionType::Shoot {
                Some(pre.current_turn)
            } else {
                None::<Team>
            })
            &&& o.turn_ended == (post.current_turn != pre.current_turn)
        }
    })
}

/// The two matches hold the same state, field for field.
pub open spec fn same_state(a: GameMatch, b: GameMatch) -> bool {
    &&& a.board.pieces@ == b.board.pieces@
    &&& a.board.ball == b.board.ball
    &&& a.mode == b.mode
    &&& a.started == b.started
    &&& a.over == b.over
    &&& a.winner == b.winner
    &&& a.current_turn == b.current_turn
    &&& a.actions_remaining == b.actions_remaining
    &&& a.turn_number == b.turn_number
    &&& a.white_score == b.white_score
    &&& a.black_score == b.black_score
}

impl GameMatch {
    /// Validates one submitted action against the legal set for its piece
    /// and kind, then applies it: position changes, possession changes,
    /// goal detection, budget/turn bookkeeping and the mode's termination
    /// rule.  Every failure is typed and leaves the match state entirely
    /// unmodified.  A successful intercept transfers possession without
    /// flipping the turn beyond the normal budget decrement.
    pub fn execute(&mut self, from: Position, kind: ActionType, path: &Vec<Position>) -> (r:
        Result<ActionOutcome, GameError>)
        requires
            old(self).wf(),
        ensures
            execute_contract(*old(self), *final(self), from, kind, path@, r),
    {
        if !self.started || self.over {
            return Err(GameError::IllegalAction);
        }
        let i = match self.board.occupant(from) {
            Some(i) => i,
            None => {
                return Err(GameError::PieceNotFound);
            },
        };
        proof {
            lemma_unique_occupant(self.board, from, i as int);
            assert(self.board.idx_at(from) == i);
        }
        if self.board.pieces[i].team != self.current_turn {
            return Err(GameError::IllegalAction);
        }
        let paths = legal_kind_paths(&self.board, i, kind);
        if !path_list_member(&paths, path) {
            proof {
                assert(!kind_path_legal(self.board, i as int, kind, path@));
            }
            return Err(GameError::IllegalAction);
        }
        assert(old(self).action_allowed(from, kind, path@));
        let team = self.current_turn;
        match kind {
            ActionType::Move => {
                proof {
                    let from_pos = self.board.pieces[i as int].pos;
                    let (d, k) = choose|d: int, k: int| #[trigger]
                        move_via(self.board, i as int, d, k) && path@[0] == line_position(
                            from_pos,
                            d,
                            k,
                        );
                    assert(step_clear(self.board, from_pos, d, k));
                }
                let dest = path[0];
                self.board.relocate(i, dest);
            },
            ActionType::Defend => {
                proof {
                    let from_pos = self.board.pieces[i as int].pos;
                    let d = choose|d: int| #[trigger]
                        defend_via(self.board, i as int, d) && path@ == seq![
                            line_position(from_pos, d, 1),
                        ];
                    assert(defend_via(self.board, i as int, d));
                    assert(path@[0] == line_position(from_pos, d, 1));
                }
                let dest = path[0];
                self.board.relocate(i, dest);
            },
            ActionType::Push => {
                proof {
                    let from_pos = self.board.pieces[i as int].pos;
                    let (d, e) = choose|d: int, e: int| #[trigger]
                        push_via(self.board, i as int, d, e) && path@ == push_path_of(
                            self.board,
                            i as int,
                            d,
                            e,
                        );
                    assert(push_via(self.board, i as int, d, e));
                    assert(path@[0] == line_position(from_pos, d, 1));
                    assert(path@[1] == line_position(path@[0], e, 1));
                    assert(self.board.occ_team_at(team.spec_opponent(), path@[0]));
                }
                let target = path[0];
                let j = match self.board.occupant(target) {
                    Some(j) => j,
                    None => {
                        proof {
                            assert(false);
                        }
                        i
                    },
                };
                proof {
                    lemma_unique_occupant(self.board, target, j as int);
                    assert(self.board.idx_at(path@[0]) == j);
                }
                let dest = path[1];
                self.board.relocate(j, dest);
            },
            ActionType::Pass => {
                proof {
                    let from_pos = self.board.pieces[i as int].pos;
                    let (d, k) = choose|d: int, k: int| #[trigger]
                        pass_via(self.board, i as int, d, k) && path@ == line_path(from_pos, d, k);
                    assert(pass_via(self.board, i as int, d, k));
                    assert(path@.len() == k);
                    assert(path@.last() == line_position(from_pos, d, k));
                    assert(self.board.occ_team_at(team, path@.last()));
                }
                let target = path[path.len() - 1];
                let j = match self.board.occupant(target) {
                    Some(j) => j,
                    None => {
                        proof {
                            assert(false);
                        }
                        i
                    },
                };
                proof {
                    lemma_unique_occupant(self.board, target, j as int);
                    assert(self.board.idx_at(path@.last()) == j);
                }
                self.board.set_ball(BallState::Held { holder: j });
            },
            ActionType::Shoot => {
                let receiver = attacker_of(team.opponent());
                self.board.set_ball(BallState::Held { holder: receiver });
            },
            ActionType::Intercept => {
                self.board.set_ball(BallState::Held { holder: i });
            },
            ActionType::Kick => {
                proof {
                    let bp = match self.board.ball {
                        BallState::Loose { pos } => pos,
                        BallState::Held { holder } => self.board.pieces[holder as int].pos,
                    };
                    let (d, k) = choose|d: int, k: int| #[trigger]
                        kick_via(self.board, bp, d, k) && path@ == line_path(bp, d, k);
                    assert(kick_via(self.board, bp, d, k));
                    assert(step_clear(self.board, bp, d, k));
                    assert(path@.len() == k);
                    assert(path@.last() == line_position(bp, d, k));
                }
                let dest = path[path.len() - 1];
                self.board.set_ball(BallState::Loose { pos: dest });
            },
        }
        let goal = kind == ActionType::Shoot;
        if goal {
            proof {
                if self.mode.is_limited() {
                    assert(self.white_score + self.black_score <= 2 * 20 + 2);
                } else {
                    assert(self.white_score + self.black_score == 0);
                }
            }
            match team {
                Team::White => {
                    self.white_score = self.white_score + 1;
                },
                Team::Black => {
                    self.black_score = self.black_score + 1;
                },
            }
        }
        let mut turn_ended = false;
        if goal && self.mode == GameModeType::GoldenGoal {
            self.over = true;
            self.winner = Some(team);
        } else {
            if self.actions_remaining == 2 {
                self.actions_remaining = 1;
            } else {
                self.actions_remaining = 2;
                self.current_turn = self.current_turn.opponent();
                if self.turn_number < u32::MAX {
                    self.turn_number = self.turn_number + 1;
                }
                turn_ended = true;
                match self.mode {
                    GameModeType::GoldenGoal => {},
                    _ => {
                        let limit = self.mode.turn_limit();
                        if self.turn_number >= limit {
                            self.over = true;
                            self.winner = if self.white_score > self.black_score {
                                Some(Team::White)
                            } else if self.black_score > self.white_score {
                                Some(Team::Black)
                            } else {
                                None
                            };
                        }
                    },
                }
            }
        }
        let outcome = ActionOutcome {
            action: kind,
            game_over: self.over,
            winner: self.winner,
            actions_remaining: self.actions_remaining,
            goal_scored: if goal {
                Some(team)
            } else {
                None
            },
            turn_ended,
        };
        Ok(outcome)
    }
}

} // verus!
