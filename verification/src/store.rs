//! The session store: an explicit, injectable arena of live matches
//! addressed by opaque `u64` handles.  The engine never generates
//! identifiers itself; callers own the store and may key it however they
//! like on top of these handles.

use vstd::prelude::*;
use crate::bot::{bot_action_ok, has_candidate, Bot, BotAction};
use crate::board::{roster_start, spec_attacker_of, BallState};
use crate::game::{
    exec_step, same_state, view_matches, ActionOutcome, BoardView, GameMatch,
};
use crate::geometry::{Position, PositionPath, path_list_contains};
use crate::types::{ActionType, Difficulty, GameError, GameModeType, Team};

verus! {

/// One live match under its handle.
#[derive(Debug)]
pub struct MatchEntry {
    pub id: u64,
    pub game: GameMatch,
}

/// The arena of live matches.  Handles are never reused.
#[derive(Debug)]
pub struct MatchStore {
    pub entries: Vec<MatchEntry>,
    pub next_id: u64,
}

/// `m` is a freshly started match for `mode` with `first` to move.
pub open spec fn fresh_started(m: GameMatch, mode: GameModeType, first: Team) -> bool {
    &&& m.wf()
    &&& m.mode == mode
    &&& m.started
    &&& !m.over
    &&& m.winner.is_none()
    &&& m.current_turn == first
    &&& m.actions_remaining == 2
    &&& m.turn_number == 0
    &&& m.white_score == 0
    &&& m.black_score == 0
    &&& m.board.pieces.len() == 14
    &&& forall|i: int| 0 <= i < 14 ==> (#[trigger] m.board.pieces[i]).pos == roster_start(i)
    &&& m.board.ball == (BallState::Held { holder: spec_attacker_of(first) as usize })
}

impl MatchStore {
    /// Well-formedness: handles unique and below the allocation counter,
    /// every stored match well-formed and started.
    pub open spec fn wf(self) -> bool {
        &&& forall|a: int, b: int|
            0 <= a < b < self.entries.len() ==> (#[trigger] self.entries[a]).id != (
            #[trigger] self.entries[b]).id
        &&& forall|a: int|
            0 <= a < self.entries.len() ==> {
                &&& (#[trigger] self.entries[a]).game.wf()
                &&& self.entries[a].game.started
                &&& self.entries[a].id < self.next_id
            }
    }

    /// A match lives under handle `h`.
    pub open spec fn has(self, h: u64) -> bool {
        exists|a: int| 0 <= a < self.entries.len() && (#[trigger] self.entries[a]).id == h
    }

    /// The slot of the match under `h` (unique under `wf`).
    pub open spec fn index_of(self, h: u64) -> int {
        choose|a: int| 0 <= a < self.entries.len() && (#[trigger] self.entries[a]).id == h
    }

    /// The match under `h`; meaningful only where `has` holds.
    pub open spec fn game_of(self, h: u64) -> GameMatch {
        self.entries[self.index_of(h)].game
    }

    /// An empty store.
    pub fn new() -> (r: MatchStore)
        ensures
            r.wf(),
            forall|h: u64| !r.has(h),
    {
        MatchStore { entries: Vec::new(), next_id: 0 }
    }

    /// The slot holding handle `h`, or `None`.
    fn find(&self, h: u64) -> (r: Option<usize>)
        requires
            self.wf(),
        ensures
            match r {
                Some(a) => a < self.entries.len() && self.entries[a as int].id == h && self.has(h)
                    && self.index_of(h) == a,
                None => !self.has(h),
            },
    {
        let n = self.entries.len();
        let mut a: usize = 0;
        while a < n
            invariant
                self.wf(),
                n == self.entries.len(),
                a <= n,
                forall|j: int| 0 <= j < a ==> (#[trigger] self.entries[j]).id != h,
            decreases n - a,
        {
            if self.entries[a].id == h {
                proof {
                    self.lemma_index_unique(h, a as int);
                }
                return Some(a);
            }
            a = a + 1;
        }
        None
    }

    /// Under `wf`, the slot with id `h` is unique, so `index_of` names it.
    pub proof fn lemma_index_unique(self, h: u64, a: int)
        requires
            self.wf(),
            0 <= a < self.entries.len(),
            self.entries[a].id == h,
        ensures
            self.has(h),
            self.index_of(h) == a,
    {
        assert(self.has(h));
        let b = self.index_of(h);
        assert(0 <= b < self.entries.len() && self.entries[b].id == h);
        if a < b {
            assert(self.entries[a].id != self.entries[b].id);
        } else if b < a {
            assert(self.entries[b].id != self.entries[a].id);
        }
    }

    /// Allocates a new match for `mode`, starts it with White to move, and
    /// returns its fresh handle.  Every other handle is untouched.
    pub fn new_game(&mut self, mode: GameModeType) -> (h: u64)
        requires
            old(self).wf(),
            old(self).next_id < u64::MAX,
        ensures
            final(self).wf(),
            h == old(self).next_id,
            final(self).next_id == old(self).next_id + 1,
            !old(self).has(h),
            final(self).has(h),
            fresh_started(final(self).game_of(h), mode, Team::White),
            forall|h2: u64| h2 != h ==> final(self).has(h2) == old(self).has(h2),
            forall|h2: u64|
                h2 != h && old(self).has(h2) ==> final(self).game_of(h2) == old(self).game_of(h2),
    {
        let mut game = GameMatch::standard(mode);
        game.start(Team::White);
        let h = self.next_id;
        self.next_id = self.next_id + 1;
        let ghost n = self.entries@.len();
        self.entries.push(MatchEntry { id: h, game });
        proof {
            assert forall|a: int| 0 <= a < n implies (#[trigger] self.entries[a]).id != h by {}
            self.lemma_index_unique(h, n as int);
            assert forall|h2: u64| h2 != h implies final(self).has(h2) == old(self).has(h2) by {
                if old(self).has(h2) {
                    let a = choose|a: int|
                        0 <= a < old(self).entries.len() && (#[trigger] old(
                            self,
                        ).entries[a]).id == h2;
                    assert(self.entries[a].id == h2);
                }
                if self.has(h2) {
                    let a = choose|a: int|
                        0 <= a < self.entries.len() && (#[trigger] self.entries[a]).id == h2;
                    assert(a < n);
                    assert(old(self).entries[a].id == h2);
                }
            }
            assert forall|h2: u64| h2 != h && old(self).has(h2) implies final(self).game_of(h2)
                == old(self).game_of(h2) by {
                let a = old(self).index_of(h2);
                assert(0 <= a < old(self).entries.len() && old(self).entries[a].id == h2);
                assert(self.entries[a].id == h2);
                self.lemma_index_unique(h2, a);
            }
        }
        h
    }

    /// Whether a match lives under `h`.
    pub fn game_exists(&self, h: u64) -> (r: bool)
        requires
            self.wf(),
        ensures
            r == self.has(h),
    {
        match self.find(h) {
            Some(_) => true,
            None => false,
        }
    }

    /// The board view of the match under `h`, or `None`.
    pub fn get_board(&self, h: u64) -> (r: Option<BoardView>)
        requires
            self.wf(),
        ensures
            r.is_some() == self.has(h),
            r matches Some(v) ==> view_matches(self.game_of(h), v),
    {
        match self.find(h) {
            Some(a) => Some(self.entries[a].game.snapshot()),
            None => None,
        }
    }

    /// Whether the match under `h` is over; a missing match counts as over.
    pub fn is_game_over(&self, h: u64) -> (r: bool)
        requires
            self.wf(),
        ensures
            r == if self.has(h) {
                self.game_of(h).over
            } else {
                true
            },
    {
        match self.find(h) {
            Some(a) => self.entries[a].game.is_over(),
            None => true,
        }
    }

    /// The winner of the match under `h`, if it is over and one team won.
    pub fn get_winner(&self, h: u64) -> (r: Option<Team>)
        requires
            self.wf(),
        ensures
            !self.has(h) ==> r.is_none(),
            self.has(h) ==> r == self.game_of(h).winner,
    {
        match self.find(h) {
            Some(a) => self.entries[a].game.winner(),
            None => None,
        }
    }

    /// Legal move destinations for the piece on `from`; empty for a
    /// missing match, a missing piece, or a piece off turn.
    pub fn get_legal_moves(&self, h: u64, from: Position) -> (r: Vec<Position>)
        requires
            self.wf(),
        ensures
            !self.has(h) ==> r@.len() == 0,
            self.has(h) ==> forall|p: Position|
                r@.contains(p) <==> {
                    &&& self.game_of(h).started
                    &&& !self.game_of(h).over
                    &&& self.game_of(h).board.occ_at(from)
                    &&& self.game_of(h).board.pieces[self.game_of(h).board.idx_at(from)].team
                        == self.game_of(h).current_turn
                    &&& crate::rules::move_dest_legal(
                        self.game_of(h).board,
                        self.game_of(h).board.idx_at(from),
                        p,
                    )
                },
    {
        match self.find(h) {
            Some(a) => self.entries[a].game.legal_moves(from),
            None => Vec::new(),
        }
    }

    /// Legal paths for the piece on `from` and kind `kind`; empty for a
    /// missing match, a missing piece, or a piece off turn.
    pub fn get_legal_action_paths(&self, h: u64, from: Position, kind: ActionType) -> (r: Vec<
        PositionPath,
    >)
        requires
            self.wf(),
        ensures
            !self.has(h) ==> r@.len() == 0,
            self.has(h) ==> forall|p: Seq<Position>|
                path_list_contains(r@, p) <==> self.game_of(h).action_allowed(from, kind, p),
    {
        match self.find(h) {
            Some(a) => self.entries[a].game.legal_paths(from, kind),
            None => Vec::new(),
        }
    }

    /// Legal pass paths for the piece on `from`.
    pub fn get_legal_passes(&self, h: u64, from: Position) -> (r: Vec<PositionPath>)
        requires
            self.wf(),
        ensures
            !self.has(h) ==> r@.len() == 0,
            self.has(h) ==> forall|p: Seq<Position>|
                path_list_contains(r@, p) <==> self.game_of(h).action_allowed(
                    from,
                    ActionType::Pass,
                    p,
                ),
    {
        self.get_legal_action_paths(h, from, ActionType::Pass)
    }

    /// Legal shoot paths for the piece on `from`.
    pub fn get_legal_shoots(&self, h: u64, from: Position) -> (r: Vec<PositionPath>)
        requires
            self.wf(),
        ensures
            !self.has(h) ==> r@.len() == 0,
            self.has(h) ==> forall|p: Seq<Position>|
                path_list_contains(r@, p) <==> self.game_of(h).action_allowed(
                    from,
                    ActionType::Shoot,
                    p,
                ),
    {
        self.get_legal_action_paths(h, from, ActionType::Shoot)
    }

    /// Legal intercept paths for the piece on `from`.
    pub fn get_legal_intercepts(&self, h: u64, from: Position) -> (r: Vec<PositionPath>)
        requires
            self.wf(),
        ensures
            !self.has(h) ==> r@.len() == 0,
            self.has(h) ==> forall|p: Seq<Position>|
                path_list_contains(r@, p) <==> self.game_of(h).action_allowed(
                    from,
                    ActionType::Intercept,
                    p,
                ),
    {
        self.get_legal_action_paths(h, from, ActionType::Intercept)
    }

    /// Legal kick paths for the piece on `from`.
    pub fn get_legal_kicks(&self, h: u64, from: Position) -> (r: Vec<PositionPath>)
        requires
            self.wf(),
        ensures
            !self.has(h) ==> r@.len() == 0,
            self.has(h) ==> forall|p: Seq<Position>|
                path_list_contains(r@, p) <==> self.game_of(h).action_allowed(
                    from,
                    ActionType::Kick,
                    p,
                ),
    {
        self.get_legal_action_paths(h, from, ActionType::Kick)
    }

    /// Legal defend paths for the piece on `from`.
    pub fn get_legal_defends(&self, h: u64, from: Position) -> (r: Vec<PositionPath>)
        requires
            self.wf(),
        ensures
            !self.has(h) ==> r@.len() == 0,
            self.has(h) ==> forall|p: Seq<Position>|
                path_list_contains(r@, p) <==> self.game_of(h).action_allowed(
                    from,
                    ActionType::Defend,
                    p,
                ),
    {
        self.get_legal_action_paths(h, from, ActionType::Defend)
    }

    /// Legal push paths for the piece on `from`.
    pub fn get_legal_pushes(&self, h: u64, from: Position) -> (r: Vec<PositionPath>)
        requires
            self.wf(),
        ensures
            !self.has(h) ==> r@.len() == 0,
            self.has(h) ==> forall|p: Seq<Position>|
                path_list_contains(r@, p) <==> self.game_of(h).action_allowed(
                    from,
                    ActionType::Push,
                    p,
                ),
    {
        self.get_legal_action_paths(h, from, ActionType::Push)
    }

    /// The store after an execution attempt on `h`: every handle still
    /// lives, every other match is untouched, and the outcome mirrors
    /// `GameMatch::execute` on the match under `h`.
    pub open spec fn exec_post(
        pre: MatchStore,
        post: MatchStore,
        h: u64,
        from: Position,
        kind: ActionType,
        p: Seq<Position>,
        r: Result<ActionOutcome, GameError>,
    ) -> bool {
        &&& post.wf()
        &&& post.next_id == pre.next_id
        &&& forall|h2: u64| post.has(h2) == pre.has(h2)
        &&& forall|h2: u64|
            h2 != h && pre.has(h2) ==> post.game_of(h2) == pre.game_of(h2)
        &&& !pre.has(h) ==> r == Err::<ActionOutcome, GameError>(GameError::MatchNotFound)
        &&& !pre.has(h) ==> forall|h2: u64|
            pre.has(h2) ==> post.game_of(h2) == pre.game_of(h2)
        &&& pre.has(h) ==> {
            let g0 = pre.game_of(h);
            let g1 = post.game_of(h);
            &&& g1.wf()
            &&& (r.is_ok() <==> g0.action_allowed(from, kind, p))
            &&& (r.is_err() ==> same_state(g1, g0))
            &&& (g0.over ==> r == Err::<ActionOutcome, GameError>(GameError::IllegalAction))
            &&& ((!g0.over && !g0.board.occ_at(from)) ==> r == Err::<ActionOutcome, GameError>(
                GameError::PieceNotFound,
            ))
            &&& ((!g0.over && g0.board.occ_at(from) && !g0.action_allowed(from, kind, p)) ==> r
                == Err::<ActionOutcome, GameError>(GameError::IllegalAction))
            &&& (g0.action_allowed(from, kind, p) ==> {
                &&& exec_step(g0, g1, from, kind, p)
                &&& r matches Ok(o) && {
                    &&& o.action == kind
                    &&& o.game_over == g1.over
                    &&& o.winner == g1.winner
                    &&& o.actions_remaining == g1.actions_remaining
                    &&& o.goal_scored == (if kind == ActionType::Shoot {
                        Some(g0.current_turn)
                    } else {
                        None::<Team>
                    })
                    &&& o.turn_ended == (g1.current_turn != g0.current_turn)
                }
            })
        }
    }

    /// Executes one action on the match under `h`.  A missing match
    /// reports `MatchNotFound`; every failure leaves all state untouched.
    pub fn execute_action(
        &mut self,
        h: u64,
        from: Position,
        kind: ActionType,
        path: &Vec<Position>,
    ) -> (r: Result<ActionOutcome, GameError>)
        requires
            old(self).wf(),
        ensures
            MatchStore::exec_post(*old(self), *final(self), h, from, kind, path@, r),
    {
        let a = match self.find(h) {
            Some(a) => a,
            None => {
                return Err(GameError::MatchNotFound);
            },
        };
        let ghost pre = *self;
        let ghost n = self.entries@.len();
        let mut entry = self.entries.swap_remove(a);
        let r = entry.game.execute(from, kind, path);
        let ghost new_game = entry.game;
        self.entries.push(entry);
        proof {
            let post = *self;
            assert(post.entries@.len() == n);
            assert forall|t: int|
                0 <= t < n implies (#[trigger] post.entries[t]) == (if t == n - 1 {
                MatchEntry { id: h, game: new_game }
            } else if t == a {
                pre.entries[n - 1]
            } else {
                pre.entries[t]
            }) by {}
            assert forall|x: int, y: int|
                0 <= x < y < n implies (#[trigger] post.entries[x]).id != (
            #[trigger] post.entries[y]).id by {
                let ox: int = if x == n - 1 {
                    a as int
                } else if x == a {
                    n - 1
                } else {
                    x
                };
                let oy: int = if y == n - 1 {
                    a as int
                } else if y == a {
                    n - 1
                } else {
                    y
                };
                assert(post.entries[x].id == pre.entries[ox].id);
                assert(post.entries[y].id == pre.entries[oy].id);
            }
            post.lemma_index_unique(h, n - 1);
            assert(post.game_of(h) == new_game);
            assert forall|h2: u64| post.has(h2) == pre.has(h2) by {
                if pre.has(h2) {
                    let t = pre.index_of(h2);
                    if t == a {
                        assert(post.entries[n - 1].id == h2);
                    } else if t == n - 1 {
                        assert(post.entries[a as int].id == h2);
                    } else {
                        assert(post.entries[t].id == h2);
                    }
                }
                if post.has(h2) {
                    let t = post.index_of(h2);
                    if t == n - 1 {
                        assert(pre.entries[a as int].id == h2);
                    } else if t == a {
                        assert(pre.entries[n - 1].id == h2);
                    } else {
                        assert(pre.entries[t].id == h2);
                    }
                }
            }
            assert forall|h2: u64| h2 != h && pre.has(h2) implies post.game_of(h2)
                == pre.game_of(h2) by {
                let t = pre.index_of(h2);
                assert(0 <= t < n && pre.entries[t].id == h2);
                assert(t != a) by {
                    if t == a {
                        assert(pre.entries[a as int].id == h);
                    }
                }
                if t == n - 1 {
                    assert(post.entries[a as int] == pre.entries[t]);
                    post.lemma_index_unique(h2, a as int);
                } else {
                    assert(post.entries[t] == pre.entries[t]);
                    post.lemma_index_unique(h2, t);
                }
            }
        }
        r
    }

    /// Executes a move of the piece on `from` to `to`.
    pub fn execute_move(&mut self, h: u64, from: Position, to: Position) -> (r: Result<
        ActionOutcome,
        GameError,
    >)
        requires
            old(self).wf(),
        ensures
            MatchStore::exec_post(
                *old(self),
                *final(self),
                h,
                from,
                ActionType::Move,
                seq![to],
                r,
            ),
    {
        let mut path: Vec<Position> = Vec::new();
        path.push(to);
        proof {
            assert(path@ =~= seq![to]);
        }
        self.execute_action(h, from, ActionType::Move, &path)
    }

    /// Executes a pass along `path` by the piece on `from`.
    pub fn execute_pass(&mut self, h: u64, from: Position, path: &Vec<Position>) -> (r: Result<
        ActionOutcome,
        GameError,
    >)
        requires
            old(self).wf(),
        ensures
            MatchStore::exec_post(
                *old(self),
                *final(self),
                h,
                from,
                ActionType::Pass,
                path@,
                r,
            ),
    {
        self.execute_action(h, from, ActionType::Pass, path)
    }

    /// Executes a shot along `path` by the piece on `from`.
    pub fn execute_shoot(&mut self, h: u64, from: Position, path: &Vec<Position>) -> (r: Result<
        ActionOutcome,
        GameError,
    >)
        requires
            old(self).wf(),
        ensures
            MatchStore::exec_post(
                *old(self),
                *final(self),
                h,
                from,
                ActionType::Shoot,
                path@,
                r,
            ),
    {
        self.execute_action(h, from, ActionType::Shoot, path)
    }

    /// Executes an intercept along `path` by the piece on `from`.
    pub fn execute_intercept(&mut self, h: u64, from: Position, path: &Vec<Position>) -> (r: Result<
        ActionOutcome,
        GameError,
    >)
        requires
            old(self).wf(),
        ensures
            MatchStore::exec_post(
                *old(self),
                *final(self),
                h,
                from,
                ActionType::Intercept,
                path@,
                r,
            ),
    {
        self.execute_action(h, from, ActionType::Intercept, path)
    }

    /// Executes a kick along `path` by the piece on `from`.
    pub fn execute_kick(&mut self, h: u64, from: Position, path: &Vec<Position>) -> (r: Result<
        ActionOutcome,
        GameError,
    >)
        requires
            old(self).wf(),
        ensures
            MatchStore::exec_post(
                *old(self),
                *final(self),
                h,
                from,
                ActionType::Kick,
                path@,
                r,
            ),
    {
        self.execute_action(h, from, ActionType::Kick, path)
    }

    /// Executes a defensive repositioning along `path` by the piece on `from`.
    pub fn execute_defend(&mut self, h: u64, from: Position, path: &Vec<Position>) -> (r: Result<
        ActionOutcome,
        GameError,
    >)
        requires
            old(self).wf(),
        ensures
            MatchStore::exec_post(
                *old(self),
                *final(self),
                h,
                from,
                ActionType::Defend,
                path@,
                r,
            ),
    {
        self.execute_action(h, from, ActionType::Defend, path)
    }

    /// Executes a push of the opponent on `target` to `destination` by the
    /// piece on `from`.
    pub fn execute_push(
        &mut self,
        h: u64,
        from: Position,
        target: Position,
        destination: Position,
    ) -> (r: Result<ActionOutcome, GameError>)
        requires
            old(self).wf(),
        ensures
            MatchStore::exec_post(
                *old(self),
                *final(self),
                h,
                from,
                ActionType::Push,
                seq![target, destination],
                r,
            ),
    {
        let mut path: Vec<Position> = Vec::new();
        path.push(target);
        path.push(destination);
        proof {
            assert(path@ =~= seq![target, destination]);
        }
        self.execute_action(h, from, ActionType::Push, &path)
    }

    /// The bot's best action for the side to move in the match under `h`:
    /// `None` exactly when the match does not exist or its side to move
    /// has no legal action.
    pub fn get_bot_action(&self, h: u64, difficulty: Difficulty) -> (r: Option<BotAction>)
        requires
            self.wf(),
        ensures
            !self.has(h) ==> r.is_none(),
            self.has(h) ==> {
                &&& (r.is_some() <==> has_candidate(
                    self.game_of(h),
                    self.game_of(h).current_turn,
                ))
                &&& (r matches Some(act) ==> bot_action_ok(self.game_of(h), act))
            },
    {
        let a = match self.find(h) {
            Some(a) => a,
            None => {
                return None;
            },
        };
        let bot = Bot::new(self.entries[a].game.current_turn(), difficulty);
        let mut actions = bot.choose_actions(&self.entries[a].game, 1);
        actions.pop()
    }

    /// The bot's best action reduced to a piece identity and a target
    /// tile; `None` exactly when `get_bot_action` returns `None`.
    pub fn get_bot_move(&self, h: u64, difficulty: Difficulty) -> (r: Option<(String, Position)>)
        requires
            self.wf(),
        ensures
            !self.has(h) ==> r.is_none(),
            self.has(h) ==> (r.is_some() <==> has_candidate(
                self.game_of(h),
                self.game_of(h).current_turn,
            )),
            r matches Some(t) ==> exists|i: int|
                0 <= i < 14 && t.0@ == crate::board::roster_id_view(i),
    {
        match self.get_bot_action(h, difficulty) {
            Some(act) => {
                let pos = if act.path.len() > 0 {
                    act.path[act.path.len() - 1]
                } else {
                    Position { row: 0, col: 0 }
                };
                Some((act.piece_id, pos))
            },
            None => None,
        }
    }

    /// Removes the match under `h`.  Returns whether one existed; every
    /// other handle and match is untouched, and queries on `h` afterwards
    /// report not-found, empty or `None`.
    pub fn delete_game(&mut self, h: u64) -> (r: bool)
        requires
            old(self).wf(),
        ensures
            final(self).wf(),
            r == old(self).has(h),
            !final(self).has(h),
            final(self).next_id == old(self).next_id,
            forall|h2: u64| h2 != h ==> final(self).has(h2) == old(self).has(h2),
            forall|h2: u64|
                h2 != h && old(self).has(h2) ==> final(self).game_of(h2) == old(self).game_of(h2),
    {
        let a = match self.find(h) {
            Some(a) => a,
            None => {
                return false;
            },
        };
        let ghost pre = *self;
        let ghost n = self.entries@.len();
        let _ = self.entries.swap_remove(a);
        proof {
            let post = *self;
            assert(post.entries@.len() == n - 1);
            assert forall|t: int|
                0 <= t < n - 1 implies (#[trigger] post.entries[t]) == (if t == a {
                pre.entries[n - 1]
            } else {
                pre.entries[t]
            }) by {}
            assert forall|x: int, y: int|
                0 <= x < y < n - 1 implies (#[trigger] post.entries[x]).id != (
            #[trigger] post.entries[y]).id by {
                let ox: int = if x == a {
                    n - 1
                } else {
                    x
                };
                let oy: int = if y == a {
                    n - 1
                } else {
                    y
                };
                assert(post.entries[x].id == pre.entries[ox].id);
                assert(post.entries[y].id == pre.entries[oy].id);
            }
            assert(!post.has(h)) by {
                if post.has(h) {
                    let t = post.index_of(h);
                    assert(0 <= t < n - 1 && post.entries[t].id == h);
                    let ot: int = if t == a {
                        n - 1
                    } else {
                        t
                    };
                    assert(pre.entries[ot].id == h);
                    assert(pre.entries[a as int].id == h);
                    pre.lemma_index_unique(h, a as int);
                    pre.lemma_index_unique(h, ot);
                }
            }
            assert forall|h2: u64| h2 != h implies post.has(h2) == pre.has(h2) by {
                if pre.has(h2) {
                    let t = pre.index_of(h2);
                    assert(0 <= t < n && pre.entries[t].id == h2);
                    assert(t != a) by {
                        if t == a {
                            assert(pre.entries[a as int].id == h);
                        }
                    }
                    if t == n - 1 {
                        if a < n - 1 {
                            assert(post.entries[a as int].id == h2);
                        }
                    } else {
                        assert(post.entries[t].id == h2);
                    }
                }
                if post.has(h2) {
                    let t = post.index_of(h2);
                    let ot: int = if t == a {
                        n - 1
                    } else {
                        t
                    };
                    assert(pre.entries[ot].id == h2);
                }
            }
            assert forall|h2: u64| h2 != h && pre.has(h2) implies post.game_of(h2)
                == pre.game_of(h2) by {
                let t = pre.index_of(h2);
                assert(0 <= t < n && pre.entries[t].id == h2);
                assert(t != a) by {
                    if t == a {
                        assert(pre.entries[a as int].id == h);
                    }
                }
                if t == n - 1 {
                    assert(a < n - 1) by {
                        if a == n - 1 {
                            assert(t == a);
                        }
                    }
                    assert(post.entries[a as int] == pre.entries[t]);
                    post.lemma_index_unique(h2, a as int);
                } else {
                    assert(post.entries[t] == pre.entries[t]);
                    post.lemma_index_unique(h2, t);
                }
            }
        }
        true
    }
}

} // verus!
