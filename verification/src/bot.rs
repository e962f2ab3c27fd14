//! The advisory bot: enumerates every legal candidate action of a team and
//! ranks them with a difficulty-dependent heuristic.  It never mutates the
//! match; execution goes through the normal action submission path, so the
//! same legality and turn checks apply to bot-chosen actions.

use vstd::prelude::*;
use crate::board::{roster_id, roster_id_view};
use crate::game::GameMatch;
use crate::geometry::{cheb, chebyshev, path_list_contains, Position};
use crate::types::{ActionType, Difficulty, Team};

verus! {

/// A complete action candidate: the acting piece's identity, the action
/// kind, and the full path.
#[derive(Clone, Debug)]
pub struct BotAction {
    pub piece_id: String,
    pub action_type: ActionType,
    pub path: Vec<Position>,
}

/// `a` names a real piece and a path that is in the legal set of that
/// piece for its kind on match `m`.
pub open spec fn bot_action_ok(m: GameMatch, a: BotAction) -> bool {
    exists|i: int|
        0 <= i < 14 && a.piece_id@ == roster_id_view(i) && m.action_allowed(
            m.board.pieces[i].pos,
            a.action_type,
            a.path@,
        )
}

/// Some piece of team `t` has a legal action on match `m`.
pub open spec fn has_candidate(m: GameMatch, t: Team) -> bool {
    exists|i: int, kind: ActionType, p: Seq<Position>|
        0 <= i < 14 && m.board.pieces[i].team == t && m.action_allowed(
            m.board.pieces[i].pos,
            kind,
            p,
        )
}

/// The seven action kinds, enumerated.
pub open spec fn spec_kind_of(k: int) -> ActionType {
    if k == 0 {
        ActionType::Move
    } else if k == 1 {
        ActionType::Pass
    } else if k == 2 {
        ActionType::Shoot
    } else if k == 3 {
        ActionType::Intercept
    } else if k == 4 {
        ActionType::Kick
    } else if k == 5 {
        ActionType::Defend
    } else {
        ActionType::Push
    }
}

/// The seven action kinds, enumerated.
pub fn kind_of(k: u8) -> (r: ActionType)
    requires
        k < 7,
    ensures
        r == spec_kind_of(k as int),
{
    match k {
        0 => ActionType::Move,
        1 => ActionType::Pass,
        2 => ActionType::Shoot,
        3 => ActionType::Intercept,
        4 => ActionType::Kick,
        5 => ActionType::Defend,
        _ => ActionType::Push,
    }
}

/// The position of each action kind in the enumeration.
pub open spec fn spec_kind_index(kind: ActionType) -> int {
    match kind {
        ActionType::Move => 0,
        ActionType::Pass => 1,
        ActionType::Shoot => 2,
        ActionType::Intercept => 3,
        ActionType::Kick => 4,
        ActionType::Defend => 5,
        ActionType::Push => 6,
    }
}

/// Every action kind appears in the enumeration, at its index.
pub proof fn lemma_kinds_enumerated()
    ensures
        forall|kind: ActionType|
            0 <= #[trigger] spec_kind_index(kind) < 7 && spec_kind_of(spec_kind_index(kind))
                == kind,
{
}

/// A scored candidate in the bot's pool.
struct Scored {
    score: u32,
    act: BotAction,
}

/// A copy of a tile vector.
fn copy_tiles(src: &Vec<Position>) -> (r: Vec<Position>)
    ensures
        r@ == src@,
{
    let mut r: Vec<Position> = Vec::new();
    let n = src.len();
    let mut t: usize = 0;
    while t < n
        invariant
            n == src.len(),
            t <= n,
            r@.len() == t,
            forall|j: int| 0 <= j < t ==> r@[j] == src@[j],
        decreases n - t,
    {
        r.push(src[t]);
        t = t + 1;
    }
    proof {
        assert(r@ =~= src@);
    }
    r
}

/// Difficulty-dependent score of one candidate.  Easy is near-uniform and
/// keeps no signal; Medium weighs action kinds (shots far above passes and
/// advances) and favors paths ending near the goal the team attacks.
fn score_candidate(team: Team, kind: ActionType, path: &Vec<Position>, difficulty: Difficulty) -> (
    r: u32)
{
    match difficulty {
        Difficulty::Easy => 1,
        Difficulty::Medium => {
            let base: u32 = match kind {
                ActionType::Shoot => 1000,
                ActionType::Intercept => 400,
                ActionType::Pass => 300,
                ActionType::Kick => 200,
                ActionType::Push => 150,
                ActionType::Defend => 120,
                ActionType::Move => 100,
            };
            let goal_center = match team {
                Team::White => Position { row: 7, col: 3 },
                Team::Black => Position { row: 0, col: 3 },
            };
            if path.len() == 0 {
                return base;
            }
            let terminal = path[path.len() - 1];
            let c = chebyshev(terminal, goal_center);
            let advance: u32 = if c < 8 {
                (7 - c) as u32
            } else {
                0
            };
            base + 10 * advance
        },
    }
}

/// The bot for one team at one difficulty.
#[derive(Clone, Copy, Debug)]
pub struct Bot {
    pub team: Team,
    pub difficulty: Difficulty,
}

impl Bot {
    /// A bot advising `team` at the given difficulty.
    pub fn new(team: Team, difficulty: Difficulty) -> (r: Bot)
        ensures
            r.team == team,
            r.difficulty == difficulty,
    {
        Bot { team, difficulty }
    }

    /// Up to `count` candidate actions for this bot's team, best first by
    /// the difficulty's heuristic.  Every returned action is legal on `m`;
    /// the result is empty exactly when the team has no legal action (in
    /// particular whenever it is not this team's turn), never on a whim.
    pub fn choose_actions(&self, m: &GameMatch, count: usize) -> (r: Vec<BotAction>)
        requires
            m.wf(),
        ensures
            forall|t: int| 0 <= t < r@.len() ==> bot_action_ok(*m, #[trigger] r@[t]),
            r@.len() <= count,
            count > 0 ==> (r@.len() > 0 <==> has_candidate(*m, self.team)),
    {
        let mut pool: Vec<Scored> = Vec::new();
        let mut i: usize = 0;
        while i < 14
            invariant
                m.wf(),
                i <= 14,
                forall|t: int| 0 <= t < pool@.len() ==> bot_action_ok(*m, (#[trigger] pool@[t]).act),
                pool@.len() > 0 <==> exists|ii: int, kk: int, p: Seq<Position>|
                    0 <= ii < i && 0 <= kk < 7 && m.board.pieces[ii].team == self.team
                        && #[trigger] m.action_allowed(
                        m.board.pieces[ii].pos,
                        spec_kind_of(kk),
                        p,
                    ),
            decreases 14 - i,
        {
            if self.board_team(m, i) {
                let pos = m.board.pieces[i].pos;
                let mut kk: u8 = 0;
                while kk < 7
                    invariant
                        m.wf(),
                        i < 14,
                        kk <= 7,
                        m.board.pieces[i as int].team == self.team,
                        pos == m.board.pieces[i as int].pos,
                        forall|t: int|
                            0 <= t < pool@.len() ==> bot_action_ok(*m, (#[trigger] pool@[t]).act),
                        pool@.len() > 0 <==> exists|ii: int, kkk: int, p: Seq<Position>|
                            0 <= ii < 14 && 0 <= kkk < 7 && (ii < i || (ii == i && kkk < kk))
                                && m.board.pieces[ii].team == self.team
                                && #[trigger] m.action_allowed(
                                m.board.pieces[ii].pos,
                                spec_kind_of(kkk),
                                p,
                            ),
                    decreases 7 - kk,
                {
                    let kind = kind_of(kk);
                    let paths = m.legal_paths(pos, kind);
                    let n = paths.len();
                    let mut t: usize = 0;
                    while t < n
                        invariant
                            m.wf(),
                            i < 14,
                            kk < 7,
                            kind == spec_kind_of(kk as int),
                            m.board.pieces[i as int].team == self.team,
                            pos == m.board.pieces[i as int].pos,
                            n == paths.len(),
                            t <= n,
                            forall|p: Seq<Position>|
                                path_list_contains(paths@, p) <==> m.action_allowed(pos, kind, p),
                            forall|tt: int|
                                0 <= tt < pool@.len() ==> bot_action_ok(
                                    *m,
                                    (#[trigger] pool@[tt]).act,
                                ),
                            pool@.len() > 0 <==> (t > 0 && n > 0) || exists|
                                ii: int,
                                kkk: int,
                                p: Seq<Position>,
                            |
                                0 <= ii < 14 && 0 <= kkk < 7 && (ii < i || (ii == i && kkk
                                    < kk)) && m.board.pieces[ii].team == self.team
                                    && #[trigger] m.action_allowed(
                                    m.board.pieces[ii].pos,
                                    spec_kind_of(kkk),
                                    p,
                                ),
                        decreases n - t,
                    {
                        let path = copy_tiles(&paths[t].positions);
                        proof {
                            assert(paths@[t as int]@ == path@);
                            assert(path_list_contains(paths@, path@));
                            assert(m.action_allowed(pos, kind, path@));
                        }
                        let score = score_candidate(self.team, kind, &path, self.difficulty);
                        let act = BotAction { piece_id: roster_id(i), action_type: kind, path };
                        proof {
                            assert(bot_action_ok(*m, act));
                        }
                        pool.push(Scored { score, act });
                        t = t + 1;
                    }
                    proof {
                        if n > 0 {
                            assert(path_list_contains(paths@, paths@[0]@));
                            assert(m.action_allowed(pos, kind, paths@[0]@));
                        }
                        if exists|p: Seq<Position>|
                            m.action_allowed(pos, spec_kind_of(kk as int), p) {
                            let p = choose|p: Seq<Position>|
                                m.action_allowed(pos, spec_kind_of(kk as int), p);
                            assert(path_list_contains(paths@, p));
                            assert(n > 0);
                        }
                    }
                    kk = kk + 1;
                }
            } else {
                proof {
                    assert(m.board.pieces[i as int].team != self.team);
                }
            }
            i = i + 1;
        }
        proof {
            lemma_kinds_enumerated();
            if pool@.len() > 0 {
                let (ii, kk, p) = choose|ii: int, kk: int, p: Seq<Position>|
                    0 <= ii < 14 && 0 <= kk < 7 && m.board.pieces[ii].team == self.team
                        && #[trigger] m.action_allowed(
                        m.board.pieces[ii].pos,
                        spec_kind_of(kk),
                        p,
                    );
                assert(m.action_allowed(m.board.pieces[ii].pos, spec_kind_of(kk), p));
                assert(has_candidate(*m, self.team));
            }
            if has_candidate(*m, self.team) {
                let (ii, kind, p) = choose|ii: int, kind: ActionType, p: Seq<Position>|
                    0 <= ii < 14 && m.board.pieces[ii].team == self.team && m.action_allowed(
                        m.board.pieces[ii].pos,
                        kind,
                        p,
                    );
                let kk = spec_kind_index(kind);
                assert(0 <= kk < 7 && spec_kind_of(kk) == kind);
                assert(m.action_allowed(m.board.pieces[ii].pos, spec_kind_of(kk), p));
                assert(pool@.len() > 0);
            }
            assert(pool@.len() > 0 <==> has_candidate(*m, self.team));
        }
        let mut r: Vec<BotAction> = Vec::new();
        let ghost pool_had = pool@.len() > 0;
        while r.len() < count && pool.len() > 0
            invariant
                m.wf(),
                r@.len() <= count,
                forall|t: int| 0 <= t < r@.len() ==> bot_action_ok(*m, #[trigger] r@[t]),
                forall|t: int| 0 <= t < pool@.len() ==> bot_action_ok(*m, (#[trigger] pool@[t]).act),
                pool_had ==> (r@.len() > 0 || pool@.len() > 0),
                !pool_had ==> (r@.len() == 0 && pool@.len() == 0),
            decreases count - r.len(),
        {
            let mut best: usize = 0;
            let mut t: usize = 1;
            while t < pool.len()
                invariant
                    t <= pool@.len(),
                    best < pool@.len(),
                decreases pool@.len() - t,
            {
                if pool[t].score > pool[best].score {
                    best = t;
                }
                t = t + 1;
            }
            let ghost pool_before = pool@;
            let chosen = pool.swap_remove(best);
            proof {
                assert(bot_action_ok(*m, chosen.act));
                assert forall|tt: int|
                    0 <= tt < pool@.len() implies bot_action_ok(
                    *m,
                    (#[trigger] pool@[tt]).act,
                ) by {
                    assert(pool@[tt] == pool_before[tt] || pool@[tt] == pool_before[pool_before.len()
                        - 1]);
                }
            }
            r.push(chosen.act);
        }
        r
    }

    /// Whether piece `i` belongs to this bot's team.
    fn board_team(&self, m: &GameMatch, i: usize) -> (r: bool)
        requires
            m.wf(),
            i < 14,
        ensures
            r == (m.board.pieces[i as int].team == self.team),
    {
        m.board.pieces[i].team == self.team
    }
}

} // verus!
