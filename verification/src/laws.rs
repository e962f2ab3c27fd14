//! Global laws of the engine, stated and proved as public proof functions.

use vstd::prelude::*;
use crate::board::{roster_id_view, Board, Piece};
use crate::game::{execute_contract, same_state, sched_step, ActionOutcome, GameMatch};
use crate::geometry::Position;
use crate::types::{ActionType, GameError, GameModeType, PieceRole, Team};

verus! {

/// How many of the first `n` pieces belong to team `t`.
pub open spec fn count_team(s: Seq<Piece>, t: Team, n: int) -> int
    decreases n,
{
    if n <= 0 {
        0
    } else {
        count_team(s, t, n - 1) + (if s[n - 1].team == t {
            1int
        } else {
            0int
        })
    }
}

/// How many of the first `n` pieces belong to team `t` with role `role`.
pub open spec fn count_role(s: Seq<Piece>, t: Team, role: PieceRole, n: int) -> int
    decreases n,
{
    if n <= 0 {
        0
    } else {
        count_role(s, t, role, n - 1) + (if s[n - 1].team == t && s[n - 1].role == role {
            1int
        } else {
            0int
        })
    }
}

/// Every well-formed board carries the full fixed roster: exactly 14
/// pieces, 7 per team, one goalkeeper per team, and pairwise distinct
/// identity strings.  Pieces are never created or destroyed during a
/// match, so this holds of a fresh match and stays true forever.
pub proof fn lemma_roster_counts(b: Board)
    requires
        b.wf(),
    ensures
        b.pieces.len() == 14,
        count_team(b.pieces@, Team::White, 14) == 7,
        count_team(b.pieces@, Team::Black, 14) == 7,
        count_role(b.pieces@, Team::White, PieceRole::Goalkeeper, 14) == 1,
        count_role(b.pieces@, Team::Black, PieceRole::Goalkeeper, 14) == 1,
        forall|i: int, j: int|
            0 <= i < 14 && 0 <= j < 14 && i != j ==> roster_id_view(i) != roster_id_view(j),
{
    reveal_with_fuel(count_team, 15);
    reveal_with_fuel(count_role, 15);
    lemma_roster_ids_unique();
}

/// The fourteen roster identity strings are pairwise distinct.
pub proof fn lemma_roster_ids_unique()
    ensures
        forall|i: int, j: int|
            0 <= i < 14 && 0 <= j < 14 && i != j ==> roster_id_view(i) != roster_id_view(j),
{
    reveal_strlit("WG01");
    reveal_strlit("WD01");
    reveal_strlit("WD02");
    reveal_strlit("WM01");
    reveal_strlit("WM02");
    reveal_strlit("WA01");
    reveal_strlit("WA02");
    reveal_strlit("BG01");
    reveal_strlit("BD01");
    reveal_strlit("BD02");
    reveal_strlit("BM01");
    reveal_strlit("BM02");
    reveal_strlit("BA01");
    reveal_strlit("BA02");
    assert forall|i: int, j: int|
        0 <= i < 14 && 0 <= j < 14 && i != j implies roster_id_view(i) != roster_id_view(j) by {
        assert(roster_id_view(i)[0] != roster_id_view(j)[0] || roster_id_view(i)[1]
            != roster_id_view(j)[1] || roster_id_view(i)[3] != roster_id_view(j)[3]);
    }
}

/// The ball is always in exactly one of its two states, and each is
/// coherent: a possessed ball sits on its owner's tile (it has no tile of
/// its own), and a loose ball sits on an on-board tile no piece occupies.
pub proof fn lemma_ball_state_coherent(b: Board)
    requires
        b.wf(),
    ensures
        match b.ball {
            crate::board::BallState::Held { holder } => holder < 14 && b.ball_tile()
                == b.pieces[holder as int].pos,
            crate::board::BallState::Loose { pos } => pos.in_bounds() && !b.occ_at(pos)
                && b.ball_tile() == pos,
        },
{
}

/// The action budget observable between calls is always 1 or 2: a turn
/// whose budget reaches 0 flips to the other team and resets to 2 within
/// the same execution call, so no caller ever sees 0 with a pending flip.
pub proof fn lemma_budget_observable(m: GameMatch)
    requires
        m.wf(),
    ensures
        m.actions_remaining == 1 || m.actions_remaining == 2,
{
}

/// Spending the last action of a budget flips the turn to the other team
/// and resets the budget to 2; spending the first merely decrements it.
/// (The one exception is a golden goal, which ends the match instantly.)
pub proof fn lemma_budget_flip(pre: GameMatch, post: GameMatch, goal: bool)
    requires
        sched_step(pre, post, goal),
        !(goal && pre.mode == GameModeType::GoldenGoal),
    ensures
        pre.actions_remaining == 2 ==> post.actions_remaining == 1 && post.current_turn
            == pre.current_turn && post.turn_number == pre.turn_number,
        pre.actions_remaining != 2 ==> post.actions_remaining == 2 && post.current_turn
            == pre.current_turn.spec_opponent(),
{
}

/// Executing any action in the legal set never fails: `legal_paths`
/// returns exactly the paths satisfying `action_allowed`, and the
/// executor accepts exactly those.
pub proof fn lemma_legal_action_never_fails(
    pre: GameMatch,
    post: GameMatch,
    from: Position,
    kind: ActionType,
    p: Seq<Position>,
    r: Result<ActionOutcome, GameError>,
)
    requires
        execute_contract(pre, post, from, kind, p, r),
        pre.action_allowed(from, kind, p),
    ensures
        r.is_ok(),
{
}

/// Executing any action not in the legal set of an existing piece always
/// fails with `IllegalAction`, and the match state before and after the
/// failed call is identical, field for field.
pub proof fn lemma_illegal_action_rejected(
    pre: GameMatch,
    post: GameMatch,
    from: Position,
    kind: ActionType,
    p: Seq<Position>,
    r: Result<ActionOutcome, GameError>,
)
    requires
        execute_contract(pre, post, from, kind, p, r),
        pre.started,
        !pre.over,
        pre.board.occ_at(from),
        !pre.action_allowed(from, kind, p),
    ensures
        r == Err::<ActionOutcome, GameError>(GameError::IllegalAction),
        same_state(post, pre),
{
}

/// A goal in golden-goal mode ends the match immediately, with the
/// scoring team as winner, regardless of the remaining action budget.
pub proof fn lemma_golden_goal_ends_match(pre: GameMatch, post: GameMatch)
    requires
        pre.mode == GameModeType::GoldenGoal,
        sched_step(pre, post, true),
    ensures
        post.over,
        post.winner == Some(pre.current_turn),
{
}

/// In the limited modes a match is over exactly when the turn number has
/// reached the mode's ceiling, and never before.
pub proof fn lemma_limited_over_exactly_at_ceiling(m: GameMatch)
    requires
        m.wf(),
        m.mode.is_limited(),
    ensures
        m.over <==> m.turn_number >= m.mode.spec_turn_limit(),
        m.turn_number < m.mode.spec_turn_limit() ==> !m.over,
{
}

} // verus!
