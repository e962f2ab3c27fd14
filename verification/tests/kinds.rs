//! The remaining action kinds: shots and goals in each mode, intercepts,
//! pushes, defends, kicks, and loose-ball pickup.

use xfutebol::board::BallState;
use xfutebol::game::GameMatch;
use xfutebol::geometry::Position;
use xfutebol::types::{ActionType, GameModeType, Team};

fn pos(row: u8, col: u8) -> Position {
    Position { row, col }
}

fn started(mode: GameModeType) -> GameMatch {
    let mut m = GameMatch::standard(mode);
    m.start(Team::White);
    m
}

/// Puts the white first attacker (the kickoff ball holder) two tiles in
/// front of the black goal, with a clear shooting lane to (7, 3).
fn place_white_attacker_for_shot(m: &mut GameMatch) {
    m.board.pieces[5].pos = pos(5, 3);
}

#[test]
fn test_shoot_path_generated_in_range() {
    let mut m = started(GameModeType::StandardMatch);
    place_white_attacker_for_shot(&mut m);
    let shoots = m.legal_paths(pos(5, 3), ActionType::Shoot);
    assert!(!shoots.is_empty(), "a clear lane to the goal offers a shot");
    let has_straight = shoots
        .iter()
        .any(|p| p.positions == vec![pos(6, 3), pos(7, 3)]);
    assert!(has_straight, "the straight lane to (7,3) is among the shots");
}

#[test]
fn test_shoot_scores_and_resets_possession_in_standard() {
    let mut m = started(GameModeType::StandardMatch);
    place_white_attacker_for_shot(&mut m);
    let path = vec![pos(6, 3), pos(7, 3)];
    let outcome = m.execute(pos(5, 3), ActionType::Shoot, &path).unwrap();
    assert_eq!(outcome.goal_scored, Some(Team::White));
    assert!(!outcome.game_over, "a standard match continues after a goal");
    assert_eq!(m.white_score, 1);
    assert_eq!(m.black_score, 0);
    // Kickoff rule: the conceding team's first attacker receives the ball.
    assert_eq!(m.board.ball, BallState::Held { holder: 12 });
}

#[test]
fn test_golden_goal_ends_match_immediately() {
    let mut m = started(GameModeType::GoldenGoal);
    place_white_attacker_for_shot(&mut m);
    assert_eq!(m.actions_remaining, 2);
    let path = vec![pos(6, 3), pos(7, 3)];
    let outcome = m.execute(pos(5, 3), ActionType::Shoot, &path).unwrap();
    // The match is over at once, with the full budget still standing.
    assert!(outcome.game_over);
    assert_eq!(outcome.winner, Some(Team::White));
    assert!(m.over);
    assert_eq!(m.winner, Some(Team::White));
    assert_eq!(m.white_score, 1);
}

#[test]
fn test_golden_goal_rejects_actions_after_goal() {
    let mut m = started(GameModeType::GoldenGoal);
    place_white_attacker_for_shot(&mut m);
    let path = vec![pos(6, 3), pos(7, 3)];
    m.execute(pos(5, 3), ActionType::Shoot, &path).unwrap();
    // Any further submission is rejected without touching the state.
    let r = m.execute(pos(4, 4), ActionType::Move, &vec![pos(5, 4)]);
    assert_eq!(r, Err(xfutebol::types::GameError::IllegalAction));
    assert_eq!(m.winner, Some(Team::White));
}

#[test]
fn test_intercept_transfers_possession_without_moving() {
    let mut m = started(GameModeType::StandardMatch);
    // White spends its two actions away from the ball.
    m.execute(pos(2, 2), ActionType::Move, &vec![pos(2, 1)]).unwrap();
    m.execute(pos(2, 5), ActionType::Move, &vec![pos(2, 6)]).unwrap();
    assert_eq!(m.current_turn, Team::Black);
    // Black's second attacker on (4, 3) sits next to the holder on (3, 3).
    let intercepts = m.legal_paths(pos(4, 3), ActionType::Intercept);
    assert_eq!(intercepts.len(), 1);
    assert_eq!(intercepts[0].positions, vec![pos(3, 3)]);
    let outcome = m.execute(pos(4, 3), ActionType::Intercept, &vec![pos(3, 3)]).unwrap();
    // Possession moves to the interceptor; no piece moves, no turn flip
    // beyond the normal budget decrement.
    assert_eq!(m.board.ball, BallState::Held { holder: 13 });
    assert_eq!(m.board.pieces[13].pos, pos(4, 3));
    assert_eq!(outcome.actions_remaining, 1);
    assert_eq!(m.current_turn, Team::Black);
}

#[test]
fn test_intercept_illegal_when_not_adjacent() {
    let mut m = started(GameModeType::StandardMatch);
    m.execute(pos(2, 2), ActionType::Move, &vec![pos(2, 1)]).unwrap();
    m.execute(pos(2, 5), ActionType::Move, &vec![pos(2, 6)]).unwrap();
    // The black goalkeeper on (7, 4) is nowhere near the holder.
    let intercepts = m.legal_paths(pos(7, 4), ActionType::Intercept);
    assert!(intercepts.is_empty());
    let r = m.execute(pos(7, 4), ActionType::Intercept, &vec![pos(3, 3)]);
    assert_eq!(r, Err(xfutebol::types::GameError::IllegalAction));
}

#[test]
fn test_push_displaces_adjacent_opponent() {
    let mut m = started(GameModeType::StandardMatch);
    // White's holder on (3, 3) pushes the black attacker on (4, 3) away to
    // (5, 3): adjacent to the target and two tiles from the pusher.
    let pushes = m.legal_paths(pos(3, 3), ActionType::Push);
    let wanted = vec![pos(4, 3), pos(5, 3)];
    assert!(pushes.iter().any(|p| p.positions == wanted));
    m.execute(pos(3, 3), ActionType::Push, &wanted).unwrap();
    assert_eq!(m.board.pieces[13].pos, pos(5, 3), "the opponent was displaced");
    assert_eq!(m.board.pieces[5].pos, pos(3, 3), "the pusher stays in place");
    assert_eq!(m.board.ball, BallState::Held { holder: 5 }, "possession is unchanged");
}

#[test]
fn test_push_toward_pusher_is_illegal() {
    let mut m = started(GameModeType::StandardMatch);
    // (3, 2) is adjacent to the target but not away from the pusher.
    let r = m.execute(pos(3, 3), ActionType::Push, &vec![pos(4, 3), pos(3, 2)]);
    assert_eq!(r, Err(xfutebol::types::GameError::IllegalAction));
}

#[test]
fn test_defend_moves_toward_ball_without_moving_it() {
    let mut m = started(GameModeType::StandardMatch);
    // The white defender on (1, 2) steps to (2, 3), one tile closer to the
    // ball on (3, 3).
    let defends = m.legal_paths(pos(1, 2), ActionType::Defend);
    let wanted = vec![pos(2, 3)];
    assert!(defends.iter().any(|p| p.positions == wanted));
    m.execute(pos(1, 2), ActionType::Defend, &wanted).unwrap();
    assert_eq!(m.board.pieces[1].pos, pos(2, 3));
    assert_eq!(m.board.ball, BallState::Held { holder: 5 }, "defending never moves the ball");
}

#[test]
fn test_defend_away_from_ball_is_illegal() {
    let mut m = started(GameModeType::StandardMatch);
    // (0, 1) is farther from the ball than (1, 2) is.
    let r = m.execute(pos(1, 2), ActionType::Defend, &vec![pos(0, 1)]);
    assert_eq!(r, Err(xfutebol::types::GameError::IllegalAction));
}

#[test]
fn test_defend_illegal_for_ball_holder() {
    let mut m = started(GameModeType::StandardMatch);
    let defends = m.legal_paths(pos(3, 3), ActionType::Defend);
    assert!(defends.is_empty(), "the holder may not defend");
}

#[test]
fn test_kick_clears_loose_ball() {
    let mut m = started(GameModeType::StandardMatch);
    // Stage a loose ball on the empty tile (3, 5), next to the white
    // attacker on (3, 4).
    m.board.ball = BallState::Loose { pos: pos(3, 5) };
    let kicks = m.legal_paths(pos(3, 4), ActionType::Kick);
    assert!(!kicks.is_empty(), "an adjacent piece may kick a loose ball");
    let path = kicks[0].positions.clone();
    let terminal = *path.last().unwrap();
    m.execute(pos(3, 4), ActionType::Kick, &path).unwrap();
    assert_eq!(m.board.ball, BallState::Loose { pos: terminal });
}

#[test]
fn test_kick_illegal_while_ball_held() {
    let mut m = started(GameModeType::StandardMatch);
    let kicks = m.legal_paths(pos(3, 4), ActionType::Kick);
    assert!(kicks.is_empty(), "no kick while the ball is possessed");
}

#[test]
fn test_move_onto_loose_ball_picks_it_up() {
    let mut m = started(GameModeType::StandardMatch);
    m.board.ball = BallState::Loose { pos: pos(3, 5) };
    m.execute(pos(3, 4), ActionType::Move, &vec![pos(3, 5)]).unwrap();
    assert_eq!(m.board.ball, BallState::Held { holder: 6 }, "the arriving piece takes the ball");
}

#[test]
fn test_move_with_ball_has_reduced_range() {
    let m = started(GameModeType::StandardMatch);
    // The kickoff holder is an attacker (base range 3, carrying 2); its
    // teammate attacker has the full range 3.
    let holder_moves = m.legal_moves(pos(3, 3));
    assert!(holder_moves.contains(&pos(3, 1)), "two clear tiles are in range");
    assert!(!holder_moves.contains(&pos(3, 0)), "three tiles exceed the carrying range");
    let free_moves = m.legal_moves(pos(3, 4));
    assert!(free_moves.contains(&pos(3, 7)), "an attacker without the ball ranges three tiles");
}

#[test]
fn test_unstarted_match_rejects_actions() {
    let mut m = GameMatch::standard(GameModeType::StandardMatch);
    let r = m.execute(pos(3, 3), ActionType::Move, &vec![pos(4, 3)]);
    assert_eq!(r, Err(xfutebol::types::GameError::IllegalAction));
    assert!(m.legal_moves(pos(3, 3)).is_empty());
}

#[test]
fn test_action_result_error_shape() {
    let r = xfutebol::game::ActionResult::error(String::from("no such match"));
    assert!(!r.success);
    assert_eq!(r.message, "no such match");
    assert!(!r.game_over);
    assert!(r.winner.is_none());
    assert_eq!(r.actions_remaining, 0);
    assert!(r.goal_scored.is_none());
    assert!(!r.turn_ended);
}

#[test]
fn test_action_result_from_outcome_copies_fields() {
    let mut m = started(GameModeType::StandardMatch);
    let outcome = m.execute(pos(3, 3), ActionType::Move, &vec![pos(4, 2)]).unwrap();
    let r = xfutebol::game::ActionResult::from_outcome(&outcome);
    assert!(r.success);
    assert_eq!(r.game_over, outcome.game_over);
    assert_eq!(r.winner, outcome.winner);
    assert_eq!(r.actions_remaining, outcome.actions_remaining);
    assert_eq!(r.goal_scored, outcome.goal_scored);
    assert_eq!(r.turn_ended, outcome.turn_ended);
}
