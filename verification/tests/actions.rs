//! Action legality and execution: moves, passes, shots, and the error
//! taxonomy, including that failures never modify the board.

use xfutebol::game::BoardView;
use xfutebol::geometry::Position;
use xfutebol::store::MatchStore;
use xfutebol::types::{GameError, GameModeType, Team};

fn pos(row: u8, col: u8) -> Position {
    Position { row, col }
}

fn create_test_game() -> (MatchStore, u64) {
    let mut store = MatchStore::new();
    let id = store.new_game(GameModeType::StandardMatch);
    (store, id)
}

fn ball_holder_position(board: &BoardView) -> Position {
    board
        .pieces
        .iter()
        .find(|p| p.has_ball)
        .expect("a fresh match has a ball holder")
        .position
}

fn boards_identical(a: &BoardView, b: &BoardView) -> bool {
    a.pieces.len() == b.pieces.len()
        && a.pieces.iter().zip(b.pieces.iter()).all(|(x, y)| {
            x.id == y.id
                && x.team == y.team
                && x.role == y.role
                && x.position == y.position
                && x.has_ball == y.has_ball
        })
        && a.ball_position == b.ball_position
        && a.current_turn == b.current_turn
        && a.actions_remaining == b.actions_remaining
        && a.white_score == b.white_score
        && a.black_score == b.black_score
        && a.turn_number == b.turn_number
}

#[test]
fn test_get_legal_moves_returns_positions() {
    let (store, id) = create_test_game();
    let board = store.get_board(id).unwrap();
    let from = ball_holder_position(&board);
    let moves = store.get_legal_moves(id, from);
    assert!(!moves.is_empty());
}

#[test]
fn test_get_legal_moves_positions_are_valid() {
    let (store, id) = create_test_game();
    let board = store.get_board(id).unwrap();
    let from = ball_holder_position(&board);
    let moves = store.get_legal_moves(id, from);
    for p in moves {
        assert!(p.row < 8, "Row should be < 8");
        assert!(p.col < 8, "Col should be < 8");
    }
}

#[test]
fn test_get_legal_moves_invalid_game() {
    let (store, _) = create_test_game();
    let moves = store.get_legal_moves(424242, pos(3, 3));
    assert!(moves.is_empty(), "Should return empty vec for invalid game");
}

#[test]
fn test_get_legal_moves_empty_tile_is_empty() {
    let (store, id) = create_test_game();
    // (0, 0) holds no piece at kickoff.
    let moves = store.get_legal_moves(id, pos(0, 0));
    assert!(moves.is_empty());
}

#[test]
fn test_get_legal_moves_off_turn_is_empty() {
    let (store, id) = create_test_game();
    // Black's attacker may not move on White's turn.
    let moves = store.get_legal_moves(id, pos(4, 4));
    assert!(moves.is_empty());
}

#[test]
fn test_execute_move_returns_success() {
    let (mut store, id) = create_test_game();
    let board = store.get_board(id).unwrap();
    let from = ball_holder_position(&board);
    let moves = store.get_legal_moves(id, from);
    let target = moves[0];
    let result = store.execute_move(id, from, target);
    assert!(result.is_ok());
}

#[test]
fn test_execute_move_updates_actions_remaining() {
    let (mut store, id) = create_test_game();
    let board = store.get_board(id).unwrap();
    let from = ball_holder_position(&board);
    let moves = store.get_legal_moves(id, from);
    let outcome = store.execute_move(id, from, moves[0]).unwrap();
    // After one action, one remains.
    assert_eq!(outcome.actions_remaining, 1);
}

#[test]
fn test_execute_move_not_game_over() {
    let (mut store, id) = create_test_game();
    let board = store.get_board(id).unwrap();
    let from = ball_holder_position(&board);
    let moves = store.get_legal_moves(id, from);
    let outcome = store.execute_move(id, from, moves[0]).unwrap();
    assert!(!outcome.game_over);
}

#[test]
fn test_execute_move_no_winner() {
    let (mut store, id) = create_test_game();
    let board = store.get_board(id).unwrap();
    let from = ball_holder_position(&board);
    let moves = store.get_legal_moves(id, from);
    let outcome = store.execute_move(id, from, moves[0]).unwrap();
    assert!(outcome.winner.is_none());
}

#[test]
fn test_execute_move_invalid_game_returns_error() {
    let (mut store, _) = create_test_game();
    let result = store.execute_move(31337, pos(3, 3), pos(4, 2));
    assert_eq!(result, Err(GameError::MatchNotFound));
}

#[test]
fn test_execute_move_empty_tile_piece_not_found() {
    let (mut store, id) = create_test_game();
    let result = store.execute_move(id, pos(0, 0), pos(0, 1));
    assert_eq!(result, Err(GameError::PieceNotFound));
}

#[test]
fn test_execute_move_off_turn_is_illegal() {
    let (mut store, id) = create_test_game();
    // Black's attacker on (4, 4) may not act on White's turn.
    let result = store.execute_move(id, pos(4, 4), pos(5, 4));
    assert_eq!(result, Err(GameError::IllegalAction));
}

#[test]
fn test_execute_every_legal_move_succeeds() {
    // Every destination the generator returns executes without error.
    let (store0, id0) = create_test_game();
    let board = store0.get_board(id0).unwrap();
    let from = ball_holder_position(&board);
    let moves = store0.get_legal_moves(id0, from);
    assert!(!moves.is_empty());
    for target in moves {
        let (mut store, id) = create_test_game();
        let result = store.execute_move(id, from, target);
        assert!(result.is_ok(), "legal move must execute");
    }
}

#[test]
fn test_execute_illegal_move_rejected_and_board_unchanged() {
    let (mut store, id) = create_test_game();
    let board_before = store.get_board(id).unwrap();
    let from = ball_holder_position(&board_before);
    let moves = store.get_legal_moves(id, from);
    let illegal = pos(7, 7);
    assert!(!moves.contains(&illegal), "far corner is out of range");
    let result = store.execute_move(id, from, illegal);
    assert_eq!(result, Err(GameError::IllegalAction));
    let board_after = store.get_board(id).unwrap();
    assert!(
        boards_identical(&board_before, &board_after),
        "a failed action must leave the board untouched"
    );
}

#[test]
fn test_get_legal_passes_for_ball_holder() {
    let (store, id) = create_test_game();
    let board = store.get_board(id).unwrap();
    let from = ball_holder_position(&board);
    let passes = store.get_legal_passes(id, from);
    assert!(!passes.is_empty(), "Ball holder should have pass options");
}

#[test]
fn test_get_legal_passes_returns_paths() {
    let (store, id) = create_test_game();
    let board = store.get_board(id).unwrap();
    let from = ball_holder_position(&board);
    let passes = store.get_legal_passes(id, from);
    for path in passes {
        assert!(
            !path.positions.is_empty(),
            "Each pass path should have at least one position"
        );
        for p in &path.positions {
            assert!(p.row < 8 && p.col < 8, "Positions should be valid");
        }
    }
}

#[test]
fn test_get_legal_passes_non_holder_is_empty() {
    let (store, id) = create_test_game();
    // The white goalkeeper on (0, 3) does not hold the ball.
    let passes = store.get_legal_passes(id, pos(0, 3));
    assert!(passes.is_empty());
}

#[test]
fn test_get_legal_passes_invalid_game() {
    let (store, _) = create_test_game();
    let passes = store.get_legal_passes(99999, pos(3, 3));
    assert!(passes.is_empty(), "Should return empty vec for invalid game");
}

#[test]
fn test_execute_legal_pass_transfers_possession() {
    let (mut store, id) = create_test_game();
    let board = store.get_board(id).unwrap();
    let from = ball_holder_position(&board);
    let passes = store.get_legal_passes(id, from);
    assert!(!passes.is_empty());
    let path = passes[0].positions.clone();
    let target = *path.last().unwrap();
    let outcome = store.execute_pass(id, from, &path).unwrap();
    assert_eq!(outcome.actions_remaining, 1);
    let after = store.get_board(id).unwrap();
    let holder = after.pieces.iter().find(|p| p.has_ball).unwrap();
    assert_eq!(holder.position, target, "the pass target now holds the ball");
    assert_eq!(holder.team, Team::White, "passes stay within the team");
}

#[test]
fn test_get_legal_shoots_for_ball_holder() {
    let (store, id) = create_test_game();
    let board = store.get_board(id).unwrap();
    let from = ball_holder_position(&board);
    // Shots may be empty out of range; every returned tile must be valid.
    let shoots = store.get_legal_shoots(id, from);
    for path in shoots {
        for p in &path.positions {
            assert!(p.row < 8 && p.col < 8, "Positions should be valid");
        }
    }
}

#[test]
fn test_get_legal_shoots_out_of_range_is_empty() {
    let (store, id) = create_test_game();
    // The kickoff holder on (3, 3) is more than three tiles from the goal.
    let shoots = store.get_legal_shoots(id, pos(3, 3));
    assert!(shoots.is_empty());
}

#[test]
fn test_get_legal_shoots_invalid_game() {
    let (store, _) = create_test_game();
    let shoots = store.get_legal_shoots(99999, pos(3, 3));
    assert!(shoots.is_empty(), "Should return empty vec for invalid game");
}

#[test]
fn test_full_game_flow_multiple_moves() {
    let mut store = MatchStore::new();
    let id = store.new_game(GameModeType::StandardMatch);

    let board1 = store.get_board(id).unwrap();
    assert_eq!(board1.actions_remaining, 2);
    assert_eq!(board1.current_turn, Team::White);

    let holder = board1.pieces.iter().find(|p| p.has_ball).unwrap();
    let holder_id = holder.id.clone();
    let original_pos = holder.position;

    let moves = store.get_legal_moves(id, original_pos);
    assert!(!moves.is_empty(), "Ball holder should have legal moves");

    let result1 = store.execute_move(id, original_pos, moves[0]).unwrap();
    assert_eq!(result1.actions_remaining, 1, "Should have 1 action left");

    let board2 = store.get_board(id).unwrap();
    assert_eq!(board2.actions_remaining, 1);

    let moved_piece = board2.pieces.iter().find(|p| p.id == holder_id).unwrap();
    assert_eq!(moved_piece.position.row, moves[0].row, "Piece should have moved to target row");
    assert_eq!(moved_piece.position.col, moves[0].col, "Piece should have moved to target col");
    assert_ne!(
        (moved_piece.position.row, moved_piece.position.col),
        (original_pos.row, original_pos.col),
        "Position should have changed"
    );

    let moves2 = store.get_legal_moves(id, moved_piece.position);
    assert!(!moves2.is_empty(), "Ball holder should still have moves");

    let result2 = store.execute_move(id, moved_piece.position, moves2[0]);
    assert!(result2.is_ok(), "Second move should succeed");

    let board3 = store.get_board(id).unwrap();
    assert_eq!(board3.current_turn, Team::Black, "Turn should switch to Black");
    assert_eq!(board3.actions_remaining, 2, "Black should have 2 actions");
}

#[test]
fn test_turn_flip_reported_in_outcome() {
    let (mut store, id) = create_test_game();
    let board = store.get_board(id).unwrap();
    let from = ball_holder_position(&board);
    let moves = store.get_legal_moves(id, from);
    let first = store.execute_move(id, from, moves[0]).unwrap();
    assert!(!first.turn_ended);
    let moves2 = store.get_legal_moves(id, moves[0]);
    let second = store.execute_move(id, moves[0], moves2[0]).unwrap();
    assert!(second.turn_ended, "spending the second action ends the turn");
    assert_eq!(second.actions_remaining, 2, "the budget resets for the other team");
}

#[test]
fn test_execute_invalid_move_returns_error() {
    let (mut store, id) = create_test_game();
    let board = store.get_board(id).unwrap();
    let from = ball_holder_position(&board);
    let legal_moves = store.get_legal_moves(id, from);
    // The far corner is not among the holder's legal destinations.
    let illegal_pos = pos(7, 7);
    assert!(!legal_moves.contains(&illegal_pos));
    let result = store.execute_move(id, from, illegal_pos);
    assert_eq!(result, Err(GameError::IllegalAction));
}

#[test]
fn test_execute_move_message_not_empty() {
    let (mut store, id) = create_test_game();
    let board = store.get_board(id).unwrap();
    let from = ball_holder_position(&board);
    let moves = store.get_legal_moves(id, from);
    let outcome = store.execute_move(id, from, moves[0]).unwrap();
    let result = xfutebol::game::ActionResult::from_outcome(&outcome);
    assert!(!result.message.is_empty());
}
