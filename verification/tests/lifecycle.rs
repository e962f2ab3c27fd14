//! Match lifecycle: creation, board projection, status queries, deletion.

use xfutebol::game::BoardView;
use xfutebol::geometry::Position;
use xfutebol::store::MatchStore;
use xfutebol::types::{GameModeType, PieceRole, Team};

fn create_test_store() -> (MatchStore, u64) {
    let mut store = MatchStore::new();
    let id = store.new_game(GameModeType::StandardMatch);
    (store, id)
}

fn find_ball_holder(board: &BoardView) -> usize {
    board
        .pieces
        .iter()
        .position(|p| p.has_ball)
        .expect("a fresh match has a ball holder")
}

#[test]
fn test_new_game_stores_in_games() {
    let (store, id) = create_test_store();
    assert!(store.game_exists(id));
}

#[test]
fn test_new_game_different_modes() {
    let mut store = MatchStore::new();
    let quick = store.new_game(GameModeType::QuickMatch);
    let standard = store.new_game(GameModeType::StandardMatch);
    let golden = store.new_game(GameModeType::GoldenGoal);

    assert!(store.game_exists(quick));
    assert!(store.game_exists(standard));
    assert!(store.game_exists(golden));

    assert_ne!(quick, standard);
    assert_ne!(standard, golden);
}

#[test]
fn test_get_board_returns_14_pieces() {
    let (store, id) = create_test_store();
    let board = store.get_board(id).unwrap();
    // The engine uses 14 pieces (7 per team): 1 GK, 2 DEF, 2 MID, 2 ATT.
    assert_eq!(board.pieces.len(), 14);
}

#[test]
fn test_get_board_correct_team_distribution() {
    let (store, id) = create_test_store();
    let board = store.get_board(id).unwrap();
    let white_count = board.pieces.iter().filter(|p| p.team == Team::White).count();
    let black_count = board.pieces.iter().filter(|p| p.team == Team::Black).count();
    assert_eq!(white_count, 7);
    assert_eq!(black_count, 7);
}

#[test]
fn test_get_board_initial_turn_is_white() {
    let (store, id) = create_test_store();
    let board = store.get_board(id).unwrap();
    assert_eq!(board.current_turn, Team::White);
}

#[test]
fn test_get_board_initial_score_is_zero() {
    let (store, id) = create_test_store();
    let board = store.get_board(id).unwrap();
    assert_eq!(board.white_score, 0);
    assert_eq!(board.black_score, 0);
}

#[test]
fn test_get_board_initial_turn_number() {
    let (store, id) = create_test_store();
    let board = store.get_board(id).unwrap();
    // The turn number starts at 0.
    assert!(board.turn_number <= 1);
}

#[test]
fn test_get_board_has_exactly_one_ball_holder() {
    let (store, id) = create_test_store();
    let board = store.get_board(id).unwrap();
    let ball_holders: Vec<_> = board.pieces.iter().filter(|p| p.has_ball).collect();
    assert_eq!(ball_holders.len(), 1);
}

#[test]
fn test_get_board_ball_holder_is_white_attacker() {
    let (store, id) = create_test_store();
    let board = store.get_board(id).unwrap();
    let holder = &board.pieces[find_ball_holder(&board)];
    assert_eq!(holder.team, Team::White);
    assert_eq!(holder.role, PieceRole::Attacker);
}

#[test]
fn test_get_board_has_two_goalkeepers() {
    let (store, id) = create_test_store();
    let board = store.get_board(id).unwrap();
    let goalkeepers: Vec<_> = board
        .pieces
        .iter()
        .filter(|p| p.role == PieceRole::Goalkeeper)
        .collect();
    assert_eq!(goalkeepers.len(), 2);
}

#[test]
fn test_get_board_piece_ids_are_strings() {
    let (store, id) = create_test_store();
    let board = store.get_board(id).unwrap();
    for piece in &board.pieces {
        assert!(!piece.id.is_empty());
        // Engine format: "WG01", "BA01", etc.
        assert!(piece.id.len() >= 3);
    }
}

#[test]
fn test_get_board_piece_ids_are_unique() {
    let (store, id) = create_test_store();
    let board = store.get_board(id).unwrap();
    let mut ids: Vec<String> = board.pieces.iter().map(|p| p.id.clone()).collect();
    ids.sort();
    ids.dedup();
    assert_eq!(ids.len(), 14);
}

#[test]
fn test_get_board_actions_remaining() {
    let (store, id) = create_test_store();
    let board = store.get_board(id).unwrap();
    assert_eq!(board.actions_remaining, 2);
}

#[test]
fn test_get_board_invalid_id_returns_none() {
    let (store, _) = create_test_store();
    let board = store.get_board(u64::MAX - 1);
    assert!(board.is_none());
}

#[test]
fn test_get_board_loose_ball_position_none_when_held() {
    let (store, id) = create_test_store();
    let board = store.get_board(id).unwrap();
    // The ball starts possessed, so no loose-ball tile is reported.
    assert!(board.ball_position.is_none());
}

#[test]
fn test_piece_ids_match_engine_format() {
    let (store, id) = create_test_store();
    let board = store.get_board(id).unwrap();

    for piece in &board.pieces {
        assert!(piece.id.len() >= 4, "ID should have at least 4 chars: {}", piece.id);

        let first_char = piece.id.chars().next().unwrap();
        match piece.team {
            Team::White => assert_eq!(first_char, 'W', "White piece should start with W"),
            Team::Black => assert_eq!(first_char, 'B', "Black piece should start with B"),
        }

        let second_char = piece.id.chars().nth(1).unwrap();
        match piece.role {
            PieceRole::Goalkeeper => assert_eq!(second_char, 'G', "Goalkeeper should have G"),
            PieceRole::Defender => assert_eq!(second_char, 'D', "Defender should have D"),
            PieceRole::Midfielder => assert_eq!(second_char, 'M', "Midfielder should have M"),
            PieceRole::Attacker => assert_eq!(second_char, 'A', "Attacker should have A"),
        }
    }
}

#[test]
fn test_game_mode_affects_max_turns() {
    let mut store = MatchStore::new();
    let quick_id = store.new_game(GameModeType::QuickMatch);
    let standard_id = store.new_game(GameModeType::StandardMatch);
    let golden_id = store.new_game(GameModeType::GoldenGoal);

    let quick_board = store.get_board(quick_id).unwrap();
    let standard_board = store.get_board(standard_id).unwrap();
    let golden_board = store.get_board(golden_id).unwrap();

    assert_eq!(quick_board.actions_remaining, 2);
    assert_eq!(standard_board.actions_remaining, 2);
    assert_eq!(golden_board.actions_remaining, 2);

    assert_eq!(quick_board.pieces.len(), 14);
    assert_eq!(standard_board.pieces.len(), 14);
    assert_eq!(golden_board.pieces.len(), 14);
}

#[test]
fn test_is_game_over_initially_false() {
    let (store, id) = create_test_store();
    assert!(!store.is_game_over(id));
}

#[test]
fn test_get_winner_initially_none() {
    let (store, id) = create_test_store();
    assert!(store.get_winner(id).is_none());
}

#[test]
fn test_is_game_over_invalid_returns_true() {
    let (store, _) = create_test_store();
    // A missing match is treated as over, to prevent actions on it.
    assert!(store.is_game_over(987654));
}

#[test]
fn test_get_winner_invalid_returns_none() {
    let (store, _) = create_test_store();
    assert!(store.get_winner(987654).is_none());
}

#[test]
fn test_game_exists_true_for_valid_game() {
    let (store, id) = create_test_store();
    assert!(store.game_exists(id));
}

#[test]
fn test_game_exists_false_for_invalid_id() {
    let (store, _) = create_test_store();
    assert!(!store.game_exists(987654));
}

#[test]
fn test_delete_game_frees_memory() {
    let (mut store, id) = create_test_store();
    assert!(store.game_exists(id), "Game should exist after creation");

    assert!(store.delete_game(id), "Delete should return true");
    assert!(!store.game_exists(id), "Game should not exist after deletion");
}

#[test]
fn test_delete_game_nonexistent_returns_false() {
    let (mut store, _) = create_test_store();
    let deleted = store.delete_game(123456);
    assert!(!deleted, "Deleting nonexistent game should return false");
}

#[test]
fn test_deleted_handle_reports_not_found_everywhere() {
    let (mut store, id) = create_test_store();
    assert!(store.delete_game(id));

    // Every query on the deleted handle reports missing, never a crash.
    assert!(store.get_board(id).is_none());
    assert!(store.get_legal_moves(id, Position { row: 3, col: 3 }).is_empty());
    let r = store.execute_move(id, Position { row: 3, col: 3 }, Position { row: 4, col: 2 });
    assert_eq!(r, Err(xfutebol::types::GameError::MatchNotFound));
    assert!(store
        .get_bot_action(id, xfutebol::types::Difficulty::Medium)
        .is_none());
    assert!(store.is_game_over(id));
    assert!(store.get_winner(id).is_none());
}

#[test]
fn test_handles_are_not_reused_after_delete() {
    let (mut store, id) = create_test_store();
    assert!(store.delete_game(id));
    let id2 = store.new_game(GameModeType::StandardMatch);
    assert_ne!(id, id2);
}
